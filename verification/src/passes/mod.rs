//! # The compiler passes

pub mod determine_tail_positions;
pub mod build_call_graph;
pub mod resolve_most_identifiers;
pub mod resolve_recursive_calls;
pub mod resolve_recursive_local_functions;
pub mod resolve_non_recursive_functions;
pub mod sort_non_divergent_branches;
pub mod infer_types;
pub mod detect_changes;
pub mod generate_instructions;
