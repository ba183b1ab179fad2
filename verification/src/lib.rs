//! The front end and middle passes of the Caterpillar compiler: tokenizing,
//! parsing, and the passes that resolve identifiers, analyze the call graph,
//! sort branches, infer types and detect changes between versions of a
//! program.

pub mod tokens;
pub mod location;
pub mod types;
pub mod intrinsics;
pub mod host;
pub mod code;
pub mod instructions;
pub mod passes;
pub mod graph;
pub mod call_graph;
pub mod parse;
pub mod hash;
pub mod search;
