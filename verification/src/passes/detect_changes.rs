//! # Detecting which functions changed between two versions of a program

use vstd::prelude::*;

use crate::code::{named_location, named_position_in, Function, FunctionView, Functions, FunctionsView, NamedFunctionView};
use crate::location::{FunctionIndexInRootContext, FunctionLocation};
use crate::passes::infer_types::{find_by_hash, position_by_hash};
use crate::passes::resolve_non_recursive_functions::StableFunctions;

verus! {

/// # A function, as it was or is, with its location
pub struct FunctionInUpdate {
    pub location: FunctionLocation,
    pub function: Function,
}

/// # A function that was updated: its old and its new version
pub struct FunctionUpdate {
    pub old: FunctionInUpdate,
    pub new: FunctionInUpdate,
}

/// # The changes between two versions of a program
///
/// The added functions are in the order of their locations, and no location
/// occurs twice among them.
pub struct Changes {
    pub added: Vec<(FunctionLocation, Function)>,
    pub updated: Vec<FunctionUpdate>,
}

/// # The mathematical model of a [`FunctionInUpdate`]
pub ghost struct FunctionInUpdateView {
    pub location: FunctionLocation,
    pub function: FunctionView,
}

/// # The mathematical model of a [`FunctionUpdate`]
pub ghost struct FunctionUpdateView {
    pub old: FunctionInUpdateView,
    pub new: FunctionInUpdateView,
}

/// # The mathematical model of [`Changes`]
pub ghost struct ChangesView {
    pub added: Seq<(FunctionLocation, FunctionView)>,
    pub updated: Seq<FunctionUpdateView>,
}

impl DeepView for FunctionInUpdate {
    type V = FunctionInUpdateView;

    open spec fn deep_view(&self) -> FunctionInUpdateView {
        FunctionInUpdateView { location: self.location, function: self.function.deep_view() }
    }
}

impl DeepView for FunctionUpdate {
    type V = FunctionUpdateView;

    open spec fn deep_view(&self) -> FunctionUpdateView {
        FunctionUpdateView { old: self.old.deep_view(), new: self.new.deep_view() }
    }
}

/// The model of added functions
pub open spec fn added_view(added: Seq<(FunctionLocation, Function)>) -> Seq<(FunctionLocation, FunctionView)> {
    added.map_values(|entry: (FunctionLocation, Function)| (entry.0, entry.1.deep_view()))
}

impl DeepView for Changes {
    type V = ChangesView;

    open spec fn deep_view(&self) -> ChangesView {
        ChangesView { added: added_view(self.added@), updated: self.updated.deep_view() }
    }
}

/// A program without functions
pub open spec fn no_functions() -> FunctionsView {
    FunctionsView { named: Seq::empty(), anonymous: Seq::empty() }
}

/// The changes from `old` to the first `n` named functions of `new`
///
/// A new function with the hash of an old one has not changed. Otherwise, one
/// with the name of an old one is an update of the first old one of that
/// name. Otherwise, it was added.
pub open spec fn changes_up_to(old: FunctionsView, new: FunctionsView, n: int) -> ChangesView
    decreases n,
{
    if n <= 0 {
        ChangesView { added: Seq::empty(), updated: Seq::empty() }
    } else {
        let before = changes_up_to(old, new, n - 1);
        let function = new.named[n - 1];
        if position_by_hash(old.named, crate::code::Hash { hash: crate::hash::spec_hash(function.inner) }) is Some {
            before
        } else {
            match named_position_in(old.named, function.name) {
                Some(j) => ChangesView {
                    updated: before.updated.push(
                        FunctionUpdateView {
                            old: FunctionInUpdateView { location: named_location(j), function: old.named[j].inner },
                            new: FunctionInUpdateView { location: named_location(n - 1), function: function.inner },
                        },
                    ),
                    ..before
                },
                None => ChangesView { added: before.added.push((named_location(n - 1), function.inner)), ..before },
            }
        }
    }
}

/// The changes from `old`, or from no functions, to `new`
pub open spec fn spec_detect_changes(old: Option<FunctionsView>, new: FunctionsView) -> ChangesView {
    let old = match old {
        Some(functions) => functions,
        None => no_functions(),
    };
    changes_up_to(old, new, new.named.len() as int)
}

/// # Detect which named functions were added or updated
///
/// Compares the named functions of a program with those of an earlier version
/// of it, if there is one. A function with the same hash as an old one has not
/// changed; otherwise, one with the same name as an old one was updated;
/// otherwise, it was added.
pub fn detect_changes(old_functions: Option<StableFunctions>, new_functions: &Functions) -> (r: Changes)
    ensures
        r.deep_view() == spec_detect_changes(
            match old_functions {
                Some(functions) => Some(functions.spec_functions()),
                None => None,
            },
            new_functions.deep_view(),
        ),
{
    let empty = Functions { named: Vec::new(), anonymous: Vec::new() };
    let old: &Functions = match &old_functions {
        Some(functions) => functions.functions(),
        None => &empty,
    };
    proof {
        assert(empty.deep_view().named =~= no_functions().named);
        assert(empty.deep_view().anonymous =~= no_functions().anonymous);
    }
    let ghost old_view = old.deep_view();
    let ghost new_view = new_functions.deep_view();
    let mut added: Vec<(FunctionLocation, Function)> = Vec::new();
    let mut updated: Vec<FunctionUpdate> = Vec::new();
    let n = new_functions.named.len();
    let mut i: usize = 0;
    while i < n
        invariant
            n == new_view.named.len(),
            i <= n,
            old_view == old.deep_view(),
            new_view == new_functions.deep_view(),
            added_view(added@) == changes_up_to(old_view, new_view, i as int).added,
            updated.deep_view() == changes_up_to(old_view, new_view, i as int).updated,
        decreases n - i,
    {
        let new_function = &new_functions.named[i];
        let hash = crate::code::Hash::new(&new_function.inner);
        if find_by_hash(old, &hash).is_some() {
            i = i + 1;
            continue;
        }
        let location = FunctionLocation::NamedFunction { index: FunctionIndexInRootContext(i as u32) };
        match old.find_named_position(new_function.name.as_str()) {
            Some(j) => {
                proof {
                    crate::code::named_position_found(old_view.named, new_function.name@);
                }
                let update = FunctionUpdate {
                    old: FunctionInUpdate {
                        location: FunctionLocation::NamedFunction { index: FunctionIndexInRootContext(j as u32) },
                        function: old.named[j].inner.copied(),
                    },
                    new: FunctionInUpdate { location, function: new_function.inner.copied() },
                };
                let ghost before = updated.deep_view();
                updated.push(update);
                assert(updated.deep_view() =~= before.push(update.deep_view()));
            },
            None => {
                let ghost before = added@;
                let entry = (location, new_function.inner.copied());
                added.push(entry);
                assert(added_view(added@) =~= added_view(before).push((entry.0, entry.1.deep_view())));
            },
        }
        i = i + 1;
    }
    let r = Changes { added, updated };
    assert(r.deep_view() == changes_up_to(old_view, new_view, n as int));
    r
}

proof fn lemma_hash_found(named: Seq<NamedFunctionView>, k: int)
    requires
        0 <= k < named.len(),
    ensures
        position_by_hash(named, crate::code::Hash { hash: crate::hash::spec_hash(named[k].inner) }) is Some,
    decreases k,
{
    let hash = crate::code::Hash { hash: crate::hash::spec_hash(named[k].inner) };
    if k > 0 && crate::hash::spec_hash(named[0].inner) != hash.hash {
        assert(named.drop_first()[k - 1] == named[k]);
        lemma_hash_found(named.drop_first(), k - 1);
    }
}

/// A program compared with itself has no changes: each of its functions is
/// found by its hash.
pub proof fn unchanged_program_has_no_changes(functions: FunctionsView)
    ensures
        spec_detect_changes(Some(functions), functions) == (ChangesView {
            added: Seq::empty(),
            updated: Seq::empty(),
        }),
{
    assert forall|n: int| 0 <= n <= functions.named.len() implies changes_up_to(functions, functions, n) == (
    ChangesView { added: Seq::empty(), updated: Seq::empty() }) by {
        lemma_no_changes_up_to(functions, n);
    }
}

proof fn lemma_no_changes_up_to(functions: FunctionsView, n: int)
    requires
        0 <= n <= functions.named.len(),
    ensures
        changes_up_to(functions, functions, n) == (ChangesView { added: Seq::empty(), updated: Seq::empty() }),
    decreases n,
{
    if n > 0 {
        lemma_no_changes_up_to(functions, n - 1);
        lemma_hash_found(functions.named, n - 1);
    }
}

/// Without an earlier version, each named function of a program is added, in
/// order, and none is updated.
pub proof fn first_version_adds_all_functions(functions: FunctionsView)
    ensures
        spec_detect_changes(None, functions).added == Seq::new(
            functions.named.len(),
            |i: int| (named_location(i), functions.named[i].inner),
        ),
        spec_detect_changes(None, functions).updated == Seq::<FunctionUpdateView>::empty(),
{
    lemma_all_added_up_to(functions, functions.named.len() as int);
}

proof fn lemma_all_added_up_to(functions: FunctionsView, n: int)
    requires
        0 <= n <= functions.named.len(),
    ensures
        changes_up_to(no_functions(), functions, n).added == Seq::new(
            n as nat,
            |i: int| (named_location(i), functions.named[i].inner),
        ),
        changes_up_to(no_functions(), functions, n).updated == Seq::<FunctionUpdateView>::empty(),
    decreases n,
{
    if n > 0 {
        lemma_all_added_up_to(functions, n - 1);
        let before = changes_up_to(no_functions(), functions, n - 1);
        assert(Seq::new(n as nat, |i: int| (named_location(i), functions.named[i].inner)) =~= before.added.push(
            (named_location(n - 1), functions.named[n - 1].inner),
        ));
    } else {
        assert(changes_up_to(no_functions(), functions, n).added =~= Seq::new(
            n as nat,
            |i: int| (named_location(i), functions.named[i].inner),
        ));
    }
}

/// Whether `update` is an update of the named function `old.named[j]` to
/// `new.named[i]`: each carried function is the one at its location, and both
/// have the same name
pub open spec fn is_update_between(old: FunctionsView, new: FunctionsView, update: FunctionUpdateView) -> bool {
    &&& position_by_hash(old.named, crate::code::Hash { hash: crate::hash::spec_hash(update.new.function) }) is None
    &&& old.function_at(update.old.location) == Some(update.old.function)
    &&& new.function_at(update.new.location) == Some(update.new.function)
    &&& update.old.location matches FunctionLocation::NamedFunction { index: j }
    &&& update.new.location matches FunctionLocation::NamedFunction { index: i }
    &&& old.named[j.0 as int].name == new.named[i.0 as int].name
}

/// Whether `added` is a named function of `new`, at its location, whose hash
/// and name no old named function has
pub open spec fn is_addition_to(old: FunctionsView, new: FunctionsView, added: (FunctionLocation, FunctionView)) -> bool {
    &&& new.function_at(added.0) == Some(added.1)
    &&& position_by_hash(old.named, crate::code::Hash { hash: crate::hash::spec_hash(added.1) }) is None
    &&& added.0 matches FunctionLocation::NamedFunction { index: i }
    &&& forall|j: int| 0 <= j < old.named.len() ==> #[trigger] old.named[j].name != new.named[i.0 as int].name
}

proof fn lemma_updates_between(old: FunctionsView, new: FunctionsView, n: int)
    requires
        old.named.len() <= u32::MAX,
        new.named.len() <= u32::MAX,
        0 <= n <= new.named.len(),
    ensures
        forall|k: int|
            0 <= k < changes_up_to(old, new, n).updated.len() ==> is_update_between(
                old,
                new,
                #[trigger] changes_up_to(old, new, n).updated[k],
            ),
        forall|k: int|
            0 <= k < changes_up_to(old, new, n).added.len() ==> is_addition_to(
                old,
                new,
                #[trigger] changes_up_to(old, new, n).added[k],
            ),
    decreases n,
{
    if n > 0 {
        lemma_updates_between(old, new, n - 1);
        let before = changes_up_to(old, new, n - 1);
        let after = changes_up_to(old, new, n);
        let function = new.named[n - 1];
        crate::code::named_position_found(old.named, function.name);
        assert forall|k: int| 0 <= k < after.updated.len() implies is_update_between(
            old,
            new,
            #[trigger] after.updated[k],
        ) by {
            if k < before.updated.len() {
                assert(after.updated[k] == before.updated[k]);
            }
        }
        assert forall|k: int| 0 <= k < after.added.len() implies is_addition_to(old, new, #[trigger] after.added[k]) by {
            if k < before.added.len() {
                assert(after.added[k] == before.added[k]);
            }
        }
    }
}

/// Each update that detecting changes reports carries the old version of the
/// function from where it was in the old program, and the new version from
/// where it is in the new one, under the same name; the new version's hash is
/// no old function's. Each added function is the new program's function at
/// its location, and neither its hash nor its name is an old function's.
pub proof fn updates_locate_both_versions(old: Option<FunctionsView>, new: FunctionsView)
    requires
        old matches Some(o) ==> o.named.len() <= u32::MAX,
        new.named.len() <= u32::MAX,
    ensures
        forall|k: int|
            0 <= k < spec_detect_changes(old, new).updated.len() ==> is_update_between(
                match old {
                    Some(o) => o,
                    None => no_functions(),
                },
                new,
                #[trigger] spec_detect_changes(old, new).updated[k],
            ),
        forall|k: int|
            0 <= k < spec_detect_changes(old, new).added.len() ==> is_addition_to(
                match old {
                    Some(o) => o,
                    None => no_functions(),
                },
                new,
                #[trigger] spec_detect_changes(old, new).added[k],
            ),
{
    let o = match old {
        Some(o) => o,
        None => no_functions(),
    };
    lemma_updates_between(o, new, new.named.len() as int);
}

} // verus!
