//! Building the plans of a whole pipeline: labels are resolved across all
//! stages, the order of the systems within each stage.
//!
//! A pipeline whose systems refer to a label that is carried nowhere, or
//! wait for each other in a circle, is refused before any tick runs.

use vstd::prelude::*;
use crate::schedule::{arrange, cyclic, defined, is_defined, is_plan, refs};
use crate::state::Pass;
use crate::system::{SystemDecl, SystemLabel};

verus! {

/// Why the plans of a pipeline cannot be made.
#[derive(Clone, Copy, Debug, PartialEq, Eq, Structural)]
pub enum BuildError {
    /// In the stage with the given number, the system with the given number
    /// refers to a label that no system of any stage carries.
    UnknownLabel { stage: usize, system: usize, label: SystemLabel },
    /// In the stage with the given number, some systems wait for each other
    /// in a circle.
    Cycle { stage: usize },
}

/// Whether some system of some stage carries `label`.
pub open spec fn defined_anywhere(stages: Seq<Vec<SystemDecl>>, label: SystemLabel) -> bool {
    exists|s: int| 0 <= s < stages.len() && defined(#[trigger] stages[s]@, label)
}

/// Whether the `k`-th label that system `i` of stage `s` refers to is
/// carried by no system of any stage.
pub open spec fn stray(stages: Seq<Vec<SystemDecl>>, s: int, i: int, k: int) -> bool {
    &&& 0 <= s < stages.len()
    &&& 0 <= i < stages[s]@.len()
    &&& 0 <= k < refs(stages[s]@[i]).len()
    &&& !defined_anywhere(stages, refs(stages[s]@[i])[k])
}

/// Whether every label that is referred to is carried by some system of
/// some stage.
pub open spec fn all_resolve(stages: Seq<Vec<SystemDecl>>) -> bool {
    forall|s: int, i: int, k: int| !stray(stages, s, i, k)
}

/// Whether the place `(s2, i2, k2)` comes before the place `(s, i, k)`: in an
/// earlier stage, or in the same stage at an earlier system, or at the same
/// system at an earlier label.
pub open spec fn earlier(s2: int, i2: int, k2: int, s: int, i: int, k: int) -> bool {
    s2 < s || (s2 == s && (i2 < i || (i2 == i && k2 < k)))
}

/// Whether system `i` of stage `s` makes the first reference to a label that
/// is carried nowhere, and that label is `label`.
pub open spec fn first_stray(stages: Seq<Vec<SystemDecl>>, s: int, i: int, label: SystemLabel) -> bool {
    exists|k: int|
        #![trigger stray(stages, s, i, k)]
        stray(stages, s, i, k) && refs(stages[s]@[i])[k] == label && forall|
            s2: int,
            i2: int,
            k2: int,
        |
            earlier(s2, i2, k2, s, i, k) ==> !stray(stages, s2, i2, k2)
}

/// Tells whether some system of some stage carries `label`.
pub fn is_defined_anywhere(stages: &Vec<Vec<SystemDecl>>, label: SystemLabel) -> (res: bool)
    ensures
        res == defined_anywhere(stages@, label),
{
    let mut s: usize = 0;
    while s < stages.len()
        invariant
            s <= stages.len(),
            forall|t: int| 0 <= t < s ==> !defined(#[trigger] stages@[t]@, label),
        decreases stages.len() - s,
    {
        if is_defined(&stages[s], label) {
            assert(defined(stages@[s as int]@, label));
            return true;
        }
        s += 1;
    }
    false
}

/// Looks through the labels of one list of a system for one that is carried
/// nowhere. `offset` is the place of the list's first label among all labels
/// that the system refers to.
fn check_list(
    stages: &Vec<Vec<SystemDecl>>,
    s: usize,
    i: usize,
    list: &Vec<SystemLabel>,
    offset: usize,
) -> (res: Option<SystemLabel>)
    requires
        s < stages.len(),
        i < stages@[s as int]@.len(),
        offset + list.len() <= refs(stages@[s as int]@[i as int]).len(),
        forall|k: int|
            0 <= k < list.len() ==> list@[k] == refs(stages@[s as int]@[i as int])[offset + k],
        forall|s2: int, i2: int, k2: int|
            earlier(s2, i2, k2, s as int, i as int, offset as int) ==> !stray(stages@, s2, i2, k2),
    ensures
        res matches Some(label) ==> first_stray(stages@, s as int, i as int, label),
        res is None ==> forall|s2: int, i2: int, k2: int|
            earlier(s2, i2, k2, s as int, i as int, offset + list.len()) ==> !stray(
                stages@,
                s2,
                i2,
                k2,
            ),
{
    let mut k: usize = 0;
    while k < list.len()
        invariant
            k <= list.len(),
            s < stages.len(),
            i < stages@[s as int]@.len(),
            offset + list.len() <= refs(stages@[s as int]@[i as int]).len(),
            forall|k: int|
                0 <= k < list.len() ==> list@[k] == refs(stages@[s as int]@[i as int])[offset + k],
            forall|s2: int, i2: int, k2: int|
                earlier(s2, i2, k2, s as int, i as int, offset + k) ==> !stray(stages@, s2, i2, k2),
        decreases list.len() - k,
    {
        if !is_defined_anywhere(stages, list[k]) {
            assert(stray(stages@, s as int, i as int, offset + k));
            return Some(list[k]);
        }
        proof {
            let at = offset + k;
            assert forall|s2: int, i2: int, k2: int|
                earlier(s2, i2, k2, s as int, i as int, at + 1) implies !stray(stages@, s2, i2, k2) by {
                if !earlier(s2, i2, k2, s as int, i as int, at) {
                    assert(s2 == s && i2 == i && k2 == at);
                }
            }
        }
        k += 1;
    }
    None
}

/// Looks for a label that is referred to and that no system of any stage
/// carries. Returns the first such reference, by stage, system and label,
/// or nothing if every label resolves.
pub fn check_all_labels(stages: &Vec<Vec<SystemDecl>>) -> (res: Option<(usize, usize, SystemLabel)>)
    ensures
        res is None <==> all_resolve(stages@),
        res matches Some((s, i, label)) ==> first_stray(stages@, s as int, i as int, label),
{
    let mut s: usize = 0;
    while s < stages.len()
        invariant
            s <= stages.len(),
            forall|s2: int, i2: int, k2: int| s2 < s ==> !stray(stages@, s2, i2, k2),
        decreases stages.len() - s,
    {
        let decls = &stages[s];
        let mut i: usize = 0;
        while i < decls.len()
            invariant
                s < stages.len(),
                *decls == stages@[s as int],
                i <= decls.len(),
                forall|s2: int, i2: int, k2: int|
                    earlier(s2, i2, k2, s as int, i as int, 0) ==> !stray(stages@, s2, i2, k2),
            decreases decls.len() - i,
        {
            let decl = &decls[i];
            match check_list(stages, s, i, &decl.before, 0) {
                Some(label) => {
                    return Some((s, i, label));
                },
                None => {},
            }
            match check_list(stages, s, i, &decl.after, decl.before.len()) {
                Some(label) => {
                    return Some((s, i, label));
                },
                None => {},
            }
            proof {
                assert forall|s2: int, i2: int, k2: int|
                    earlier(s2, i2, k2, s as int, i + 1, 0) implies !stray(stages@, s2, i2, k2) by {
                    if s2 == s && i2 == i {
                        if stray(stages@, s2, i2, k2) {
                            assert(earlier(
                                s2,
                                i2,
                                k2,
                                s as int,
                                i as int,
                                decl.before.len() + decl.after.len(),
                            ));
                        }
                    }
                }
            }
            i += 1;
        }
        proof {
            assert forall|s2: int, i2: int, k2: int| s2 < s + 1 implies !stray(stages@, s2, i2, k2) by {
                if s2 == s && stray(stages@, s2, i2, k2) {
                    assert(earlier(s2, i2, k2, s as int, decls.len() as int, 0));
                }
            }
        }
        s += 1;
    }
    None
}

/// Makes the plans of a pipeline, one for each stage.
///
/// A reference to a label that no system of any stage carries is reported
/// first; failing that, the first stage in which systems wait for each other
/// in a circle is reported; otherwise every stage gets its plan.
pub fn build(stages: &Vec<Vec<SystemDecl>>) -> (res: Result<Vec<Vec<Vec<usize>>>, BuildError>)
    ensures
        match res {
            Ok(plans) => {
                &&& all_resolve(stages@)
                &&& plans.len() == stages.len()
                &&& forall|s: int|
                    0 <= s < stages.len() ==> !cyclic(#[trigger] stages@[s]@) && is_plan(
                        stages@[s]@,
                        plans@[s]@,
                    )
            },
            Err(BuildError::UnknownLabel { stage, system, label }) => first_stray(
                stages@,
                stage as int,
                system as int,
                label,
            ),
            Err(BuildError::Cycle { stage }) => {
                &&& all_resolve(stages@)
                &&& stage < stages.len()
                &&& cyclic(stages@[stage as int]@)
                &&& forall|s: int| 0 <= s < stage ==> !cyclic(#[trigger] stages@[s]@)
            },
        },
{
    match check_all_labels(stages) {
        Some((stage, system, label)) => {
            return Err(BuildError::UnknownLabel { stage, system, label });
        },
        None => {},
    }
    let mut plans: Vec<Vec<Vec<usize>>> = Vec::new();
    let mut s: usize = 0;
    while s < stages.len()
        invariant
            s <= stages.len(),
            plans.len() == s,
            all_resolve(stages@),
            forall|t: int|
                0 <= t < s ==> !cyclic(#[trigger] stages@[t]@) && is_plan(stages@[t]@, plans@[t]@),
        decreases stages.len() - s,
    {
        match arrange(&stages[s]) {
            Some(batches) => {
                plans.push(batches);
            },
            None => {
                return Err(BuildError::Cycle { stage: s });
            },
        }
        s += 1;
    }
    Ok(plans)
}

/// Whether a system with the given declaration runs in `pass`: its criteria
/// admit the pass and, if it is bound to the fixed step, a step is due.
pub open spec fn runs_in(decl: SystemDecl, pass: Pass, step_due: bool) -> bool {
    decl.criteria.spec_admits(pass) && (decl.fixed_step ==> step_due)
}

/// The systems of `batch` that run in `pass`, in their order.
pub open spec fn runnable(decls: Seq<SystemDecl>, batch: Seq<usize>, pass: Pass, step_due: bool) -> Seq<
    usize,
> {
    batch.filter(|i: usize| 0 <= i < decls.len() && runs_in(decls[i as int], pass, step_due))
}

/// Picks from a batch the systems that run in `pass`.
pub fn select(decls: &Vec<SystemDecl>, batch: &Vec<usize>, pass: Pass, step_due: bool) -> (res: Vec<
    usize,
>)
    ensures
        res@ == runnable(decls@, batch@, pass, step_due),
{
    let ghost keep = |i: usize| 0 <= i < decls@.len() && runs_in(decls@[i as int], pass, step_due);
    let mut res: Vec<usize> = Vec::new();
    let mut p: usize = 0;
    assert(batch@.take(0) =~= Seq::<usize>::empty());
    while p < batch.len()
        invariant
            p <= batch.len(),
            keep == |i: usize| 0 <= i < decls@.len() && runs_in(decls@[i as int], pass, step_due),
            res@ == batch@.take(p as int).filter(keep),
        decreases batch.len() - p,
    {
        let i = batch[p];
        proof {
            assert(batch@.take(p + 1).drop_last() =~= batch@.take(p as int));
            assert(batch@.take(p + 1).last() == i);
            reveal(Seq::filter);
        }
        if i < decls.len() && decls[i].criteria.admits(pass) && (!decls[i].fixed_step || step_due) {
            res.push(i);
        }
        p += 1;
    }
    assert(batch@.take(p as int) =~= batch@);
    res
}

} // verus!
