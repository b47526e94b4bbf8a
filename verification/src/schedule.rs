//! The scheduler core: from the systems that a phase declares to the batches
//! in which they run.
//!
//! A system waits for another if it is declared to run after it, or if the
//! two conflict and nothing is declared; then the one declared first goes
//! first. A batch holds systems that do not wait for each other, and every
//! system runs in the first batch in which all it waits for is done.

use vstd::prelude::*;
use vstd::set_lib::{lemma_int_range, lemma_len_subset, set_int_range};
use crate::system::{ambiguous, conflict, explicit, SystemDecl, SystemLabel};

verus! {

/// Why no plan can be made of a phase.
#[derive(Clone, Copy, Debug, PartialEq, Eq, Structural)]
pub enum PlanError {
    /// The system with the given number refers to a label that no system of
    /// the phase carries.
    UnknownLabel { system: usize, label: SystemLabel },
    /// Some systems wait for each other in a circle.
    Cycle,
}

/// Whether system `a` has to be done before system `b` starts.
pub open spec fn edge(decls: Seq<SystemDecl>, a: int, b: int) -> bool {
    &&& 0 <= a < decls.len()
    &&& 0 <= b < decls.len()
    &&& (explicit(decls[a], decls[b]) || (a < b && conflict(decls[a], decls[b]) && !explicit(
        decls[b],
        decls[a],
    )))
}

/// Whether some system of the phase carries `label`.
pub open spec fn defined(decls: Seq<SystemDecl>, label: SystemLabel) -> bool {
    exists|i: int| 0 <= i < decls.len() && #[trigger] decls[i].label == Some(label)
}

/// The labels that a system refers to: first those it runs before, then
/// those it runs after.
pub open spec fn refs(decl: SystemDecl) -> Seq<SystemLabel> {
    decl.before@ + decl.after@
}

/// Whether the `k`-th label that system `i` refers to is carried by no
/// system.
pub open spec fn dangling(decls: Seq<SystemDecl>, i: int, k: int) -> bool {
    &&& 0 <= i < decls.len()
    &&& 0 <= k < refs(decls[i]).len()
    &&& !defined(decls, refs(decls[i])[k])
}

/// Whether every label that is referred to is carried by some system.
pub open spec fn labels_resolve(decls: Seq<SystemDecl>) -> bool {
    forall|i: int, k: int| !dangling(decls, i, k)
}

/// Whether `group` is a non-empty group of systems each of which waits for
/// another system of the group.
pub open spec fn blocked(decls: Seq<SystemDecl>, group: Set<int>) -> bool {
    &&& exists|b: int| group.contains(b)
    &&& forall|b: int| #[trigger]
        group.contains(b) ==> 0 <= b < decls.len() && exists|a: int|
            group.contains(a) && edge(decls, a, b)
}

/// Whether some systems wait for each other in a circle, so that none of
/// them can ever start.
pub open spec fn cyclic(decls: Seq<SystemDecl>) -> bool {
    exists|group: Set<int>| blocked(decls, group)
}

/// Whether `batch` lists system `i`.
pub open spec fn lists(batch: Seq<usize>, i: int) -> bool {
    exists|p: int| 0 <= p < batch.len() && batch[p] == i
}

/// Whether batch `k` holds system `i`.
pub open spec fn holds(batches: Seq<Vec<usize>>, k: int, i: int) -> bool {
    0 <= k < batches.len() && lists(batches[k]@, i)
}

/// Whether some batch holds system `i`.
pub open spec fn placed_by(batches: Seq<Vec<usize>>, i: int) -> bool {
    exists|k: int| holds(batches, k, i)
}

/// Whether `batch` lists numbers below `n` in strictly ascending order.
pub open spec fn ascending(batch: Seq<usize>, n: nat) -> bool {
    &&& forall|p: int| 0 <= p < batch.len() ==> batch[p] < n
    &&& forall|p: int, q: int| 0 <= p < q < batch.len() ==> batch[p] < batch[q]
}

/// Whether no batch is empty and each lists its systems in the order in
/// which they were declared.
pub open spec fn well_formed(decls: Seq<SystemDecl>, batches: Seq<Vec<usize>>) -> bool {
    forall|k: int|
        0 <= k < batches.len() ==> (#[trigger] batches[k])@.len() > 0 && ascending(
            batches[k]@,
            decls.len(),
        )
}

/// Whether no system is held by two batches.
pub open spec fn disjoint(batches: Seq<Vec<usize>>) -> bool {
    forall|i: int, k1: int, k2: int|
        holds(batches, k1, i) && holds(batches, k2, i) ==> k1 == k2
}

/// Whether everything that a placed system waits for is held by an earlier
/// batch.
pub open spec fn settled(decls: Seq<SystemDecl>, batches: Seq<Vec<usize>>) -> bool {
    forall|a: int, b: int, kb: int|
        edge(decls, a, b) && holds(batches, kb, b) ==> exists|ka: int|
            ka < kb && holds(batches, ka, a)
}

/// Whether every system runs in a later batch than all that it waits for.
pub open spec fn respects(decls: Seq<SystemDecl>, batches: Seq<Vec<usize>>) -> bool {
    forall|a: int, b: int, ka: int, kb: int|
        edge(decls, a, b) && holds(batches, ka, a) && holds(batches, kb, b) ==> ka < kb
}

/// Whether every system outside the first batch waits for a system of the
/// batch just before its own, so that it could not run any earlier.
pub open spec fn earliest(decls: Seq<SystemDecl>, batches: Seq<Vec<usize>>) -> bool {
    forall|b: int, kb: int|
        holds(batches, kb, b) && kb > 0 ==> exists|a: int|
            edge(decls, a, b) && holds(batches, kb - 1, a)
}

/// Whether `batches` is the plan of the phase: every system is in exactly
/// one batch, after all that it waits for, and as early as that allows.
pub open spec fn is_plan(decls: Seq<SystemDecl>, batches: Seq<Vec<usize>>) -> bool {
    &&& well_formed(decls, batches)
    &&& forall|i: int| 0 <= i < decls.len() ==> placed_by(batches, i)
    &&& disjoint(batches)
    &&& respects(decls, batches)
    &&& earliest(decls, batches)
}

/// Tells whether system `a` has to be done before system `b` starts.
pub fn precedes(decls: &Vec<SystemDecl>, a: usize, b: usize) -> (res: bool)
    ensures
        res == edge(decls@, a as int, b as int),
{
    if a >= decls.len() || b >= decls.len() {
        return false;
    }
    if decls[a].runs_before(&decls[b]) {
        return true;
    }
    a < b && decls[a].conflicts_with(&decls[b]) && !decls[b].runs_before(&decls[a])
}

/// Tells whether some system of the phase carries `label`.
pub fn is_defined(decls: &Vec<SystemDecl>, label: SystemLabel) -> (res: bool)
    ensures
        res == defined(decls@, label),
{
    let mut i: usize = 0;
    while i < decls.len()
        invariant
            i <= decls.len(),
            forall|k: int| 0 <= k < i ==> decls@[k].label != Some(label),
        decreases decls.len() - i,
    {
        match decls[i].label {
            Some(l) => {
                if l == label {
                    return true;
                }
            },
            None => {},
        }
        i += 1;
    }
    false
}

/// Whether the `k`-th label that system `i` refers to is the first, in the
/// order of declaration, that no system carries.
pub open spec fn first_dangling(decls: Seq<SystemDecl>, i: int, k: int) -> bool {
    &&& dangling(decls, i, k)
    &&& forall|i2: int, k2: int| (i2 < i || (i2 == i && k2 < k)) ==> !dangling(decls, i2, k2)
}

/// Whether the first reference to a label that no system carries is made by
/// system `i` and names `label`.
pub open spec fn first_unknown(decls: Seq<SystemDecl>, i: int, label: SystemLabel) -> bool {
    exists|k: int| first_dangling(decls, i, k) && refs(decls[i])[k] == label
}

/// Looks for a label that is referred to and that no system carries.
/// Returns the first such reference, by system and label, or nothing if
/// every label resolves.
pub fn check_labels(decls: &Vec<SystemDecl>) -> (res: Option<(usize, SystemLabel)>)
    ensures
        res is None <==> labels_resolve(decls@),
        res matches Some((i, l)) ==> first_unknown(decls@, i as int, l),
{
    let mut i: usize = 0;
    while i < decls.len()
        invariant
            i <= decls.len(),
            forall|i2: int, k2: int| i2 < i ==> !dangling(decls@, i2, k2),
        decreases decls.len() - i,
    {
        let decl = &decls[i];
        let mut k: usize = 0;
        while k < decl.before.len()
            invariant
                i < decls.len(),
                *decl == decls@[i as int],
                k <= decl.before.len(),
                forall|i2: int, k2: int| i2 < i ==> !dangling(decls@, i2, k2),
                forall|k2: int| k2 < k ==> !dangling(decls@, i as int, k2),
            decreases decl.before.len() - k,
        {
            if !is_defined(decls, decl.before[k]) {
                assert(first_dangling(decls@, i as int, k as int) && refs(decls@[i as int])[k as int]
                    == decl.before[k as int]);
                return Some((i, decl.before[k]));
            }
            k += 1;
        }
        let mut m: usize = 0;
        while m < decl.after.len()
            invariant
                i < decls.len(),
                *decl == decls@[i as int],
                m <= decl.after.len(),
                forall|i2: int, k2: int| i2 < i ==> !dangling(decls@, i2, k2),
                forall|k2: int| k2 < decl.before.len() + m ==> !dangling(decls@, i as int, k2),
            decreases decl.after.len() - m,
        {
            if !is_defined(decls, decl.after[m]) {
                let ghost at = decl.before.len() + m;
                assert(first_dangling(decls@, i as int, at) && refs(decls@[i as int])[at]
                    == decl.after[m as int]);
                return Some((i, decl.after[m]));
            }
            m += 1;
        }
        i += 1;
    }
    None
}

/// Whether everything that system `b` waits for is marked in `done`.
pub open spec fn ready(decls: Seq<SystemDecl>, done: Seq<bool>, b: int) -> bool {
    forall|a: int| #[trigger] edge(decls, a, b) ==> done[a]
}

/// Tells whether everything that system `b` waits for is marked in `done`.
fn is_ready(decls: &Vec<SystemDecl>, done: &Vec<bool>, b: usize) -> (res: bool)
    requires
        done.len() == decls.len(),
    ensures
        res == ready(decls@, done@, b as int),
{
    let mut a: usize = 0;
    while a < decls.len()
        invariant
            a <= decls.len(),
            done.len() == decls.len(),
            forall|x: int| 0 <= x < a && #[trigger] edge(decls@, x, b as int) ==> done@[x],
        decreases decls.len() - a,
    {
        if precedes(decls, a, b) && !done[a] {
            assert(edge(decls@, a as int, b as int) && !done@[a as int]);
            return false;
        }
        a += 1;
    }
    true
}

/// Whether system `b` is not marked in `done` while all that it waits for
/// is.
pub open spec fn due(decls: Seq<SystemDecl>, done: Seq<bool>, b: int) -> bool {
    0 <= b < decls.len() && !done[b] && ready(decls, done, b)
}

/// Collects, in the order of declaration, the systems that are not marked
/// in `done` while all that they wait for is.
fn next_batch(decls: &Vec<SystemDecl>, done: &Vec<bool>) -> (batch: Vec<usize>)
    requires
        done.len() == decls.len(),
    ensures
        ascending(batch@, decls@.len()),
        forall|b: int| lists(batch@, b) <==> due(decls@, done@, b),
{
    let n = decls.len();
    let mut batch: Vec<usize> = Vec::new();
    let mut b: usize = 0;
    while b < n
        invariant
            n == decls.len(),
            done.len() == n,
            b <= n,
            ascending(batch@, n as nat),
            forall|p: int| 0 <= p < batch@.len() ==> batch@[p] < b,
            forall|x: int| lists(batch@, x) <==> x < b && due(decls@, done@, x),
        decreases n - b,
    {
        let ghost before = batch@;
        if !done[b] && is_ready(decls, done, b) {
            batch.push(b);
            assert forall|x: int| lists(batch@, x) <==> x < b + 1 && due(decls@, done@, x) by {
                if lists(batch@, x) {
                    let p = choose|p: int| 0 <= p < batch@.len() && batch@[p] == x;
                    if p < before.len() {
                        assert(before[p] == x);
                        assert(lists(before, x));
                    }
                }
                if x < b + 1 && due(decls@, done@, x) {
                    if x == b {
                        assert(batch@[batch@.len() - 1] == x);
                    } else {
                        assert(lists(before, x));
                        let p = choose|p: int| 0 <= p < before.len() && before[p] == x;
                        assert(batch@[p] == x);
                    }
                }
            }
        } else {
            assert(!lists(before, b as int));
        }
        b += 1;
    }
    batch
}

/// Number of entries of `done` that are not set.
pub open spec fn open_count(done: Seq<bool>) -> nat
    decreases done.len(),
{
    if done.len() == 0 {
        0
    } else {
        open_count(done.drop_last()) + (if done.last() {
            0nat
        } else {
            1nat
        })
    }
}

proof fn lemma_open_count_set(done: Seq<bool>, i: int)
    requires
        0 <= i < done.len(),
        !done[i],
    ensures
        open_count(done.update(i, true)) + 1 == open_count(done),
    decreases done.len(),
{
    let after = done.update(i, true);
    if i == done.len() - 1 {
        assert(after.drop_last() =~= done.drop_last());
    } else {
        lemma_open_count_set(done.drop_last(), i);
        assert(after.drop_last() =~= done.drop_last().update(i, true));
    }
}

proof fn lemma_open_count_zero(done: Seq<bool>)
    ensures
        open_count(done) == 0 <==> forall|i: int| 0 <= i < done.len() ==> done[i],
        open_count(done) <= done.len(),
    decreases done.len(),
{
    if done.len() > 0 {
        lemma_open_count_zero(done.drop_last());
        if open_count(done) == 0 {
            assert forall|i: int| 0 <= i < done.len() implies done[i] by {
                if i < done.len() - 1 {
                    assert(done.drop_last()[i]);
                }
            }
        }
        if forall|i: int| 0 <= i < done.len() ==> done[i] {
            assert forall|i: int| 0 <= i < done.drop_last().len() implies done.drop_last()[i] by {
                assert(done[i]);
            }
        }
    }
}

proof fn lemma_open_count_fresh(done: Seq<bool>)
    requires
        forall|i: int| 0 <= i < done.len() ==> !done[i],
    ensures
        open_count(done) == done.len(),
    decreases done.len(),
{
    if done.len() > 0 {
        assert forall|i: int| 0 <= i < done.drop_last().len() implies !done.drop_last()[i] by {
            assert(!done[i]);
        }
        lemma_open_count_fresh(done.drop_last());
    }
}

/// Whether no batch but the last holds system `a`.
pub open spec fn late(batches: Seq<Vec<usize>>, a: int) -> bool {
    forall|j: int| 0 <= j < batches.len() - 1 ==> !holds(batches, j, a)
}

/// Whether every system that no batch holds waits for one that no batch but
/// the last holds: it could not have joined the last batch.
pub open spec fn held_back(decls: Seq<SystemDecl>, batches: Seq<Vec<usize>>, done: Seq<bool>) -> bool {
    batches.len() > 0 ==> forall|b: int|
        0 <= b < decls.len() && !#[trigger] done[b] ==> exists|a: int|
            edge(decls, a, b) && late(batches, a)
}

/// Whether `done` marks exactly the systems that some batch holds.
pub open spec fn marks(decls: Seq<SystemDecl>, batches: Seq<Vec<usize>>, done: Seq<bool>) -> bool {
    &&& done.len() == decls.len()
    &&& forall|i: int| 0 <= i < decls.len() ==> (#[trigger] done[i] <==> placed_by(batches, i))
}

/// What holds of the batches made so far while a plan is being made.
#[verifier::opaque]
spec fn underway(decls: Seq<SystemDecl>, batches: Seq<Vec<usize>>, done: Seq<bool>) -> bool {
    &&& well_formed(decls, batches)
    &&& marks(decls, batches, done)
    &&& disjoint(batches)
    &&& settled(decls, batches)
    &&& earliest(decls, batches)
    &&& held_back(decls, batches, done)
}

proof fn lemma_holds_in_range(decls: Seq<SystemDecl>, batches: Seq<Vec<usize>>, k: int, i: int)
    requires
        well_formed(decls, batches),
        holds(batches, k, i),
    ensures
        0 <= i < decls.len(),
{
    let p = choose|p: int| 0 <= p < batches[k]@.len() && batches[k]@[p] == i;
    assert(batches[k]@[p] < decls.len());
}

proof fn lemma_extend(
    decls: Seq<SystemDecl>,
    batches: Seq<Vec<usize>>,
    batch: Vec<usize>,
    done: Seq<bool>,
    marked: Seq<bool>,
)
    requires
        underway(decls, batches, done),
        batch@.len() > 0,
        ascending(batch@, decls.len()),
        forall|b: int| lists(batch@, b) <==> due(decls, done, b),
        marked.len() == decls.len(),
        forall|i: int|
            #![trigger marked[i]]
            0 <= i < decls.len() ==> (marked[i] <==> done[i] || lists(batch@, i)),
    ensures
        underway(decls, batches.push(batch), marked),
{
    reveal(underway);
    let more = batches.push(batch);
    let last = batches.len() as int;
    assert forall|k: int, i: int| holds(more, k, i) <==> (holds(batches, k, i) || (k == last && lists(
        batch@,
        i,
    ))) by {
        if 0 <= k < last {
            assert(more[k] == batches[k]);
        }
        if k == last {
            assert(more[k] == batch);
        }
    }
    assert(well_formed(decls, more)) by {
        assert forall|k: int| 0 <= k < more.len() implies (#[trigger] more[k])@.len() > 0 && ascending(
            more[k]@,
            decls.len(),
        ) by {
            if k < last {
                assert(more[k] == batches[k]);
            }
        }
    }
    assert(marks(decls, more, marked)) by {
        assert forall|i: int| 0 <= i < decls.len() implies (#[trigger] marked[i] <==> placed_by(more, i)) by {
            if marked[i] {
                if done[i] {
                    let k = choose|k: int| holds(batches, k, i);
                    assert(holds(more, k, i));
                } else {
                    assert(holds(more, last, i));
                }
            }
            if placed_by(more, i) {
                let k = choose|k: int| holds(more, k, i);
                if holds(batches, k, i) {
                    assert(placed_by(batches, i));
                }
            }
        }
    }
    assert(disjoint(more)) by {
        assert forall|i: int, k1: int, k2: int| holds(more, k1, i) && holds(more, k2, i) implies k1
            == k2 by {
            if holds(batches, k1, i) && !holds(batches, k2, i) {
                lemma_holds_in_range(decls, batches, k1, i);
                assert(placed_by(batches, i));
                assert(done[i]);
            }
            if holds(batches, k2, i) && !holds(batches, k1, i) {
                lemma_holds_in_range(decls, batches, k2, i);
                assert(placed_by(batches, i));
                assert(done[i]);
            }
        }
    }
    assert(settled(decls, more)) by {
        assert forall|a: int, b: int, kb: int| edge(decls, a, b) && holds(more, kb, b) implies exists|
            ka: int,
        |
            ka < kb && holds(more, ka, a) by {
            if holds(batches, kb, b) {
                let ka = choose|ka: int| ka < kb && holds(batches, ka, a);
                assert(ka < kb && holds(more, ka, a));
            } else {
                assert(due(decls, done, b));
                assert(done[a]);
                assert(placed_by(batches, a));
                let ka = choose|ka: int| holds(batches, ka, a);
                assert(ka < kb && holds(more, ka, a));
            }
        }
    }
    assert(earliest(decls, more)) by {
        assert forall|b: int, kb: int| holds(more, kb, b) && kb > 0 implies exists|a: int|
            edge(decls, a, b) && holds(more, kb - 1, a) by {
            if holds(batches, kb, b) {
                let a = choose|a: int| edge(decls, a, b) && holds(batches, kb - 1, a);
                assert(edge(decls, a, b) && holds(more, kb - 1, a));
            } else {
                assert(due(decls, done, b));
                assert(!done[b]);
                let a = choose|a: int| edge(decls, a, b) && late(batches, a);
                assert(done[a]);
                assert(placed_by(batches, a));
                let ka = choose|ka: int| holds(batches, ka, a);
                assert(ka == last - 1);
                assert(edge(decls, a, b) && holds(more, kb - 1, a));
            }
        }
    }
    assert(held_back(decls, more, marked)) by {
        assert forall|b: int| 0 <= b < decls.len() && !#[trigger] marked[b] implies exists|a: int|
            edge(decls, a, b) && late(more, a) by {
            assert(!done[b]);
            assert(!due(decls, done, b));
            assert(!ready(decls, done, b));
            let a = choose|a: int| edge(decls, a, b) && !done[a];
            assert(late(more, a)) by {
                assert forall|j: int| 0 <= j < more.len() - 1 implies !holds(more, j, a) by {
                    if holds(more, j, a) {
                        assert(holds(batches, j, a));
                        assert(placed_by(batches, a));
                    }
                }
            }
        }
    }
}

proof fn lemma_group_above(decls: Seq<SystemDecl>, batches: Seq<Vec<usize>>, group: Set<int>, m: int)
    requires
        settled(decls, batches),
        blocked(decls, group),
        m >= -1,
    ensures
        forall|b: int, k: int| group.contains(b) && holds(batches, k, b) ==> k > m,
    decreases m + 1,
{
    if m >= 0 {
        lemma_group_above(decls, batches, group, m - 1);
        assert forall|b: int, k: int| group.contains(b) && holds(batches, k, b) implies k > m by {
            if k == m {
                let a = choose|a: int| group.contains(a) && edge(decls, a, b);
                let ka = choose|ka: int| ka < k && holds(batches, ka, a);
                assert(ka > m - 1);
            }
        }
    }
}

/// Where every system is placed after all that it waits for, no systems
/// wait for each other in a circle.
pub proof fn lemma_placed_means_acyclic(decls: Seq<SystemDecl>, batches: Seq<Vec<usize>>)
    requires
        settled(decls, batches),
        forall|i: int| 0 <= i < decls.len() ==> placed_by(batches, i),
    ensures
        !cyclic(decls),
{
    if cyclic(decls) {
        let group = choose|group: Set<int>| blocked(decls, group);
        let b = choose|b: int| group.contains(b);
        assert(placed_by(batches, b));
        let k = choose|k: int| holds(batches, k, b);
        lemma_group_above(decls, batches, group, k);
    }
}

proof fn lemma_start(decls: Seq<SystemDecl>, done: Seq<bool>)
    requires
        done.len() == decls.len(),
        forall|i: int| 0 <= i < done.len() ==> !done[i],
    ensures
        underway(decls, Seq::<Vec<usize>>::empty(), done),
        open_count(done) == decls.len(),
{
    reveal(underway);
    lemma_open_count_fresh(done);
    let batches = Seq::<Vec<usize>>::empty();
    assert forall|i: int| 0 <= i < decls.len() implies !placed_by(batches, i) by {
        if placed_by(batches, i) {
            let k = choose|k: int| holds(batches, k, i);
        }
    }
}

proof fn lemma_stuck(decls: Seq<SystemDecl>, batches: Seq<Vec<usize>>, done: Seq<bool>, batch: Seq<usize>)
    requires
        underway(decls, batches, done),
        open_count(done) > 0,
        batch.len() == 0,
        forall|b: int| lists(batch, b) <==> due(decls, done, b),
    ensures
        cyclic(decls),
{
    reveal(underway);
    let group = Set::new(|b: int| 0 <= b < decls.len() && !done[b]);
    lemma_open_count_zero(done);
    let w = choose|i: int| 0 <= i < done.len() && !done[i];
    assert(group.contains(w));
    assert forall|b: int| #[trigger] group.contains(b) implies 0 <= b < decls.len() && exists|a: int|
        group.contains(a) && edge(decls, a, b) by {
        assert(!lists(batch, b));
        assert(!due(decls, done, b));
        assert(!ready(decls, done, b));
        let a = choose|a: int| edge(decls, a, b) && !done[a];
        assert(group.contains(a) && edge(decls, a, b));
    }
    assert(blocked(decls, group));
}

proof fn lemma_finish(decls: Seq<SystemDecl>, batches: Seq<Vec<usize>>, done: Seq<bool>)
    requires
        underway(decls, batches, done),
        open_count(done) == 0,
    ensures
        is_plan(decls, batches),
        !cyclic(decls),
{
    reveal(underway);
    lemma_open_count_zero(done);
    assert forall|i: int| 0 <= i < decls.len() implies placed_by(batches, i) by {
        assert(done[i]);
    }
    lemma_placed_means_acyclic(decls, batches);
    assert(respects(decls, batches)) by {
        assert forall|a: int, b: int, ka: int, kb: int|
            edge(decls, a, b) && holds(batches, ka, a) && holds(batches, kb, b) implies ka < kb by {
            let k = choose|k: int| k < kb && holds(batches, k, a);
            assert(k == ka);
        }
    }
}

/// Marks the systems of `batch` in `done`.
fn mark(done: &mut Vec<bool>, batch: &Vec<usize>)
    requires
        ascending(batch@, old(done).len() as nat),
        forall|p: int| 0 <= p < batch.len() ==> !old(done)@[batch@[p] as int],
    ensures
        final(done).len() == old(done).len(),
        forall|i: int|
            #![trigger final(done)@[i]]
            0 <= i < old(done).len() ==> (final(done)@[i] <==> old(done)@[i] || lists(batch@, i)),
        open_count(final(done)@) + batch.len() == open_count(old(done)@),
{
    let n = done.len();
    let mut j: usize = 0;
    while j < batch.len()
        invariant
            done.len() == n,
            old(done).len() == n,
            j <= batch.len(),
            ascending(batch@, n as nat),
            forall|p: int| 0 <= p < batch.len() ==> !old(done)@[batch@[p] as int],
            forall|i: int|
                0 <= i < n ==> (done@[i] <==> old(done)@[i] || exists|p: int|
                    0 <= p < j && batch@[p] == i),
            open_count(done@) + j == open_count(old(done)@),
        decreases batch.len() - j,
    {
        let b = batch[j];
        proof {
            assert(!old(done)@[b as int]);
            if done@[b as int] {
                let p = choose|p: int| 0 <= p < j && batch@[p] == b;
                assert(batch@[p] < batch@[j as int]);
            }
            lemma_open_count_set(done@, b as int);
        }
        let ghost earlier = done@;
        done.set(b, true);
        j += 1;
        proof {
            assert forall|i: int| 0 <= i < n implies (done@[i] <==> old(done)@[i] || exists|p: int|
                0 <= p < j && batch@[p] == i) by {
                if i == b {
                    assert(batch@[j - 1] == i);
                } else {
                    assert(done@[i] == earlier[i]);
                    if exists|p: int| 0 <= p < j && batch@[p] == i {
                        let p = choose|p: int| 0 <= p < j && batch@[p] == i;
                        assert(p < j - 1);
                    }
                }
            }
        }
    }
    proof {
        assert forall|i: int| 0 <= i < n implies (done@[i] <==> old(done)@[i] || lists(batch@, i)) by {
            if lists(batch@, i) {
                let p = choose|p: int| 0 <= p < batch@.len() && batch@[p] == i;
                assert(0 <= p < j && batch@[p] == i);
            }
        }
    }
}

/// Arranges the systems of a phase in batches, whatever labels they refer
/// to. The systems are numbered in the order of their declaration; batch
/// after batch lists the numbers of the systems that run together. Nothing
/// is returned if, and only if, some systems wait for each other in a
/// circle.
pub fn arrange(decls: &Vec<SystemDecl>) -> (res: Option<Vec<Vec<usize>>>)
    ensures
        res is None <==> cyclic(decls@),
        res matches Some(batches) ==> is_plan(decls@, batches@),
{
    let n = decls.len();
    let mut done: Vec<bool> = Vec::new();
    while done.len() < n
        invariant
            n == decls.len(),
            done.len() <= n,
            forall|i: int| 0 <= i < done.len() ==> !done@[i],
        decreases n - done.len(),
    {
        done.push(false);
    }
    let mut batches: Vec<Vec<usize>> = Vec::new();
    let mut remaining: usize = n;
    proof {
        lemma_start(decls@, done@);
        assert(batches@ =~= Seq::<Vec<usize>>::empty());
    }
    while remaining > 0
        invariant
            n == decls.len(),
            done.len() == n,
            remaining == open_count(done@),
            underway(decls@, batches@, done@),
        decreases remaining,
    {
        let batch = next_batch(decls, &done);
        if batch.len() == 0 {
            proof {
                lemma_stuck(decls@, batches@, done@, batch@);
            }
            return None;
        }
        let ghost before = done@;
        proof {
            assert forall|p: int| 0 <= p < batch.len() implies !done@[batch@[p] as int] by {
                assert(lists(batch@, batch@[p] as int));
            }
        }
        mark(&mut done, &batch);
        proof {
            lemma_extend(decls@, batches@, batch, before, done@);
        }
        remaining = remaining - batch.len();
        batches.push(batch);
    }
    proof {
        lemma_finish(decls@, batches@, done@);
    }
    Some(batches)
}

/// Makes the plan of a phase that stands alone.
///
/// A reference to a label that no system of the phase carries is reported
/// first; failing that, systems that wait for each other in a circle are
/// reported; otherwise the plan is returned.
pub fn plan(decls: &Vec<SystemDecl>) -> (res: Result<Vec<Vec<usize>>, PlanError>)
    ensures
        match res {
            Ok(batches) => labels_resolve(decls@) && !cyclic(decls@) && is_plan(decls@, batches@),
            Err(PlanError::UnknownLabel { system, label }) => first_unknown(
                decls@,
                system as int,
                label,
            ),
            Err(PlanError::Cycle) => labels_resolve(decls@) && cyclic(decls@),
        },
{
    match check_labels(decls) {
        Some((system, label)) => {
            return Err(PlanError::UnknownLabel { system, label });
        },
        None => {},
    }
    match arrange(decls) {
        Some(batches) => Ok(batches),
        None => Err(PlanError::Cycle),
    }
}

/// In a plan, two systems of the same batch neither conflict nor are they
/// declared to run one before the other: no two systems that run together
/// share what one of them writes.
pub proof fn lemma_batches_conflict_free(
    decls: Seq<SystemDecl>,
    batches: Seq<Vec<usize>>,
    k: int,
    a: int,
    b: int,
)
    requires
        is_plan(decls, batches),
        holds(batches, k, a),
        holds(batches, k, b),
        a != b,
    ensures
        !conflict(decls[a], decls[b]),
        !explicit(decls[a], decls[b]),
        !edge(decls, a, b),
{
    lemma_holds_in_range(decls, batches, k, a);
    lemma_holds_in_range(decls, batches, k, b);
    crate::system::lemma_conflict_symmetric(decls[a], decls[b]);
    if edge(decls, a, b) {
        assert(k < k);
    }
    if edge(decls, b, a) {
        assert(k < k);
    }
}

/// In a plan, an exclusive system has its batch to itself.
pub proof fn lemma_exclusive_alone(decls: Seq<SystemDecl>, batches: Seq<Vec<usize>>, k: int, a: int)
    requires
        is_plan(decls, batches),
        holds(batches, k, a),
        decls[a].exclusive,
    ensures
        batches[k]@ == seq![a as usize],
{
    let batch = batches[k]@;
    assert forall|p: int| 0 <= p < batch.len() implies batch[p] == a by {
        let b = batch[p] as int;
        assert(holds(batches, k, b));
        if b != a {
            lemma_batches_conflict_free(decls, batches, k, a, b);
        }
    }
    if batch.len() > 1 {
        assert(batch[0] < batch[1]);
    }
    assert(batch =~= seq![a as usize]);
}

/// Whether the `p`-th system of `chain` has to be done before the one that
/// follows it starts.
pub open spec fn link(decls: Seq<SystemDecl>, chain: Seq<int>, p: int) -> bool {
    edge(decls, chain[p], chain[p + 1])
}

/// Whether each system of `chain` has to be done before the next one starts.
pub open spec fn is_chain(decls: Seq<SystemDecl>, chain: Seq<int>) -> bool {
    &&& forall|p: int| 0 <= p < chain.len() ==> 0 <= #[trigger] chain[p] < decls.len()
    &&& forall|p: int| 0 <= p < chain.len() - 1 ==> #[trigger] link(decls, chain, p)
}

proof fn lemma_chain_climbs(decls: Seq<SystemDecl>, batches: Seq<Vec<usize>>, chain: Seq<int>, p: int)
    requires
        is_plan(decls, batches),
        is_chain(decls, chain),
        0 <= p < chain.len(),
    ensures
        forall|k: int| holds(batches, k, chain[p]) ==> p <= k < batches.len(),
    decreases p,
{
    if p > 0 {
        lemma_chain_climbs(decls, batches, chain, p - 1);
        let a = chain[p - 1];
        assert(link(decls, chain, p - 1));
        assert(placed_by(batches, a));
        let ka = choose|ka: int| holds(batches, ka, a);
        assert forall|k: int| holds(batches, k, chain[p]) implies p <= k < batches.len() by {
            assert(ka < k);
        }
    }
}

/// A plan has at least as many batches as the longest chain of systems that
/// wait for one another has members.
pub proof fn lemma_chain_fits(decls: Seq<SystemDecl>, batches: Seq<Vec<usize>>, chain: Seq<int>)
    requires
        is_plan(decls, batches),
        is_chain(decls, chain),
    ensures
        chain.len() <= batches.len(),
{
    if chain.len() > 0 {
        let p = chain.len() - 1;
        lemma_chain_climbs(decls, batches, chain, p);
        assert(placed_by(batches, chain[p]));
        let k = choose|k: int| holds(batches, k, chain[p]);
        assert(p <= k < batches.len());
    }
}

proof fn lemma_chain_to(decls: Seq<SystemDecl>, batches: Seq<Vec<usize>>, k: int, b: int) -> (chain: Seq<
    int,
>)
    requires
        is_plan(decls, batches),
        holds(batches, k, b),
    ensures
        is_chain(decls, chain),
        chain.len() == k + 1,
        chain.last() == b,
    decreases k,
{
    lemma_holds_in_range(decls, batches, k, b);
    if k == 0 {
        let chain = seq![b];
        assert(is_chain(decls, chain));
        chain
    } else {
        let a = choose|a: int| edge(decls, a, b) && holds(batches, k - 1, a);
        let shorter = lemma_chain_to(decls, batches, k - 1, a);
        let chain = shorter.push(b);
        assert forall|p: int| 0 <= p < chain.len() - 1 implies #[trigger] link(decls, chain, p) by {
            if p < shorter.len() - 1 {
                assert(link(decls, shorter, p));
            }
        }
        assert forall|p: int| 0 <= p < chain.len() implies 0 <= #[trigger] chain[p] < decls.len() by {
            if p < shorter.len() {
                assert(0 <= shorter[p] < decls.len());
            }
        }
        chain
    }
}

/// A plan has no more batches than it must: some chain of systems that wait
/// for one another has as many members as the plan has batches. With
/// `lemma_chain_fits`, the number of batches is the length of the longest
/// such chain.
pub proof fn lemma_chain_reaches(decls: Seq<SystemDecl>, batches: Seq<Vec<usize>>)
    requires
        is_plan(decls, batches),
    ensures
        exists|chain: Seq<int>| is_chain(decls, chain) && chain.len() == batches.len(),
{
    if batches.len() == 0 {
        let chain = Seq::<int>::empty();
        assert(is_chain(decls, chain) && chain.len() == batches.len());
    } else {
        let k = batches.len() - 1;
        let b = batches[k]@[0] as int;
        assert(holds(batches, k, b));
        let chain = lemma_chain_to(decls, batches, k, b);
        assert(is_chain(decls, chain) && chain.len() == batches.len());
    }
}

proof fn lemma_layer_bound(
    decls: Seq<SystemDecl>,
    p: Seq<Vec<usize>>,
    q: Seq<Vec<usize>>,
    b: int,
    kp: int,
    kq: int,
)
    requires
        is_plan(decls, p),
        is_plan(decls, q),
        holds(p, kp, b),
        holds(q, kq, b),
    ensures
        kq <= kp,
    decreases kp,
{
    if kq > 0 {
        let a = choose|a: int| edge(decls, a, b) && holds(q, kq - 1, a);
        assert(placed_by(p, a));
        let ka = choose|ka: int| holds(p, ka, a);
        assert(ka < kp);
        lemma_layer_bound(decls, p, q, a, ka, kq - 1);
    }
}

proof fn lemma_lists_rest(s: Seq<usize>, n: nat, x: int)
    requires
        ascending(s, n),
        s.len() > 0,
    ensures
        ascending(s.drop_first(), n),
        lists(s.drop_first(), x) <==> lists(s, x) && x != s[0],
{
    let rest = s.drop_first();
    assert forall|p: int, q: int| 0 <= p < q < rest.len() implies rest[p] < rest[q] by {
        assert(s[p + 1] < s[q + 1]);
    }
    if lists(rest, x) {
        let p = choose|p: int| 0 <= p < rest.len() && rest[p] == x;
        assert(s[p + 1] == x);
        assert(s[0] < s[p + 1]);
    }
    if lists(s, x) && x != s[0] {
        let p = choose|p: int| 0 <= p < s.len() && s[p] == x;
        assert(rest[p - 1] == x);
    }
}

proof fn lemma_ascending_equal(s: Seq<usize>, t: Seq<usize>, n: nat)
    requires
        ascending(s, n),
        ascending(t, n),
        forall|x: int| lists(s, x) <==> lists(t, x),
    ensures
        s == t,
    decreases s.len(),
{
    if s.len() == 0 {
        if t.len() > 0 {
            assert(lists(t, t[0] as int));
        }
        assert(s =~= t);
    } else {
        assert(lists(s, s[0] as int));
        let j = choose|j: int| 0 <= j < t.len() && t[j] == s[0] as int;
        assert(lists(t, t[0] as int));
        let i = choose|i: int| 0 <= i < s.len() && s[i] == t[0] as int;
        if i > 0 {
            assert(s[0] < s[i]);
        }
        if j > 0 {
            assert(t[0] < t[j]);
        }
        assert(s[0] == t[0]);
        assert forall|x: int| lists(s.drop_first(), x) <==> lists(t.drop_first(), x) by {
            lemma_lists_rest(s, n, x);
            lemma_lists_rest(t, n, x);
        }
        lemma_lists_rest(s, n, 0);
        lemma_lists_rest(t, n, 0);
        lemma_ascending_equal(s.drop_first(), t.drop_first(), n);
        assert(s =~= seq![s[0]] + s.drop_first());
        assert(t =~= seq![t[0]] + t.drop_first());
    }
}

/// A phase has one plan only: two plans of the same systems have the same
/// batches with the same systems in the same order. So the same batches run
/// in every tick.
pub proof fn lemma_plan_unique(decls: Seq<SystemDecl>, p: Seq<Vec<usize>>, q: Seq<Vec<usize>>)
    requires
        is_plan(decls, p),
        is_plan(decls, q),
    ensures
        p.len() == q.len(),
        forall|k: int| 0 <= k < p.len() ==> (#[trigger] p[k])@ == q[k]@,
{
    assert forall|b: int, kp: int, kq: int| holds(p, kp, b) && holds(q, kq, b) implies kp == kq by {
        lemma_layer_bound(decls, p, q, b, kp, kq);
        lemma_layer_bound(decls, q, p, b, kq, kp);
    }
    assert forall|k: int, b: int| holds(p, k, b) implies holds(q, k, b) by {
        lemma_holds_in_range(decls, p, k, b);
        assert(placed_by(q, b));
        let kq = choose|kq: int| holds(q, kq, b);
    }
    assert forall|k: int, b: int| holds(q, k, b) implies holds(p, k, b) by {
        lemma_holds_in_range(decls, q, k, b);
        assert(placed_by(p, b));
        let kp = choose|kp: int| holds(p, kp, b);
    }
    if p.len() > 0 {
        let k = p.len() - 1;
        assert(p[k]@.len() > 0);
        assert(holds(p, k, p[k]@[0] as int));
        assert(holds(q, k, p[k]@[0] as int));
    }
    if q.len() > 0 {
        let k = q.len() - 1;
        assert(q[k]@.len() > 0);
        assert(holds(q, k, q[k]@[0] as int));
        assert(holds(p, k, q[k]@[0] as int));
    }
    assert forall|k: int| 0 <= k < p.len() implies (#[trigger] p[k])@ == q[k]@ by {
        assert forall|x: int| lists(p[k]@, x) <==> lists(q[k]@, x) by {
            if lists(p[k]@, x) {
                assert(holds(p, k, x));
                assert(holds(q, k, x));
            }
            if lists(q[k]@, x) {
                assert(holds(q, k, x));
                assert(holds(p, k, x));
            }
        }
        assert(ascending(q[k]@, decls.len()));
        lemma_ascending_equal(p[k]@, q[k]@, decls.len());
    }
}

/// Whether `circle` is a closed round of systems: each has to be done before
/// the next one starts, and the last before the first.
pub open spec fn is_circle(decls: Seq<SystemDecl>, circle: Seq<int>) -> bool {
    &&& circle.len() > 0
    &&& is_chain(decls, circle)
    &&& edge(decls, circle.last(), circle[0])
}

/// The systems of a closed round wait for each other in a circle.
pub proof fn lemma_circle_blocks(decls: Seq<SystemDecl>, circle: Seq<int>)
    requires
        is_circle(decls, circle),
    ensures
        cyclic(decls),
{
    let group = Set::new(|b: int| circle.contains(b));
    assert(circle.contains(circle[0]));
    assert(group.contains(circle[0]));
    assert forall|b: int| #[trigger] group.contains(b) implies 0 <= b < decls.len() && exists|a: int|
        group.contains(a) && edge(decls, a, b) by {
        let p = choose|p: int| 0 <= p < circle.len() && circle[p] == b;
        assert(0 <= circle[p] < decls.len());
        if p == 0 {
            let a = circle.last();
            assert(circle.contains(a));
            assert(group.contains(a) && edge(decls, a, b));
        } else {
            let a = circle[p - 1];
            assert(link(decls, circle, p - 1));
            assert(circle.contains(a));
            assert(group.contains(a) && edge(decls, a, b));
        }
    }
    assert(blocked(decls, group));
}

spec fn back_link(decls: Seq<SystemDecl>, walk: Seq<int>, t: int) -> bool {
    edge(decls, walk[t + 1], walk[t])
}

proof fn lemma_walk_back(decls: Seq<SystemDecl>, group: Set<int>, b: int, len: nat) -> (walk: Seq<int>)
    requires
        blocked(decls, group),
        group.contains(b),
        len > 0,
    ensures
        walk.len() == len,
        walk[0] == b,
        forall|t: int| 0 <= t < len ==> group.contains(#[trigger] walk[t]),
        forall|t: int| 0 <= t < len - 1 ==> #[trigger] back_link(decls, walk, t),
    decreases len,
{
    if len == 1 {
        seq![b]
    } else {
        let shorter = lemma_walk_back(decls, group, b, (len - 1) as nat);
        let end = shorter.last();
        assert(group.contains(end));
        let a = choose|a: int| group.contains(a) && edge(decls, a, end);
        let walk = shorter.push(a);
        assert forall|t: int| 0 <= t < len - 1 implies #[trigger] back_link(decls, walk, t) by {
            if t < len - 2 {
                assert(back_link(decls, shorter, t));
            }
        }
        assert forall|t: int| 0 <= t < len implies group.contains(#[trigger] walk[t]) by {
            if t < len - 1 {
                assert(group.contains(shorter[t]));
            }
        }
        walk
    }
}

proof fn lemma_repeats(walk: Seq<int>, n: nat) -> (res: (int, int))
    requires
        walk.len() > n,
        forall|t: int| 0 <= t < walk.len() ==> 0 <= #[trigger] walk[t] < n,
    ensures
        0 <= res.0 < res.1 < walk.len(),
        walk[res.0] == walk[res.1],
{
    if walk.no_duplicates() {
        walk.unique_seq_to_set();
        lemma_int_range(0, n as int);
        assert(walk.to_set().subset_of(set_int_range(0, n as int))) by {
            assert forall|x: int| walk.to_set().contains(x) implies set_int_range(0, n as int).contains(
                x,
            ) by {
                let t = choose|t: int| 0 <= t < walk.len() && walk[t] == x;
                assert(0 <= walk[t] < n);
            }
        }
        lemma_len_subset(walk.to_set(), set_int_range(0, n as int));
        assert(false);
    }
    let (i, j) = choose|i: int, j: int|
        0 <= i < walk.len() && 0 <= j < walk.len() && i != j && walk[i] == walk[j];
    if i < j {
        (i, j)
    } else {
        (j, i)
    }
}

proof fn lemma_long_walk(decls: Seq<SystemDecl>) -> (walk: Seq<int>)
    requires
        cyclic(decls),
    ensures
        walk.len() == decls.len() + 1,
        forall|t: int| 0 <= t < walk.len() ==> 0 <= #[trigger] walk[t] < decls.len(),
        forall|t: int| 0 <= t < walk.len() - 1 ==> #[trigger] back_link(decls, walk, t),
{
    let group = choose|group: Set<int>| blocked(decls, group);
    let b = choose|b: int| group.contains(b);
    let walk = lemma_walk_back(decls, group, b, decls.len() + 1);
    assert forall|t: int| 0 <= t < walk.len() implies 0 <= #[trigger] walk[t] < decls.len() by {
        assert(group.contains(walk[t]));
    }
    walk
}

/// Where systems wait for each other in a circle, some of them form a closed
/// round.
pub proof fn lemma_blocked_has_circle(decls: Seq<SystemDecl>)
    requires
        cyclic(decls),
    ensures
        exists|circle: Seq<int>| is_circle(decls, circle),
{
    let walk = lemma_long_walk(decls);
    let (i, j) = lemma_repeats(walk, decls.len());
    let circle = Seq::new((j - i) as nat, |m: int| walk[j - 1 - m]);
    assert forall|m: int| 0 <= m < circle.len() - 1 implies #[trigger] link(decls, circle, m) by {
        assert(back_link(decls, walk, j - 2 - m));
    }
    assert(edge(decls, circle.last(), circle[0])) by {
        assert(back_link(decls, walk, j - 1));
        assert(circle.last() == walk[i]);
    }
    assert forall|m: int| 0 <= m < circle.len() implies 0 <= #[trigger] circle[m] < decls.len() by {
        assert(0 <= walk[j - 1 - m] < decls.len());
    }
    assert(is_circle(decls, circle));
}

/// Whether `pairs` lists pairs of system numbers, the smaller first, in
/// ascending order: by the first number, then by the second.
pub open spec fn pairs_ascending(pairs: Seq<(usize, usize)>) -> bool {
    forall|p: int, q: int|
        0 <= p < q < pairs.len() ==> pairs[p].0 < pairs[q].0 || (pairs[p].0 == pairs[q].0
            && pairs[p].1 < pairs[q].1)
}

/// Whether `pairs` lists the pair of systems `a` and `b`.
pub open spec fn lists_pair(pairs: Seq<(usize, usize)>, a: int, b: int) -> bool {
    exists|p: int| 0 <= p < pairs.len() && pairs[p].0 == a && pairs[p].1 == b
}

/// Whether the order of systems `a` and `b` is worth a warning: `a` is
/// declared before `b`, no order between them is declared, they write
/// nothing in common, and one reads what the other writes.
pub open spec fn warned(decls: Seq<SystemDecl>, a: int, b: int) -> bool {
    0 <= a < b < decls.len() && ambiguous(decls[a], decls[b])
}

/// Lists the pairs of systems whose order is left open although one reads
/// what the other writes. Such a pair is no error: the plan runs the system
/// declared first before the other. The list is what a warning would name.
pub fn ambiguities(decls: &Vec<SystemDecl>) -> (pairs: Vec<(usize, usize)>)
    ensures
        pairs_ascending(pairs@),
        forall|a: int, b: int| lists_pair(pairs@, a, b) <==> warned(decls@, a, b),
{
    let n = decls.len();
    let mut pairs: Vec<(usize, usize)> = Vec::new();
    let mut a: usize = 0;
    while a < n
        invariant
            n == decls.len(),
            a <= n,
            pairs_ascending(pairs@),
            forall|p: int| 0 <= p < pairs@.len() ==> pairs@[p].0 < a,
            forall|x: int, y: int| lists_pair(pairs@, x, y) <==> x < a && warned(decls@, x, y),
        decreases n - a,
    {
        let mut b: usize = a + 1;
        while b < n
            invariant
                n == decls.len(),
                a < n,
                a < b <= n,
                pairs_ascending(pairs@),
                forall|p: int|
                    0 <= p < pairs@.len() ==> pairs@[p].0 < a || (pairs@[p].0 == a && pairs@[p].1
                        < b),
                forall|x: int, y: int|
                    lists_pair(pairs@, x, y) <==> (x < a || (x == a && y < b)) && warned(
                        decls@,
                        x,
                        y,
                    ),
            decreases n - b,
        {
            let ghost before = pairs@;
            if decls[a].ambiguous_with(&decls[b]) {
                pairs.push((a, b));
                assert forall|x: int, y: int|
                    lists_pair(pairs@, x, y) <==> (x < a || (x == a && y < b + 1)) && warned(
                        decls@,
                        x,
                        y,
                    ) by {
                    if lists_pair(pairs@, x, y) {
                        let p = choose|p: int|
                            0 <= p < pairs@.len() && pairs@[p].0 == x && pairs@[p].1 == y;
                        if p < before.len() {
                            assert(before[p].0 == x && before[p].1 == y);
                            assert(lists_pair(before, x, y));
                        }
                    }
                    if (x < a || (x == a && y < b + 1)) && warned(decls@, x, y) {
                        if x == a && y == b {
                            let p = pairs@.len() - 1;
                            assert(pairs@[p].0 == x && pairs@[p].1 == y);
                        } else {
                            assert(lists_pair(before, x, y));
                            let p = choose|p: int|
                                0 <= p < before.len() && before[p].0 == x && before[p].1 == y;
                            assert(pairs@[p].0 == x && pairs@[p].1 == y);
                        }
                    }
                }
            } else {
                assert(!lists_pair(before, a as int, b as int));
            }
            b += 1;
        }
        assert forall|x: int, y: int| lists_pair(pairs@, x, y) <==> x < a + 1 && warned(decls@, x, y) by {
            if x == a && warned(decls@, x, y) {
                assert(y < n);
            }
        }
        a += 1;
    }
    pairs
}

} // verus!
