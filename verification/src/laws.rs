//! What holds of every push and every pull.
//!
//! The statements speak of the plans that the diffs compute and of what the
//! execution of an approved plan does to the receiving side, where a side is a
//! mapping from path to the fingerprint of the content found there.

use vstd::prelude::*;
use crate::clock::Timestamp;
use crate::diff::{change_at, Sides};
use crate::executor::{Outcome, RunView, StepView};
use crate::manifest::hashes;
use crate::plan::{lemma_merge_holds, lemma_stage_holds, ApprovedView};
use crate::pull::{pull_adopts, pull_conflicts, pull_copies, pull_plan, pull_stages};
use crate::push::{push_conflicts, push_copies, push_deletes, push_plan, push_stages};
use crate::seqs::{lemma_filter_contains, lemma_filter_none};

verus! {

/// The receiving side after the files at `paths` were copied over from
/// `source`: each of them now holds what the source holds.
pub open spec fn after_copies(
    target: Map<Seq<char>, Seq<char>>,
    source: Map<Seq<char>, Seq<char>>,
    paths: Seq<Seq<char>>,
) -> Map<Seq<char>, Seq<char>> {
    Map::new(
        |p: Seq<char>| target.contains_key(p) || (paths.contains(p) && source.contains_key(p)),
        |p: Seq<char>|
            if paths.contains(p) && source.contains_key(p) {
                source[p]
            } else {
                target[p]
            },
    )
}

/// The receiving side after the files at `paths` were deleted.
pub open spec fn after_deletes(target: Map<Seq<char>, Seq<char>>, paths: Seq<Seq<char>>) -> Map<
    Seq<char>,
    Seq<char>,
> {
    Map::new(|p: Seq<char>| target.contains_key(p) && !paths.contains(p), |p: Seq<char>| target[p])
}

/// The receiving side after an approved plan was executed in full: the
/// copies first, then the deletions.
pub open spec fn executed(
    plan: ApprovedView,
    source: Map<Seq<char>, Seq<char>>,
    target: Map<Seq<char>, Seq<char>>,
) -> Map<Seq<char>, Seq<char>> {
    after_deletes(after_copies(target, source, plan.to_copy), plan.to_delete)
}

/// The sides as a push leaves them: the manifest it wrote, the local side
/// untouched, and the remote side after execution.
pub open spec fn after_push(
    sync: Seq<Seq<char>>,
    known: Seq<Seq<char>>,
    s: Sides,
    now: Timestamp,
) -> Sides {
    let plan = push_plan(sync, known, s, now).approved();
    Sides { base: hashes(plan.manifest.map), local: s.local, remote: executed(plan, s.local, s.remote) }
}

/// Once a push has gone through, with its conflicts given to the local side,
/// every path of the sync set that exists locally has the local content on the
/// remote side and the local fingerprint in the manifest, and the manifest holds
/// nothing else.
pub proof fn lemma_push_mirrors(
    sync: Seq<Seq<char>>,
    known: Seq<Seq<char>>,
    s: Sides,
    now: Timestamp,
)
    ensures
        push_plan(sync, known, s, now).approved().manifest.wf(),
        forall|p: Seq<char>| #[trigger]
            after_push(sync, known, s, now).base.contains_key(p) <==> (sync.contains(p)
                && s.local.contains_key(p)),
        forall|p: Seq<char>|
            sync.contains(p) && s.local.contains_key(p) ==> {
                &&& #[trigger] after_push(sync, known, s, now).remote.contains_key(p)
                &&& after_push(sync, known, s, now).remote[p] == s.local[p]
                &&& after_push(sync, known, s, now).base[p] == s.local[p]
            },
{
    let plan = push_plan(sync, known, s, now);
    let done = plan.approved();
    let after = after_push(sync, known, s, now);
    lemma_stage_holds(sync.filter(push_stages(s)), s.local, now);
    lemma_stage_holds(sync.filter(push_conflicts(s)), s.local, now);
    lemma_merge_holds(plan.manifest, plan.pending);
    assert forall|p: Seq<char>| #[trigger]
        after.base.contains_key(p) <==> (sync.contains(p) && s.local.contains_key(p)) by {
        lemma_filter_contains(sync, push_stages(s), p);
        lemma_filter_contains(sync, push_conflicts(s), p);
    }
    assert forall|p: Seq<char>| sync.contains(p) && s.local.contains_key(p) implies {
        &&& #[trigger] after.remote.contains_key(p)
        &&& after.remote[p] == s.local[p]
        &&& after.base[p] == s.local[p]
    } by {
        lemma_filter_contains(sync, push_stages(s), p);
        lemma_filter_contains(sync, push_conflicts(s), p);
        lemma_filter_contains(sync, push_copies(s), p);
        lemma_filter_contains(known, push_deletes(sync, s.remote), p);
        if plan.conflicts.contains(p) {
            let i = plan.conflicts.index_of(p);
            assert(done.to_copy[plan.to_copy.len() + i] == p);
        }
        if plan.to_copy.contains(p) {
            let i = plan.to_copy.index_of(p);
            assert(done.to_copy[i] == p);
        }
    }
}

/// Idempotence. A push that follows a completed push, with nothing changed in
/// between, copies nothing, deletes nothing, finds no conflict, and stages a
/// manifest that records the same fingerprints as the one before.
pub proof fn law_push_idempotent(
    sync: Seq<Seq<char>>,
    known: Seq<Seq<char>>,
    s: Sides,
    now: Timestamp,
    later: Timestamp,
)
    ensures
        ({
            let first = push_plan(sync, known, s, now).approved();
            let second = push_plan(
                sync,
                first.manifest.order,
                after_push(sync, known, s, now),
                later,
            );
            &&& second.to_copy.len() == 0
            &&& second.to_delete.len() == 0
            &&& second.conflicts.len() == 0
            &&& hashes(second.approved().manifest.map) == hashes(first.manifest.map)
        }),
{
    let first = push_plan(sync, known, s, now).approved();
    let after = after_push(sync, known, s, now);
    let second = push_plan(sync, first.manifest.order, after, later);
    lemma_push_mirrors(sync, known, s, now);
    assert forall|i: int| 0 <= i < sync.len() implies !push_copies(after)(#[trigger] sync[i])
        && !push_conflicts(after)(sync[i]) by {
        assert(sync.contains(sync[i]));
    }
    lemma_filter_none(sync, push_copies(after));
    lemma_filter_none(sync, push_conflicts(after));
    assert forall|i: int| 0 <= i < first.manifest.order.len() implies !push_deletes(
        sync,
        after.remote,
    )(#[trigger] first.manifest.order[i]) by {
        let p = first.manifest.order[i];
        assert(first.manifest.order.contains(p));
        assert(after.base.contains_key(p));
    }
    lemma_filter_none(first.manifest.order, push_deletes(sync, after.remote));
    lemma_stage_holds(sync.filter(push_stages(after)), after.local, later);
    lemma_stage_holds(sync.filter(push_conflicts(after)), after.local, later);
    lemma_merge_holds(second.manifest, second.pending);
    let again = hashes(second.approved().manifest.map);
    assert forall|p: Seq<char>| again.contains_key(p) <==> after.base.contains_key(p) by {
        lemma_filter_contains(sync, push_stages(after), p);
    }
    assert forall|p: Seq<char>| again.contains_key(p) implies again[p] == after.base[p] by {
        lemma_filter_contains(sync, push_stages(after), p);
    }
    assert(again =~= after.base);
}

/// Round trip. After a completed push, a pull into an empty working copy
/// restores, for every path of the sync set that existed locally, the content
/// that the push sent. `found` is the order in which the pull scans the remote
/// files.
pub proof fn law_round_trip(
    sync: Seq<Seq<char>>,
    known: Seq<Seq<char>>,
    s: Sides,
    found: Seq<Seq<char>>,
    now: Timestamp,
    later: Timestamp,
)
    requires
        forall|p: Seq<char>|
            found.contains(p) <==> #[trigger] after_push(sync, known, s, now).remote.contains_key(
                p,
            ),
    ensures
        ({
            let pushed = push_plan(sync, known, s, now).approved();
            let mirror = after_push(sync, known, s, now);
            let fresh = Sides {
                base: mirror.base,
                local: Map::<Seq<char>, Seq<char>>::empty(),
                remote: mirror.remote,
            };
            let pull = pull_plan(pushed.manifest.order, found, fresh, later);
            let restored = executed(pull.approved(), fresh.remote, fresh.local);
            &&& pull.conflicts.len() == 0
            &&& forall|p: Seq<char>|
                sync.contains(p) && s.local.contains_key(p) ==> #[trigger] restored.contains_key(p)
                    && restored[p] == s.local[p]
        }),
{
    let pushed = push_plan(sync, known, s, now).approved();
    let mirror = after_push(sync, known, s, now);
    let fresh = Sides {
        base: mirror.base,
        local: Map::<Seq<char>, Seq<char>>::empty(),
        remote: mirror.remote,
    };
    let order = pushed.manifest.order;
    let pull = pull_plan(order, found, fresh, later);
    let restored = executed(pull.approved(), fresh.remote, fresh.local);
    lemma_push_mirrors(sync, known, s, now);
    assert forall|i: int| 0 <= i < order.len() implies !pull_conflicts(fresh)(
        #[trigger] order[i],
    ) by {}
    lemma_filter_none(order, pull_conflicts(fresh));
    assert forall|i: int| 0 <= i < order.len() implies !crate::pull::pull_deletes(fresh)(
        #[trigger] order[i],
    ) by {}
    lemma_filter_none(order, crate::pull::pull_deletes(fresh));
    assert forall|p: Seq<char>| sync.contains(p) && s.local.contains_key(p) implies #[trigger]
        restored.contains_key(p) && restored[p] == s.local[p] by {
        assert(mirror.base.contains_key(p));
        assert(order.contains(p));
        lemma_filter_contains(order, pull_copies(fresh), p);
        let listed = order.filter(pull_copies(fresh));
        let i = listed.index_of(p);
        assert(pull.to_copy[i] == p);
        assert(pull.approved().to_copy[i] == p);
    }
}

/// Conflict detection is sound for a push. A path of the sync set whose local
/// and remote content both differ from what the manifest recorded, and from
/// each other, is reported as a conflict, and the plan neither copies it nor
/// stages an entry for it: it waits for the answer to the one question.
pub proof fn law_push_conflict_sound(
    sync: Seq<Seq<char>>,
    known: Seq<Seq<char>>,
    s: Sides,
    now: Timestamp,
    path: Seq<char>,
)
    requires
        sync.contains(path),
        s.base.contains_key(path),
        s.local.contains_key(path),
        s.remote.contains_key(path),
        s.local[path] != s.base[path],
        s.remote[path] != s.base[path],
        s.local[path] != s.remote[path],
    ensures
        push_plan(sync, known, s, now).conflicts.contains(path),
        push_plan(sync, known, s, now).conflicts.len() > 0,
        !push_plan(sync, known, s, now).to_copy.contains(path),
        !push_plan(sync, known, s, now).to_delete.contains(path),
        !push_plan(sync, known, s, now).manifest.map.contains_key(path),
{
    assert(change_at(s, path) is Conflict);
    lemma_filter_contains(sync, push_conflicts(s), path);
    lemma_filter_contains(sync, push_copies(s), path);
    lemma_filter_contains(sync, push_stages(s), path);
    lemma_filter_contains(known, push_deletes(sync, s.remote), path);
    lemma_stage_holds(sync.filter(push_stages(s)), s.local, now);
}

/// Conflict detection is sound for a pull. A path of the manifest whose local
/// and remote content both differ from what the manifest recorded, and from
/// each other, is reported as a conflict, and the plan neither copies it nor
/// deletes it nor stages an entry for it.
pub proof fn law_pull_conflict_sound(
    known: Seq<Seq<char>>,
    found: Seq<Seq<char>>,
    s: Sides,
    now: Timestamp,
    path: Seq<char>,
)
    requires
        known.contains(path),
        s.base.contains_key(path),
        s.local.contains_key(path),
        s.remote.contains_key(path),
        s.local[path] != s.base[path],
        s.remote[path] != s.base[path],
        s.local[path] != s.remote[path],
    ensures
        pull_plan(known, found, s, now).conflicts.contains(path),
        pull_plan(known, found, s, now).conflicts.len() > 0,
        !pull_plan(known, found, s, now).to_copy.contains(path),
        !pull_plan(known, found, s, now).to_delete.contains(path),
        !pull_plan(known, found, s, now).manifest.map.contains_key(path),
{
    assert(change_at(s, path) is Conflict);
    let plan = pull_plan(known, found, s, now);
    lemma_filter_contains(known, pull_conflicts(s), path);
    lemma_filter_contains(known, pull_copies(s), path);
    lemma_filter_contains(known, pull_stages(s), path);
    lemma_filter_contains(known, crate::pull::pull_deletes(s), path);
    lemma_filter_contains(found, pull_adopts(s), path);
    lemma_concat_contains(known.filter(pull_copies(s)), found.filter(pull_adopts(s)), path);
    lemma_concat_contains(known.filter(pull_stages(s)), found.filter(pull_adopts(s)), path);
    lemma_stage_holds(
        known.filter(pull_stages(s)) + found.filter(pull_adopts(s)),
        s.remote,
        now,
    );
}

/// An element occurs in a concatenation exactly if it occurs in a part.
pub proof fn lemma_concat_contains(a: Seq<Seq<char>>, b: Seq<Seq<char>>, x: Seq<char>)
    ensures
        (a + b).contains(x) <==> a.contains(x) || b.contains(x),
{
    if a.contains(x) {
        let i = a.index_of(x);
        assert((a + b)[i] == x);
    }
    if b.contains(x) {
        let i = b.index_of(x);
        assert((a + b)[a.len() + i] == x);
    }
    if (a + b).contains(x) {
        let i = (a + b).index_of(x);
        if i < a.len() {
            assert(a[i] == x);
        } else {
            assert(b[i - a.len()] == x);
        }
    }
}

/// Convergence. Where the local and the remote copy of a path hold the same
/// content, neither a push nor a pull reports a conflict for it or copies it,
/// whatever the manifest recorded.
pub proof fn law_converged_paths_rest(
    sync: Seq<Seq<char>>,
    known: Seq<Seq<char>>,
    found: Seq<Seq<char>>,
    s: Sides,
    now: Timestamp,
    path: Seq<char>,
)
    requires
        s.local.contains_key(path),
        s.remote.contains_key(path),
        s.local[path] == s.remote[path],
    ensures
        !push_plan(sync, known, s, now).conflicts.contains(path),
        !push_plan(sync, known, s, now).to_copy.contains(path),
        !push_plan(sync, known, s, now).approved().to_copy.contains(path),
        !pull_plan(known, found, s, now).conflicts.contains(path),
        !pull_plan(known, found, s, now).to_copy.contains(path),
        !pull_plan(known, found, s, now).approved().to_copy.contains(path),
{
    assert(change_at(s, path) is InSync);
    lemma_filter_contains(sync, push_conflicts(s), path);
    lemma_filter_contains(sync, push_copies(s), path);
    lemma_filter_contains(known, pull_conflicts(s), path);
    lemma_filter_contains(known, pull_copies(s), path);
    lemma_filter_contains(found, pull_adopts(s), path);
    let push = push_plan(sync, known, s, now);
    let pull = pull_plan(known, found, s, now);
    lemma_concat_contains(known.filter(pull_copies(s)), found.filter(pull_adopts(s)), path);
    lemma_concat_contains(push.to_copy, push.conflicts, path);
    lemma_concat_contains(pull.to_copy, pull.conflicts, path);
}

/// Deletion propagates. A path that the manifest knows, that is no longer in
/// the sync set and that still exists remotely is deleted by the next push:
/// the plan lists it for deletion, the new manifest has no entry for it, and
/// after execution the remote side does not hold it.
pub proof fn law_push_deletion_propagates(
    sync: Seq<Seq<char>>,
    known: Seq<Seq<char>>,
    s: Sides,
    now: Timestamp,
    path: Seq<char>,
)
    requires
        known.contains(path),
        !sync.contains(path),
        s.remote.contains_key(path),
    ensures
        push_plan(sync, known, s, now).to_delete.contains(path),
        !push_plan(sync, known, s, now).approved().manifest.map.contains_key(path),
        !after_push(sync, known, s, now).remote.contains_key(path),
{
    lemma_filter_contains(known, push_deletes(sync, s.remote), path);
    lemma_push_mirrors(sync, known, s, now);
    assert(!after_push(sync, known, s, now).base.contains_key(path));
}

/// What carrying out one step does to the receiving side: a copy puts the
/// source's content at the path, a deletion removes the path, and sweeping
/// directories or writing the manifest leaves the files as they are.
pub open spec fn effect(
    step: StepView,
    source: Map<Seq<char>, Seq<char>>,
    target: Map<Seq<char>, Seq<char>>,
) -> Map<Seq<char>, Seq<char>> {
    match step {
        StepView::Copy(path) => if source.contains_key(path) {
            target.insert(path, source[path])
        } else {
            target
        },
        StepView::Delete(path) => target.remove(path),
        _ => target,
    }
}

/// How much of the plan a run still has before it.
pub open spec fn work_left(run: RunView) -> int {
    (run.plan.to_copy.len() - run.copied) + (run.plan.to_delete.len() - run.deleted)
}

/// How many directories a run may still sweep before it goes on.
pub open spec fn sweeps_left(run: RunView) -> int {
    if run.phase is Sweeping {
        run.dirs.len() - run.swept
    } else {
        0
    }
}

/// Whether the manifest is still to be written.
pub open spec fn saves_left(run: RunView) -> int {
    if run.phase is Finished || run.phase is Halted {
        0
    } else {
        1
    }
}

/// The receiving side at the end of a run that goes on from the state `run` and
/// in which every step is carried out.
pub open spec fn carried_out(
    run: RunView,
    source: Map<Seq<char>, Seq<char>>,
    target: Map<Seq<char>, Seq<char>>,
) -> Map<Seq<char>, Seq<char>>
    decreases work_left(run), sweeps_left(run), saves_left(run),
    when run.wf()
{
    if run.phase is Finished || run.phase is Halted {
        target
    } else {
        carried_out(run.after(Outcome::Done), source, effect(run.step(), source, target))
    }
}

/// Sweeping changes no file: from a state in which directories are swept the
/// run ends as it does from the state that follows the sweeping.
proof fn lemma_sweeping_is_idle(
    run: RunView,
    source: Map<Seq<char>, Seq<char>>,
    target: Map<Seq<char>, Seq<char>>,
)
    requires
        run.wf(),
        run.phase is Sweeping,
    ensures
        carried_out(run, source, target) == carried_out(
            RunView::between(run.plan, run.copied, run.deleted),
            source,
            target,
        ),
    decreases run.dirs.len() - run.swept,
{
    let next = run.after(Outcome::Done);
    run.lemma_after_wf(Outcome::Done);
    if next.phase is Sweeping {
        lemma_sweeping_is_idle(next, source, target);
    }
}

/// Once the copies are done, a run ends with the remaining deletions applied.
proof fn lemma_deletions_carried_out(
    plan: ApprovedView,
    done: nat,
    source: Map<Seq<char>, Seq<char>>,
    target: Map<Seq<char>, Seq<char>>,
)
    requires
        done <= plan.to_delete.len(),
    ensures
        carried_out(RunView::between(plan, plan.to_copy.len(), done), source, target)
            == after_deletes(target, plan.to_delete.skip(done as int)),
    decreases plan.to_delete.len() - done,
{
    let run = RunView::between(plan, plan.to_copy.len(), done);
    let rest = plan.to_delete.skip(done as int);
    let next = run.after(Outcome::Done);
    run.lemma_after_wf(Outcome::Done);
    if done == plan.to_delete.len() {
        assert(run.phase is Saving);
        assert(next.phase is Finished);
        assert(carried_out(next, source, target) == target);
        assert(after_deletes(target, rest) =~= target);
    } else {
        let path = plan.to_delete[done as int];
        let smaller = target.remove(path);
        if next.phase is Sweeping {
            lemma_sweeping_is_idle(next, source, smaller);
        }
        lemma_deletions_carried_out(plan, done + 1, source, smaller);
        let later = plan.to_delete.skip((done + 1) as int);
        assert forall|p: Seq<char>| rest.contains(p) <==> (p == path || later.contains(p)) by {
            if rest.contains(p) {
                let i = rest.index_of(p);
                if i > 0 {
                    assert(later[i - 1] == p);
                }
            }
            if later.contains(p) {
                let i = later.index_of(p);
                assert(rest[i + 1] == p);
            }
            if p == path {
                assert(rest[0] == p);
            }
        }
        assert(after_deletes(smaller, later) =~= after_deletes(target, rest));
    }
}

/// From any point among the copies, a run ends with the remaining copies and
/// then all deletions applied.
proof fn lemma_copies_carried_out(
    plan: ApprovedView,
    done: nat,
    source: Map<Seq<char>, Seq<char>>,
    target: Map<Seq<char>, Seq<char>>,
)
    requires
        done <= plan.to_copy.len(),
    ensures
        carried_out(RunView::between(plan, done, 0), source, target) == after_deletes(
            after_copies(target, source, plan.to_copy.skip(done as int)),
            plan.to_delete,
        ),
    decreases plan.to_copy.len() - done,
{
    let run = RunView::between(plan, done, 0);
    let rest = plan.to_copy.skip(done as int);
    if done == plan.to_copy.len() {
        lemma_deletions_carried_out(plan, 0, source, target);
        assert(plan.to_delete.skip(0) =~= plan.to_delete);
        assert forall|p: Seq<char>| !rest.contains(p) by {}
        assert(after_copies(target, source, rest) =~= target);
    } else {
        let path = plan.to_copy[done as int];
        let larger = effect(StepView::Copy(path), source, target);
        run.lemma_after_wf(Outcome::Done);
        lemma_copies_carried_out(plan, done + 1, source, larger);
        let later = plan.to_copy.skip((done + 1) as int);
        assert forall|p: Seq<char>| rest.contains(p) <==> (p == path || later.contains(p)) by {
            if rest.contains(p) {
                let i = rest.index_of(p);
                if i > 0 {
                    assert(later[i - 1] == p);
                }
            }
            if later.contains(p) {
                let i = later.index_of(p);
                assert(rest[i + 1] == p);
            }
            if p == path {
                assert(rest[0] == p);
            }
        }
        assert(after_copies(larger, source, later) =~= after_copies(target, source, rest));
    }
}

/// A run in which every step is carried out leaves the receiving side as
/// `executed` says: the steps that the executor names, taken one by one, add
/// up to the copies of the plan followed by its deletions.
pub proof fn law_run_executes_plan(
    plan: ApprovedView,
    source: Map<Seq<char>, Seq<char>>,
    target: Map<Seq<char>, Seq<char>>,
)
    ensures
        carried_out(RunView::begin(plan), source, target) == executed(plan, source, target),
{
    lemma_copies_carried_out(plan, 0, source, target);
    assert(plan.to_copy.skip(0) =~= plan.to_copy);
}

} // verus!
