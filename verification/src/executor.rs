//! The execution of an approved plan, one step at a time.
//!
//! The executor decides; the caller acts. `Run::step` names the next thing to
//! do on disk, and `Run::record` takes what came of it. The order is fixed:
//! the copies in the order of the plan, then the deletions, then the manifest.
//! After a deletion on the remote side, the directories above the deleted file
//! are swept from the innermost outwards for as long as they are empty. A step
//! that fails ends the run at once: what was done stays done, and the manifest
//! is not written, so that the next run finds the same work again.

use vstd::prelude::*;
use crate::manifest::Manifest;
use crate::plan::{ApprovedPlan, ApprovedView, Direction};
use crate::text::{from_chars, lemma_strs_push, strs, sub_chars, to_chars};

verus! {

/// What the caller is to do next.
pub enum Step {
    /// Copy the file at this path from the source side to the receiving side,
    /// creating the directories above it where they are missing and replacing
    /// what is there.
    Copy(String),
    /// Delete the file at this path on the receiving side.
    Delete(String),
    /// Remove the directory at this path on the remote side if it is empty.
    Sweep(String),
    /// Write the manifest.
    Save,
    /// Nothing: the run is complete.
    Finish,
    /// Nothing: a step failed and the run was called off.
    Halt,
}

/// What a step holds.
pub enum StepView {
    Copy(Seq<char>),
    Delete(Seq<char>),
    Sweep(Seq<char>),
    Save,
    Finish,
    Halt,
}

impl View for Step {
    type V = StepView;

    open spec fn view(&self) -> StepView {
        match self {
            Step::Copy(path) => StepView::Copy(path@),
            Step::Delete(path) => StepView::Delete(path@),
            Step::Sweep(path) => StepView::Sweep(path@),
            Step::Save => StepView::Save,
            Step::Finish => StepView::Finish,
            Step::Halt => StepView::Halt,
        }
    }
}

/// What came of a step.
#[derive(Clone, Copy, Debug, PartialEq, Eq, Structural)]
pub enum Outcome {
    /// The step was carried out.
    Done,
    /// The directory to sweep was not empty and was left in place.
    Kept,
    /// The step failed.
    Failed,
}

/// Where a run stands.
#[derive(Clone, Copy, Debug, PartialEq, Eq, Structural)]
pub enum Phase {
    Copying,
    Deleting,
    Sweeping,
    Saving,
    Finished,
    Halted,
}

/// The directories above the cut positions below `n` of `path`, innermost
/// first: the part of the path before each `/` that is not its first character.
pub open spec fn dirs_above(path: Seq<char>, n: nat) -> Seq<Seq<char>>
    decreases n,
{
    if n == 0 {
        Seq::empty()
    } else {
        let i = (n - 1) as nat;
        let outer = dirs_above(path, i);
        if 0 < i < path.len() && path[i as int] == '/' {
            seq![path.take(i as int)] + outer
        } else {
            outer
        }
    }
}

/// The directories that hold the file at `path`, innermost first, up to but
/// not including the root.
pub open spec fn ancestors(path: Seq<char>) -> Seq<Seq<char>> {
    dirs_above(path, path.len())
}

/// The state of a run.
pub struct RunView {
    pub plan: ApprovedView,
    pub phase: Phase,
    /// How many copies were carried out.
    pub copied: nat,
    /// How many deletions were carried out.
    pub deleted: nat,
    /// The directories above the file deleted last.
    pub dirs: Seq<Seq<char>>,
    /// How many of them were removed.
    pub swept: nat,
}

impl RunView {
    /// The phase that follows once the work at hand is finished: the next
    /// copy, else the next deletion, else the manifest.
    pub open spec fn onward(self) -> Phase {
        if self.copied < self.plan.to_copy.len() {
            Phase::Copying
        } else if self.deleted < self.plan.to_delete.len() {
            Phase::Deleting
        } else {
            Phase::Saving
        }
    }

    /// What every state of a run satisfies. In particular the manifest is
    /// written, and the run is finished, only after every copy and every
    /// deletion was carried out.
    pub open spec fn wf(self) -> bool {
        &&& self.copied <= self.plan.to_copy.len()
        &&& self.deleted <= self.plan.to_delete.len()
        &&& self.phase is Copying ==> self.copied < self.plan.to_copy.len() && self.deleted == 0
        &&& self.phase is Deleting ==> self.copied == self.plan.to_copy.len() && self.deleted
            < self.plan.to_delete.len()
        &&& self.phase is Sweeping ==> {
            &&& self.copied == self.plan.to_copy.len()
            &&& self.deleted > 0
            &&& self.plan.direction is Push
            &&& self.dirs == ancestors(self.plan.to_delete[self.deleted - 1])
            &&& self.swept < self.dirs.len()
        }
        &&& self.phase is Saving || self.phase is Finished ==> self.copied
            == self.plan.to_copy.len() && self.deleted == self.plan.to_delete.len()
        &&& !(self.phase is Sweeping || self.phase is Halted) ==> self.dirs.len() == 0
            && self.swept == 0
    }

    /// The state between two pieces of work, after `copied` copies and
    /// `deleted` deletions.
    pub open spec fn between(plan: ApprovedView, copied: nat, deleted: nat) -> RunView {
        let idle = RunView {
            plan,
            phase: Phase::Copying,
            copied,
            deleted,
            dirs: Seq::empty(),
            swept: 0,
        };
        RunView { phase: idle.onward(), ..idle }
    }

    /// The state in which the run of `plan` begins.
    pub open spec fn begin(plan: ApprovedView) -> RunView {
        Self::between(plan, 0, 0)
    }

    /// The step to take in this state.
    pub open spec fn step(self) -> StepView {
        match self.phase {
            Phase::Copying => StepView::Copy(self.plan.to_copy[self.copied as int]),
            Phase::Deleting => StepView::Delete(self.plan.to_delete[self.deleted as int]),
            Phase::Sweeping => StepView::Sweep(self.dirs[self.swept as int]),
            Phase::Saving => StepView::Save,
            Phase::Finished => StepView::Finish,
            Phase::Halted => StepView::Halt,
        }
    }

    /// The state that follows when the step of this state ended in `outcome`.
    pub open spec fn after(self, outcome: Outcome) -> RunView {
        match self.phase {
            Phase::Finished | Phase::Halted => self,
            _ => if outcome is Failed {
                RunView { phase: Phase::Halted, ..self }
            } else {
                match self.phase {
                    Phase::Copying => Self::between(self.plan, self.copied + 1, self.deleted),
                    Phase::Deleting => {
                        let dirs = ancestors(self.plan.to_delete[self.deleted as int]);
                        if self.plan.direction is Push && dirs.len() > 0 {
                            RunView {
                                phase: Phase::Sweeping,
                                deleted: self.deleted + 1,
                                dirs,
                                swept: 0,
                                ..self
                            }
                        } else {
                            Self::between(self.plan, self.copied, self.deleted + 1)
                        }
                    },
                    Phase::Sweeping => {
                        if outcome is Done && self.swept + 1 < self.dirs.len() {
                            RunView { swept: self.swept + 1, ..self }
                        } else {
                            Self::between(self.plan, self.copied, self.deleted)
                        }
                    },
                    _ => RunView { phase: Phase::Finished, ..self },
                }
            },
        }
    }

    /// A run begins in a well-formed state.
    pub proof fn lemma_begin_wf(plan: ApprovedView)
        ensures
            Self::begin(plan).wf(),
    {
    }

    /// Every step keeps the state well formed.
    pub proof fn lemma_after_wf(self, outcome: Outcome)
        requires
            self.wf(),
        ensures
            self.after(outcome).wf(),
    {
    }

    /// A run that was called off stays called off: it never writes the
    /// manifest.
    pub proof fn law_halt_is_final(self, outcome: Outcome)
        requires
            self.phase is Halted,
        ensures
            self.after(outcome).phase is Halted,
            self.after(outcome).step() is Halt,
    {
    }

    /// A failure calls the run off, whatever was at hand.
    pub proof fn law_failure_halts(self)
        requires
            !(self.phase is Finished),
        ensures
            self.after(Outcome::Failed).phase is Halted,
    {
    }

    /// The manifest is written only after every copy and every deletion of the
    /// plan was carried out, and only then is the run complete.
    pub proof fn law_save_comes_last(self)
        requires
            self.wf(),
            self.step() is Save || self.step() is Finish,
        ensures
            self.copied == self.plan.to_copy.len(),
            self.deleted == self.plan.to_delete.len(),
    {
    }
}

/// The directories that hold the file at `path`, innermost first.
pub fn cleanup_candidates(path: &String) -> (dirs: Vec<String>)
    ensures
        strs(dirs@) == ancestors(path@),
{
    let chars = to_chars(path.as_str());
    let mut dirs: Vec<String> = Vec::new();
    let mut n: usize = chars.len();
    proof {
        assert(strs(dirs@) + dirs_above(path@, n as nat) =~= ancestors(path@));
    }
    while n > 0
        invariant
            n <= chars.len(),
            chars@ == path@,
            strs(dirs@) + dirs_above(path@, n as nat) == ancestors(path@),
        decreases n,
    {
        let i: usize = n - 1;
        if i > 0 && chars[i] == '/' {
            let dir = from_chars(&sub_chars(&chars, 0, i));
            proof {
                lemma_strs_push(dirs@, dir);
                assert(chars@.subrange(0, i as int) =~= path@.take(i as int));
                assert(strs(dirs@).push(dir@) + dirs_above(path@, i as nat) =~= strs(dirs@) + (
                seq![path@.take(i as int)] + dirs_above(path@, i as nat)));
            }
            dirs.push(dir);
        }
        n = i;
    }
    proof {
        assert(strs(dirs@) + Seq::<Seq<char>>::empty() =~= strs(dirs@));
    }
    dirs
}

/// A run of an approved plan.
pub struct Run {
    plan: ApprovedPlan,
    phase: Phase,
    copied: usize,
    deleted: usize,
    dirs: Vec<String>,
    swept: usize,
}

impl View for Run {
    type V = RunView;

    closed spec fn view(&self) -> RunView {
        RunView {
            plan: self.plan@,
            phase: self.phase,
            copied: self.copied as nat,
            deleted: self.deleted as nat,
            dirs: strs(self.dirs@),
            swept: self.swept as nat,
        }
    }
}

impl Run {
    #[verifier::type_invariant]
    pub closed spec fn inv(&self) -> bool {
        self@.wf()
    }

    /// The phase that follows once the work at hand is finished, where
    /// `copied` of `copies` and `deleted` of `deletions` were carried out.
    fn onward(copies: usize, deletions: usize, copied: usize, deleted: usize) -> (phase: Phase)
        ensures
            phase == if copied < copies {
                Phase::Copying
            } else if deleted < deletions {
                Phase::Deleting
            } else {
                Phase::Saving
            },
    {
        if copied < copies {
            Phase::Copying
        } else if deleted < deletions {
            Phase::Deleting
        } else {
            Phase::Saving
        }
    }

    /// The run between two pieces of work.
    fn idle(plan: ApprovedPlan, copied: usize, deleted: usize) -> (run: Run)
        requires
            copied <= plan@.to_copy.len(),
            deleted <= plan@.to_delete.len(),
            copied < plan@.to_copy.len() ==> deleted == 0,
        ensures
            run@ == RunView::between(plan@, copied as nat, deleted as nat),
            run@.wf(),
    {
        let phase = Self::onward(plan.to_copy().len(), plan.to_delete().len(), copied, deleted);
        let dirs: Vec<String> = Vec::new();
        proof {
            assert(strs(dirs@) =~= Seq::<Seq<char>>::empty());
        }
        Run { plan, phase, copied, deleted, dirs, swept: 0 }
    }

    /// Begins the run of `plan`.
    pub fn start(plan: ApprovedPlan) -> (run: Run)
        ensures
            run@ == RunView::begin(plan@),
            run@.wf(),
    {
        Self::idle(plan, 0, 0)
    }

    /// The step to take now.
    pub fn step(&self) -> (step: Step)
        ensures
            step@ == self@.step(),
            self@.wf(),
    {
        proof {
            use_type_invariant(self);
        }
        match self.phase {
            Phase::Copying => Step::Copy(self.plan.to_copy()[self.copied].clone()),
            Phase::Deleting => Step::Delete(self.plan.to_delete()[self.deleted].clone()),
            Phase::Sweeping => Step::Sweep(self.dirs[self.swept].clone()),
            Phase::Saving => Step::Save,
            Phase::Finished => Step::Finish,
            Phase::Halted => Step::Halt,
        }
    }

    /// Takes what came of the step and moves on.
    pub fn record(self, outcome: Outcome) -> (next: Run)
        ensures
            next@ == self@.after(outcome),
            next@.wf(),
    {
        proof {
            use_type_invariant(&self);
            self@.lemma_after_wf(outcome);
        }
        let Run { plan, phase, copied, deleted, dirs, swept } = self;
        let copies = plan.to_copy().len();
        let deletions = plan.to_delete().len();
        assert(copied <= copies && deleted <= deletions);
        match phase {
            Phase::Finished => Run { plan, phase, copied, deleted, dirs, swept },
            Phase::Halted => Run { plan, phase, copied, deleted, dirs, swept },
            _ => {
                match outcome {
                    Outcome::Failed => Run {
                        plan,
                        phase: Phase::Halted,
                        copied,
                        deleted,
                        dirs,
                        swept,
                    },
                    _ => {
                        match phase {
                            Phase::Copying => Self::idle(plan, copied + 1, deleted),
                            Phase::Deleting => {
                                let dirs = cleanup_candidates(&plan.to_delete()[deleted]);
                                let sweep = match plan.direction() {
                                    Direction::Push => dirs.len() > 0,
                                    Direction::Pull => false,
                                };
                                if sweep {
                                    Run {
                                        plan,
                                        phase: Phase::Sweeping,
                                        copied,
                                        deleted: deleted + 1,
                                        dirs,
                                        swept: 0,
                                    }
                                } else {
                                    Self::idle(plan, copied, deleted + 1)
                                }
                            },
                            Phase::Sweeping => {
                                assert(strs(dirs@).len() == dirs.len());
                                let more = match outcome {
                                    Outcome::Done => swept + 1 < dirs.len(),
                                    _ => false,
                                };
                                if more {
                                    Run { plan, phase, copied, deleted, dirs, swept: swept + 1 }
                                } else {
                                    Self::idle(plan, copied, deleted)
                                }
                            },
                            _ => Run {
                                plan,
                                phase: Phase::Finished,
                                copied,
                                deleted,
                                dirs,
                                swept,
                            },
                        }
                    },
                }
            },
        }
    }

    /// Where the run stands.
    pub fn phase(&self) -> (phase: Phase)
        ensures
            phase == self@.phase,
    {
        self.phase
    }

    /// How many copies were carried out.
    pub fn copied(&self) -> (n: usize)
        ensures
            n == self@.copied,
    {
        self.copied
    }

    /// How many deletions were carried out.
    pub fn deleted(&self) -> (n: usize)
        ensures
            n == self@.deleted,
    {
        self.deleted
    }

    /// The side that is carried over.
    pub fn direction(&self) -> (d: Direction)
        ensures
            d == self@.plan.direction,
    {
        self.plan.direction()
    }

    /// The manifest to write at the step `Save`.
    pub fn manifest(&self) -> (manifest: &Manifest)
        ensures
            manifest@ == self@.plan.manifest,
    {
        self.plan.manifest()
    }
}

} // verus!
