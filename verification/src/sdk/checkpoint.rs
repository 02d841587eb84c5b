//! Saving a checkpoint of a running sandbox.

use vstd::prelude::*;

use crate::sdk::boot::{make_image_file, make_index_file};
use crate::text::concat;

verus! {

use crate::sdk::boot::{checkpoints_dir, image_file, index_file, rootfs_path, Boot, BootAction};
use crate::text::text_of;

/// The step of a checkpoint that is being taken.
#[derive(Debug, Clone, Copy, PartialEq, Eq, Structural)]
pub enum CheckpointPhase {
    /// Checking the name.
    Name,
    /// Creating the directory of the checkpoints.
    Directory,
    /// Looking for a checkpoint of that name.
    Probe,
    /// Removing it.
    Remove,
    /// Saving the disk.
    Save,
    /// The checkpoint is saved.
    Saved,
    /// The checkpoint failed.
    Failed,
}

/// A step to take.
pub enum CheckpointAction {
    Validate { name: String },
    CreateDir { path: String },
    Probe { path: String },
    Remove { path: String },
    /// Save the index of the disk.
    SaveIndex { path: String },
    /// Clone the working disk.
    Clone { from: String, to: String },
    /// Nothing: the checkpoint is saved.
    Saved,
    /// Nothing: the checkpoint failed.
    Failed,
}

/// A checkpoint under way.
pub struct CheckpointRun {
    pub phase: CheckpointPhase,
    pub name: String,
    pub data_dir: String,
    pub instance_dir: String,
    /// The disk is in a chunk store.
    pub cas: bool,
    /// Why the checkpoint failed.
    pub error: Option<String>,
}

/// How far a checkpoint is.
pub open spec fn checkpoint_stage(p: CheckpointPhase) -> int {
    match p {
        CheckpointPhase::Name => 0,
        CheckpointPhase::Directory => 1,
        CheckpointPhase::Probe => 2,
        CheckpointPhase::Remove => 3,
        CheckpointPhase::Save => 4,
        CheckpointPhase::Saved => 5,
        CheckpointPhase::Failed => 5,
    }
}

impl CheckpointRun {
    /// The file of the checkpoint: an index for a disk in a chunk store, and a
    /// disk image otherwise.
    pub open spec fn target(self) -> Seq<char> {
        if self.cas {
            index_file(self.data_dir@, self.name@)
        } else {
            image_file(self.data_dir@, self.name@)
        }
    }

    /// The step after this one. The answer to a probe says whether the file is
    /// there.
    pub open spec fn next_phase(self, answer: Result<bool, String>) -> CheckpointPhase {
        match answer {
            Err(_) => CheckpointPhase::Failed,
            Ok(there) => match self.phase {
                CheckpointPhase::Name => CheckpointPhase::Directory,
                CheckpointPhase::Directory => CheckpointPhase::Probe,
                CheckpointPhase::Probe => if there {
                    CheckpointPhase::Remove
                } else {
                    CheckpointPhase::Save
                },
                CheckpointPhase::Remove => CheckpointPhase::Save,
                _ => CheckpointPhase::Saved,
            },
        }
    }

    /// A checkpoint before its first step.
    pub fn new(name: String, data_dir: String, instance_dir: String, cas: bool) -> (r: Self)
        ensures
            r == (CheckpointRun {
                phase: CheckpointPhase::Name,
                name,
                data_dir,
                instance_dir,
                cas,
                error: None,
            }),
    {
        CheckpointRun {
            phase: CheckpointPhase::Name,
            name,
            data_dir,
            instance_dir,
            cas,
            error: None,
        }
    }

    /// Takes up the answer to the current step and goes on to the next one.
    pub fn step(&mut self, answer: Result<bool, String>)
        requires
            !(old(self).phase is Saved) && !(old(self).phase is Failed),
        ensures
            *final(self) == (CheckpointRun {
                phase: old(self).next_phase(answer),
                error: (match answer {
                    Err(e) => Some(e),
                    Ok(_) => old(self).error,
                }),
                ..*old(self)
            }),
    {
        match answer {
            Err(e) => {
                self.error = Some(e);
                self.phase = CheckpointPhase::Failed;
            },
            Ok(there) => {
                self.phase = match self.phase {
                    CheckpointPhase::Name => CheckpointPhase::Directory,
                    CheckpointPhase::Directory => CheckpointPhase::Probe,
                    CheckpointPhase::Probe => if there {
                        CheckpointPhase::Remove
                    } else {
                        CheckpointPhase::Save
                    },
                    CheckpointPhase::Remove => CheckpointPhase::Save,
                    _ => CheckpointPhase::Saved,
                };
            },
        }
    }

    /// The step to take now.
    pub fn action(&self) -> (r: CheckpointAction)
        ensures
            match self.phase {
                CheckpointPhase::Name => r matches CheckpointAction::Validate { name } && name@
                    == self.name@,
                CheckpointPhase::Directory => r matches CheckpointAction::CreateDir { path }
                    && path@ == checkpoints_dir(self.data_dir@),
                CheckpointPhase::Probe => r matches CheckpointAction::Probe { path } && path@
                    == self.target(),
                CheckpointPhase::Remove => r matches CheckpointAction::Remove { path } && path@
                    == self.target(),
                CheckpointPhase::Save => if self.cas {
                    r matches CheckpointAction::SaveIndex { path } && path@ == self.target()
                } else {
                    r matches CheckpointAction::Clone { from, to } && from@ == rootfs_path(
                        self.instance_dir@,
                    ) && to@ == self.target()
                },
                CheckpointPhase::Saved => r is Saved,
                CheckpointPhase::Failed => r is Failed,
            },
    {
        let target = if self.cas {
            make_index_file(self.data_dir.as_str(), self.name.as_str())
        } else {
            make_image_file(self.data_dir.as_str(), self.name.as_str())
        };
        match self.phase {
            CheckpointPhase::Name => CheckpointAction::Validate { name: self.name.clone() },
            CheckpointPhase::Directory => CheckpointAction::CreateDir {
                path: concat(self.data_dir.as_str(), "/checkpoints"),
            },
            CheckpointPhase::Probe => CheckpointAction::Probe { path: target },
            CheckpointPhase::Remove => CheckpointAction::Remove { path: target },
            CheckpointPhase::Save => {
                if self.cas {
                    CheckpointAction::SaveIndex { path: target }
                } else {
                    CheckpointAction::Clone {
                        from: concat(self.instance_dir.as_str(), "/rootfs.ext4"),
                        to: target,
                    }
                }
            },
            CheckpointPhase::Saved => CheckpointAction::Saved,
            CheckpointPhase::Failed => CheckpointAction::Failed,
        }
    }

    /// What the checkpoint came to, once it is at its end.
    pub fn result(&self) -> (r: Result<(), String>)
        ensures
            r is Err <==> self.error is Some,
            r matches Err(e) ==> Some(e@) == text_of(self.error),
    {
        match &self.error {
            Some(e) => Err(e.clone()),
            None => Ok(()),
        }
    }
}

/// A checkpoint comes to an end: every step goes to a later stage.
pub proof fn law_checkpoint_advances(run: CheckpointRun, answer: Result<bool, String>)
    requires
        checkpoint_stage(run.phase) < 5,
    ensures
        checkpoint_stage(run.phase) < checkpoint_stage(run.next_phase(answer)) <= 5,
{
}

/// A disk is saved over nothing: a checkpoint gets to saving only where no file
/// of that name was found or where it was removed.
pub proof fn law_saving_finds_no_file(run: CheckpointRun, answer: Result<bool, String>)
    requires
        run.next_phase(answer) is Save,
    ensures
        run.phase is Probe && answer == Ok::<bool, String>(false) || run.phase is Remove
            && answer is Ok,
{
}

/// What leads to each step of a checkpoint. It is saved only by the step that saves
/// the disk, and only where that went well; a file of that name is removed only
/// where one was found; and it fails exactly where a step did.
pub proof fn law_what_leads_to_a_checkpoint_step(
    run: &mut CheckpointRun,
    answer: Result<bool, String>,
)
    requires
        !(old(run).phase is Saved) && !(old(run).phase is Failed),
        call_ensures(CheckpointRun::step, (run, answer), ()),
    ensures
        ({
            let was = old(run).phase;
            match final(run).phase {
                CheckpointPhase::Name => false,
                CheckpointPhase::Directory => was is Name && answer is Ok,
                CheckpointPhase::Probe => was is Directory && answer is Ok,
                CheckpointPhase::Remove => was is Probe && answer == Ok::<bool, String>(true),
                CheckpointPhase::Save => {
                    ||| was is Probe && answer == Ok::<bool, String>(false)
                    ||| was is Remove && answer is Ok
                },
                CheckpointPhase::Saved => was is Save && answer is Ok,
                CheckpointPhase::Failed => answer is Err,
            }
        }),
        final(run).name == old(run).name && final(run).data_dir == old(run).data_dir,
        final(run).instance_dir == old(run).instance_dir && final(run).cas == old(run).cas,
{
}

/// A checkpoint comes to an error exactly where a step failed, and to that step's.
pub proof fn law_checkpoint_result(
    run: &mut CheckpointRun,
    answer: Result<bool, String>,
    before: Result<(), String>,
    after: Result<(), String>,
)
    requires
        call_ensures(CheckpointRun::step, (run, answer), ()),
        call_ensures(CheckpointRun::result, (old(run),), before),
        call_ensures(CheckpointRun::result, (final(run),), after),
        before is Ok,
    ensures
        match answer {
            Ok(_) => after is Ok,
            Err(e) => after matches Err(m) && m@ == e@,
        },
{
}

/// A checkpoint is about one file from beginning to end: the one that is looked
/// for, removed where it is there, and saved to. It is named by the checkpoint, and
/// it is an index for a disk in a chunk store and a clone of the working disk
/// otherwise.
pub proof fn law_what_a_checkpoint_does(run: &CheckpointRun, a: CheckpointAction)
    requires
        call_ensures(CheckpointRun::action, (run,), a),
    ensures
        ({
            let dir = run.data_dir@ + "/checkpoints"@;
            let file = dir + "/"@ + run.name@ + (if run.cas {
                ".idx"@
            } else {
                ".ext4"@
            });
            match a {
                CheckpointAction::Validate { name } => run.phase is Name && name@ == run.name@,
                CheckpointAction::CreateDir { path } => run.phase is Directory && path@ == dir,
                CheckpointAction::Probe { path } => run.phase is Probe && path@ == file,
                CheckpointAction::Remove { path } => run.phase is Remove && path@ == file,
                CheckpointAction::SaveIndex { path } => run.phase is Save && run.cas && path@
                    == file,
                CheckpointAction::Clone { from, to } => run.phase is Save && !run.cas && from@
                    == run.instance_dir@ + "/rootfs.ext4"@ && to@ == file,
                CheckpointAction::Saved => run.phase is Saved,
                CheckpointAction::Failed => run.phase is Failed,
            }
        }),
{
}

/// A boot finds what was saved: where it looks for the index or the disk image of a
/// checkpoint is where a checkpoint of that name, in the same data directory, was
/// saved to. And what is cloned is the disk that the sandbox was booted with.
pub proof fn law_boot_finds_what_was_saved<M>(
    run: &CheckpointRun,
    saved: CheckpointAction,
    boot: &Boot<M>,
    a: BootAction,
)
    requires
        boot.sound(),
        call_ensures(CheckpointRun::action, (run,), saved),
        call_ensures(Boot::<M>::action, (boot,), a),
        run.phase is Save,
    ensures
        boot.from matches Some(name) && name@ == run.name@ && boot.data_dir@ == run.data_dir@ ==> {
            &&& boot.phase is Index && run.cas ==> (a matches BootAction::Probe { path } && saved
                matches CheckpointAction::SaveIndex { path: p } && path@ == p@)
            &&& boot.phase is Image && !run.cas ==> (a matches BootAction::Probe { path } && saved
                matches CheckpointAction::Clone { to, .. } && path@ == to@)
        },
        boot.phase is Build && boot.instance_dir@ == run.instance_dir@ && !run.cas ==> (a matches
            BootAction::Build { rootfs, .. } && saved matches CheckpointAction::Clone { from, .. }
            && rootfs@ == from@),
{
}

/// A checkpoint that is saved has saved the disk: it went through the step that
/// does, and through none that was not due. The run took the steps `runs`, each
/// from where the one before it had led, and `answers` came of them.
pub proof fn law_saved_checkpoint_saved_the_disk(
    runs: Seq<&mut CheckpointRun>,
    answers: Seq<Result<bool, String>>,
)
    requires
        runs.len() == answers.len(),
        runs.len() > 0,
        runs[0].phase is Name,
        forall|i: int|
            0 <= i < runs.len() ==> #[trigger] under_way(runs[i].phase, answers[i])
                && call_ensures(CheckpointRun::step, (runs[i], answers[i]), ()),
        forall|i: int|
            0 < i < runs.len() && #[trigger] under_way(runs[i].phase, answers[i]) ==> *runs[i]
                == *final(runs[i - 1]),
        final(runs.last()).phase is Saved,
    ensures
        runs.len() >= 4,
        runs.last().phase is Save && answers.last() is Ok,
        runs[1].phase is Directory && runs[2].phase is Probe,
        runs.len() == if answers[2] == Ok::<bool, String>(true) {
            5int
        } else {
            4
        },
{
    let n = runs.len() as int;
    assert(under_way(runs[n - 1].phase, answers[n - 1]));
    if n > 1 {
        assert(under_way(runs[n - 2].phase, answers[n - 2]));
        assert(under_way(runs[1].phase, answers[1]));
    }
    if n > 2 {
        assert(under_way(runs[n - 3].phase, answers[n - 3]));
        assert(under_way(runs[2].phase, answers[2]));
    }
    if n > 3 {
        assert(under_way(runs[n - 4].phase, answers[n - 4]));
        assert(under_way(runs[3].phase, answers[3]));
    }
    assert(under_way(runs[0].phase, answers[0]));
    lemma_run_ends(runs, answers, n - 1);
    if n > 4 {
        assert(under_way(runs[4].phase, answers[4]));
    }
}

/// There is a step to take, and this may come of it.
pub open spec fn under_way(p: CheckpointPhase, answer: Result<bool, String>) -> bool {
    !(p is Saved) && !(p is Failed)
}

/// A checkpoint takes five steps at most.
proof fn lemma_run_ends(
    runs: Seq<&mut CheckpointRun>,
    answers: Seq<Result<bool, String>>,
    n: int,
)
    requires
        runs.len() == answers.len(),
        forall|i: int|
            0 <= i < runs.len() ==> #[trigger] under_way(runs[i].phase, answers[i])
                && call_ensures(CheckpointRun::step, (runs[i], answers[i]), ()),
        forall|i: int|
            0 < i < runs.len() && #[trigger] under_way(runs[i].phase, answers[i]) ==> *runs[i]
                == *final(runs[i - 1]),
        0 <= n < runs.len(),
    ensures
        n <= checkpoint_stage(runs[n].phase) <= 4,
    decreases n,
{
    assert(under_way(runs[n].phase, answers[n]));
    if n > 0 {
        lemma_run_ends(runs, answers, n - 1);
        assert(under_way(runs[n - 1].phase, answers[n - 1]));
    }
}

/// A checkpoint starts with what it was given, at the check of its name, and until it
/// ends every answer is taken.
pub proof fn law_new_checkpoint(
    name: String,
    data_dir: String,
    instance_dir: String,
    cas: bool,
    r: CheckpointRun,
    run: &mut CheckpointRun,
    answer: Result<bool, String>,
)
    requires
        call_ensures(CheckpointRun::new, (name, data_dir, instance_dir, cas), r),
    ensures
        r.phase is Name && r.error is None,
        r.name@ == name@ && r.data_dir@ == data_dir@ && r.instance_dir@ == instance_dir@,
        r.cas == cas,
        !(old(run).phase is Saved || old(run).phase is Failed) ==> call_requires(
            CheckpointRun::step,
            (run, answer),
        ),
{
}

} // verus!
