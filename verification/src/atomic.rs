//! Writing a file so that a failure on the way does not lose what the file held.
//!
//! The new bytes go to a temporary file, which then takes the place of the file. Where the system
//! refuses that, the file is copied aside first, so that a failed replacement can restore it. The
//! copy stays where it cannot be restored.

use vstd::prelude::*;

verus! {

/// What is to be done next, and reported as done or failed.
#[derive(Clone, Copy, Debug, PartialEq, Eq, Structural)]
pub enum WriteStep {
    /// Make the directory of the file.
    CreateParent,
    /// Write the bytes to the temporary file.
    WriteTemp,
    /// Rename the temporary file to the file.
    Replace,
    /// Say whether the file exists.
    LookForTarget,
    /// Copy the file to the backup.
    BackUp,
    /// Remove the file.
    RemoveTarget,
    /// Rename the temporary file to the file, now that this is gone.
    ReplaceRemoved,
    /// Say whether the file still exists after a failed replacement.
    LookForRest,
    /// Rename the backup to the file.
    RestoreByRename,
    /// Copy the backup to the file.
    RestoreByCopy,
    /// Remove the temporary file.
    RemoveTemp,
    /// Remove the backup.
    RemoveBackup,
    /// Nothing: the file has the new bytes.
    Done,
    /// Nothing: the write failed.
    Failed,
}

/// A write under way.
#[derive(Clone, Copy, Debug, PartialEq, Eq, Structural)]
pub struct AtomicWrite {
    pub step: WriteStep,
    /// There is a backup to remove.
    pub backed_up: bool,
    /// The step whose error is to be reported.
    pub cause: Option<WriteStep>,
}

/// How a write starts.
pub open spec fn write_begun(needs_parent: bool) -> AtomicWrite {
    AtomicWrite {
        step: if needs_parent {
            WriteStep::CreateParent
        } else {
            WriteStep::WriteTemp
        },
        backed_up: false,
        cause: None,
    }
}

/// The write at another step.
pub open spec fn at_step(w: AtomicWrite, step: WriteStep) -> AtomicWrite {
    AtomicWrite { step, ..w }
}

/// The write at another step, with the error of this one to report.
pub open spec fn failed_at(w: AtomicWrite, step: WriteStep) -> AtomicWrite {
    AtomicWrite { step, cause: Some(w.step), ..w }
}

/// The write once its step is done (or the answer is yes), or has failed (or the answer is no).
pub open spec fn write_next(w: AtomicWrite, ok: bool) -> AtomicWrite {
    match w.step {
        WriteStep::CreateParent => if ok {
            at_step(w, WriteStep::WriteTemp)
        } else {
            failed_at(w, WriteStep::Failed)
        },
        WriteStep::WriteTemp => if ok {
            at_step(w, WriteStep::Replace)
        } else {
            failed_at(w, WriteStep::RemoveTemp)
        },
        WriteStep::Replace => if ok {
            at_step(w, WriteStep::Done)
        } else {
            failed_at(w, WriteStep::LookForTarget)
        },
        WriteStep::LookForTarget => if ok {
            at_step(w, WriteStep::BackUp)
        } else {
            at_step(w, WriteStep::RemoveTemp)
        },
        WriteStep::BackUp => if ok {
            AtomicWrite { step: WriteStep::RemoveTarget, backed_up: true, ..w }
        } else {
            failed_at(w, WriteStep::RemoveTemp)
        },
        WriteStep::RemoveTarget => if ok {
            at_step(w, WriteStep::ReplaceRemoved)
        } else {
            failed_at(w, WriteStep::LookForRest)
        },
        WriteStep::ReplaceRemoved => if ok {
            AtomicWrite { step: WriteStep::RemoveBackup, cause: None, ..w }
        } else {
            failed_at(w, WriteStep::LookForRest)
        },
        WriteStep::LookForRest => if ok {
            at_step(w, WriteStep::RemoveTemp)
        } else {
            at_step(w, WriteStep::RestoreByRename)
        },
        WriteStep::RestoreByRename => if ok {
            at_step(w, WriteStep::RemoveTemp)
        } else {
            at_step(w, WriteStep::RestoreByCopy)
        },
        WriteStep::RestoreByCopy => if ok {
            at_step(w, WriteStep::RemoveTemp)
        } else {
            AtomicWrite { step: WriteStep::RemoveTemp, backed_up: false, ..w }
        },
        WriteStep::RemoveTemp => if w.backed_up {
            at_step(w, WriteStep::RemoveBackup)
        } else {
            at_step(w, WriteStep::Failed)
        },
        WriteStep::RemoveBackup => if w.cause is None {
            at_step(w, WriteStep::Done)
        } else {
            at_step(w, WriteStep::Failed)
        },
        WriteStep::Done => w,
        WriteStep::Failed => w,
    }
}

impl AtomicWrite {
    /// Starts a write.
    pub fn start(needs_parent: bool) -> (r: AtomicWrite)
        ensures
            r == write_begun(needs_parent),
    {
        let step = if needs_parent {
            WriteStep::CreateParent
        } else {
            WriteStep::WriteTemp
        };
        AtomicWrite { step, backed_up: false, cause: None }
    }

    fn fail(&mut self, step: WriteStep)
        ensures
            *final(self) == failed_at(*old(self), step),
    {
        self.cause = Some(self.step);
        self.step = step;
    }

    /// Takes note that the step is done (or the answer is yes), or has failed (or the answer is no).
    pub fn advance(&mut self, ok: bool)
        ensures
            *final(self) == write_next(*old(self), ok),
    {
        match self.step {
            WriteStep::CreateParent => if ok {
                self.step = WriteStep::WriteTemp;
            } else {
                self.fail(WriteStep::Failed);
            },
            WriteStep::WriteTemp => if ok {
                self.step = WriteStep::Replace;
            } else {
                self.fail(WriteStep::RemoveTemp);
            },
            WriteStep::Replace => if ok {
                self.step = WriteStep::Done;
            } else {
                self.fail(WriteStep::LookForTarget);
            },
            WriteStep::LookForTarget => if ok {
                self.step = WriteStep::BackUp;
            } else {
                self.step = WriteStep::RemoveTemp;
            },
            WriteStep::BackUp => if ok {
                self.step = WriteStep::RemoveTarget;
                self.backed_up = true;
            } else {
                self.fail(WriteStep::RemoveTemp);
            },
            WriteStep::RemoveTarget => if ok {
                self.step = WriteStep::ReplaceRemoved;
            } else {
                self.fail(WriteStep::LookForRest);
            },
            WriteStep::ReplaceRemoved => if ok {
                self.step = WriteStep::RemoveBackup;
                self.cause = None;
            } else {
                self.fail(WriteStep::LookForRest);
            },
            WriteStep::LookForRest => if ok {
                self.step = WriteStep::RemoveTemp;
            } else {
                self.step = WriteStep::RestoreByRename;
            },
            WriteStep::RestoreByRename => if ok {
                self.step = WriteStep::RemoveTemp;
            } else {
                self.step = WriteStep::RestoreByCopy;
            },
            WriteStep::RestoreByCopy => {
                self.step = WriteStep::RemoveTemp;
                if !ok {
                    self.backed_up = false;
                }
            },
            WriteStep::RemoveTemp => if self.backed_up {
                self.step = WriteStep::RemoveBackup;
            } else {
                self.step = WriteStep::Failed;
            },
            WriteStep::RemoveBackup => if self.cause.is_none() {
                self.step = WriteStep::Done;
            } else {
                self.step = WriteStep::Failed;
            },
            WriteStep::Done => {},
            WriteStep::Failed => {},
        }
    }
}

// ---------------------------------------------------------------------------
// Laws
// ---------------------------------------------------------------------------

/// The three files that a write touches, as far as they exist.
pub ghost struct Files {
    pub target: Option<Seq<u8>>,
    pub temp: Option<Seq<u8>>,
    pub backup: Option<Seq<u8>>,
}

/// What a step does to the files. A file that could not be written may hold anything; a rename that
/// fails changes nothing; a file that is found exists.
pub open spec fn step_effect(step: WriteStep, ok: bool, new: Seq<u8>, a: Files, b: Files) -> bool {
    match step {
        WriteStep::WriteTemp => b.target == a.target && b.backup == a.backup && (ok ==> b.temp
            == Some(new)),
        WriteStep::Replace | WriteStep::ReplaceRemoved => if ok {
            b == (Files { target: a.temp, temp: None, ..a })
        } else {
            b == a
        },
        WriteStep::LookForTarget | WriteStep::LookForRest => b == a && (ok ==> a.target is Some),
        WriteStep::BackUp => b.target == a.target && b.temp == a.temp && (ok ==> b.backup
            == a.target),
        WriteStep::RemoveTarget => if ok {
            b == (Files { target: None, ..a })
        } else {
            b == a
        },
        WriteStep::RestoreByRename => if ok {
            b == (Files { target: a.backup, backup: None, ..a })
        } else {
            b == a
        },
        WriteStep::RestoreByCopy => b.temp == a.temp && b.backup == a.backup && (ok ==> b.target
            == a.backup),
        WriteStep::RemoveTemp => b.target == a.target && b.backup == a.backup,
        WriteStep::RemoveBackup => b.target == a.target && b.temp == a.temp,
        _ => b == a,
    }
}

/// The backup holds what the file held, and is not going to be removed: the file was gone, and the
/// backup could be neither renamed nor copied to its place.
pub open spec fn backup_kept(w: AtomicWrite, f: Files, previous: Option<Seq<u8>>) -> bool {
    &&& f.backup == previous
    &&& previous is Some
    &&& !w.backed_up
    &&& after_removal(w)
}

/// The error to report is that of the removal of the file, or of the replacement that follows it.
pub open spec fn after_removal(w: AtomicWrite) -> bool {
    w.cause == Some(WriteStep::RemoveTarget) || w.cause == Some(WriteStep::ReplaceRemoved)
}

/// What holds of the files at each step of a write of `new` over a file that held `previous`.
pub open spec fn nothing_lost(
    w: AtomicWrite,
    f: Files,
    previous: Option<Seq<u8>>,
    new: Seq<u8>,
) -> bool {
    match w.step {
        WriteStep::CreateParent | WriteStep::WriteTemp => f.target == previous && !w.backed_up
            && w.cause is None,
        WriteStep::Replace => f.target == previous && f.temp == Some(new) && !w.backed_up
            && w.cause is None,
        WriteStep::LookForTarget => f.target == previous && f.temp == Some(new) && !w.backed_up
            && w.cause is Some,
        WriteStep::BackUp => f.target == previous && f.target is Some && f.temp == Some(new)
            && !w.backed_up && w.cause is Some,
        WriteStep::RemoveTarget => f.target == previous && f.backup == previous && f.target is Some
            && f.temp == Some(new) && w.backed_up && w.cause is Some,
        WriteStep::ReplaceRemoved => f.target is None && f.backup == previous && previous is Some
            && f.temp == Some(new) && w.backed_up && w.cause is Some,
        WriteStep::LookForRest => (f.target == previous || f.target is None) && f.backup
            == previous && previous is Some && w.backed_up && after_removal(w),
        WriteStep::RestoreByRename | WriteStep::RestoreByCopy => f.backup == previous
            && previous is Some && w.backed_up && after_removal(w),
        WriteStep::RemoveTemp => w.cause is Some && (f.target == previous || backup_kept(
            w,
            f,
            previous,
        )),
        WriteStep::RemoveBackup => if w.cause is None {
            f.target == Some(new)
        } else {
            f.target == previous
        },
        WriteStep::Done => f.target == Some(new),
        WriteStep::Failed => w.cause is Some && (f.target == previous || backup_kept(w, f, previous)),
    }
}

/// At the start of a write nothing is lost.
pub proof fn law_write_starts_safe(needs_parent: bool, f: Files, new: Seq<u8>)
    ensures
        nothing_lost(write_begun(needs_parent), f, f.target, new),
{
}

/// Every step keeps what holds: a write that is done has put the new bytes in place, one that failed
/// has left the file as it was, or at least its backup, and on the way the bytes of the file are in
/// the file or in the backup. Only where a backup can be neither renamed nor copied back does a
/// failed write leave the backup alone.
pub proof fn law_write_loses_nothing(
    w: AtomicWrite,
    ok: bool,
    a: Files,
    b: Files,
    previous: Option<Seq<u8>>,
    new: Seq<u8>,
)
    requires
        nothing_lost(w, a, previous, new),
        step_effect(w.step, ok, new, a, b),
    ensures
        nothing_lost(write_next(w, ok), b, previous, new),
        write_next(w, ok).step == WriteStep::Done ==> b.target == Some(new),
        write_next(w, ok).step == WriteStep::Failed ==> b.target == previous || (previous is Some
            && b.backup == previous),
        write_next(w, ok).step == WriteStep::Failed && !after_removal(write_next(w, ok)) ==> b.target
            == previous,
        b.target == previous || b.target == Some(new) || b.backup == previous,
{
}

/// The number of steps that a write can still take.
pub open spec fn steps_left(step: WriteStep) -> nat {
    match step {
        WriteStep::CreateParent => 12,
        WriteStep::WriteTemp => 11,
        WriteStep::Replace => 10,
        WriteStep::LookForTarget => 9,
        WriteStep::BackUp => 8,
        WriteStep::RemoveTarget => 7,
        WriteStep::ReplaceRemoved => 6,
        WriteStep::LookForRest => 5,
        WriteStep::RestoreByRename => 4,
        WriteStep::RestoreByCopy => 3,
        WriteStep::RemoveTemp => 2,
        WriteStep::RemoveBackup => 1,
        WriteStep::Done => 0,
        WriteStep::Failed => 0,
    }
}

/// A write comes to an end.
pub proof fn law_write_ends(w: AtomicWrite, ok: bool)
    requires
        w.step != WriteStep::Done,
        w.step != WriteStep::Failed,
    ensures
        steps_left(write_next(w, ok).step) < steps_left(w.step),
{
}

/// The course of a write: the directory, the temporary file, and its renaming. Where that is refused and
/// there is a file, it is copied aside and removed, and the renaming is tried again; where that fails
/// too, the file is brought back, by renaming or copying the backup.
pub proof fn law_course_of_write(w: AtomicWrite)
    ensures
        ({
            let yes = write_next(w, true).step;
            let no = write_next(w, false).step;
            match w.step {
                WriteStep::CreateParent => yes == WriteStep::WriteTemp && no == WriteStep::Failed,
                WriteStep::WriteTemp => yes == WriteStep::Replace && no == WriteStep::RemoveTemp,
                WriteStep::Replace => yes == WriteStep::Done && no == WriteStep::LookForTarget,
                WriteStep::LookForTarget => yes == WriteStep::BackUp && no == WriteStep::RemoveTemp,
                WriteStep::BackUp => yes == WriteStep::RemoveTarget && no == WriteStep::RemoveTemp,
                WriteStep::RemoveTarget => yes == WriteStep::ReplaceRemoved && no
                    == WriteStep::LookForRest,
                WriteStep::ReplaceRemoved => yes == WriteStep::RemoveBackup && no
                    == WriteStep::LookForRest,
                WriteStep::LookForRest => yes == WriteStep::RemoveTemp && no
                    == WriteStep::RestoreByRename,
                WriteStep::RestoreByRename => yes == WriteStep::RemoveTemp && no
                    == WriteStep::RestoreByCopy,
                WriteStep::RestoreByCopy => yes == WriteStep::RemoveTemp && no
                    == WriteStep::RemoveTemp,
                WriteStep::RemoveTemp => yes == no && yes == if w.backed_up {
                    WriteStep::RemoveBackup
                } else {
                    WriteStep::Failed
                },
                WriteStep::RemoveBackup => yes == no && yes == if w.cause is None {
                    WriteStep::Done
                } else {
                    WriteStep::Failed
                },
                WriteStep::Done => yes == WriteStep::Done && no == WriteStep::Done,
                WriteStep::Failed => yes == WriteStep::Failed && no == WriteStep::Failed,
            }
        }),
        write_begun(true).step == WriteStep::CreateParent,
        write_begun(false).step == WriteStep::WriteTemp,
{
}

/// The error that a write reports is that of the last of its own steps that failed: neither looking for
/// a file nor cleaning up is such a step.
pub proof fn law_error_of_write(w: AtomicWrite, ok: bool)
    requires
        w.step != WriteStep::ReplaceRemoved || !ok,
    ensures
        ({
            let own = w.step == WriteStep::CreateParent || w.step == WriteStep::WriteTemp || w.step
                == WriteStep::Replace || w.step == WriteStep::BackUp || w.step
                == WriteStep::RemoveTarget || w.step == WriteStep::ReplaceRemoved;
            write_next(w, ok).cause == if own && !ok {
                Some(w.step)
            } else {
                w.cause
            }
        }),
{
}

} // verus!
