//! Carrying out a plan: the decisions, not the file system work.
//!
//! Each transfer is a small state machine. The caller performs the step it
//! is handed (create a folder, copy to a `.part` file while hashing the
//! source, hash the part file, rename, remove) and reports how it went; the
//! machine decides the next step. A copy reaches its final name only by a
//! rename of a part file whose hash matched the source, and a move removes
//! its source only after such a rename. The run's tally, the dispatch of
//! operations under cancel and pause, and the progress events are decided
//! here too.
use vstd::prelude::*;
use crate::logging::{create_log_entry, LogEntry};
use crate::paths::{parent, parent_of};
use crate::text::{chars_of, push_str, str_eq, string_from};
use crate::types::{IngestOperation, IngestResult, ProgressEvent};

verus! {

// ---------------------------------------------------------------------------
// Actions.
// ---------------------------------------------------------------------------

/// What an operation's action asks for.
#[derive(Debug, Clone, Copy, PartialEq, Eq, Structural)]
pub enum ActionKind {
    Skip,
    Copy,
    Move,
    /// Anything else: nothing is done and the file counts as skipped.
    Other,
}

pub open spec fn action_kind_spec(a: Seq<char>) -> ActionKind {
    if a == "skip"@ {
        ActionKind::Skip
    } else if a == "copy"@ {
        ActionKind::Copy
    } else if a == "move"@ {
        ActionKind::Move
    } else {
        ActionKind::Other
    }
}

pub fn action_kind(action: &str) -> (r: ActionKind)
    ensures
        r == action_kind_spec(action@),
{
    if str_eq(action, "skip") {
        ActionKind::Skip
    } else if str_eq(action, "copy") {
        ActionKind::Copy
    } else if str_eq(action, "move") {
        ActionKind::Move
    } else {
        ActionKind::Other
    }
}

pub open spec fn is_transfer(k: ActionKind) -> bool {
    k == ActionKind::Copy || k == ActionKind::Move
}

/// The file a copy is written to until it is verified: `<dest>.part`.
pub fn part_path(dest: &str) -> (r: String)
    ensures
        r@ == dest@ + ".part"@,
{
    let mut v = chars_of(dest);
    push_str(&mut v, ".part");
    string_from(&v)
}

/// The error for a copy whose hash does not match its source's.
pub open spec fn mismatch_message(source_hash: Seq<char>, dest_hash: Seq<char>) -> Seq<char> {
    "Checksum mismatch after copy — source: "@ + source_hash + " dest: "@ + dest_hash
}

fn mismatch_error(source_hash: &str, dest_hash: &str) -> (r: String)
    ensures
        r@ == mismatch_message(source_hash@, dest_hash@),
{
    let mut v = chars_of("Checksum mismatch after copy — source: ");
    push_str(&mut v, source_hash);
    push_str(&mut v, " dest: ");
    push_str(&mut v, dest_hash);
    string_from(&v)
}

/// Verify a copy by its hash: fine when the copy hashes as its source did,
/// otherwise the mismatch error naming both hashes.
pub fn verify_copy(source_hash: &str, dest_hash: &str) -> (r: Result<(), String>)
    ensures
        r is Ok <==> source_hash@ == dest_hash@,
        r matches Err(e) ==> e@ == mismatch_message(source_hash@, dest_hash@),
{
    if str_eq(source_hash, dest_hash) {
        Ok(())
    } else {
        Err(mismatch_error(source_hash, dest_hash))
    }
}

// ---------------------------------------------------------------------------
// One transfer.
// ---------------------------------------------------------------------------

/// Where a transfer stands: which step it last handed out.
#[derive(Debug, Clone, Copy, PartialEq, Eq, Structural)]
pub enum TransferPhase {
    /// Creating the destination's folder.
    MakingDir,
    /// A move trying a plain rename (same volume).
    Renaming,
    /// Copying the source to the part file, hashing the source on the way.
    Copying,
    /// Hashing the part file.
    HashingPart,
    /// Renaming the verified part file to the destination.
    Promoting,
    /// Removing a part file that failed verification.
    Discarding,
    /// A move removing its source after the copy was put in place.
    RemovingSource,
    /// Nothing left to do.
    Finished,
}

/// A step for the caller to carry out.
#[derive(Debug)]
pub enum TransferStep {
    /// Create a folder and any missing parents.
    CreateDir(String),
    /// Rename a file; for a move within one volume.
    Rename { from: String, to: String },
    /// Copy a file to the part file, reporting the SHA-256 of what was read.
    CopyToPart { from: String, to: String },
    /// Report the SHA-256 of a file.
    HashFile(String),
    /// Rename the verified part file to its final name.
    Promote { from: String, to: String },
    /// Remove a part file that failed verification.
    DiscardPart(String),
    /// Remove the source of a move whose copy is in place.
    RemoveSource(String),
    /// The transfer is over: the whole-file hash when one was computed, or
    /// the error.
    Finish(Result<Option<String>, String>),
}

/// How the caller's step went.
#[derive(Debug, Clone)]
pub enum StepOutcome {
    Done,
    /// The step computed a hash (copying, hashing).
    Hashed(String),
    Failed(String),
}

/// The steps that report a hash answer with one or with a failure; the
/// others answer done or failed.
pub open spec fn outcome_fits(phase: TransferPhase, ev: StepOutcome) -> bool {
    if phase == TransferPhase::Copying || phase == TransferPhase::HashingPart {
        !(ev is Done)
    } else {
        !(ev is Hashed)
    }
}

pub struct Transfer {
    pub is_move: bool,
    pub source: String,
    pub dest: String,
    pub part: String,
    pub phase: TransferPhase,
    /// The source's hash, once the copy reported it.
    pub source_hash: Option<String>,
    /// The part file hashed as the source did.
    pub verified: bool,
    /// The error to report once a failed part file is removed.
    pub failure: Option<String>,
}

impl Transfer {
    /// What holds in every state: the part file is `<dest>.part`; putting it
    /// in place and removing a source only ever follow a verification; a
    /// copy never renames or removes its source.
    pub open spec fn wf(&self) -> bool {
        &&& self.part@ == self.dest@ + ".part"@
        &&& (self.phase == TransferPhase::Promoting || self.phase == TransferPhase::RemovingSource)
            ==> self.verified
        &&& self.verified ==> self.source_hash is Some
        &&& !self.is_move ==> self.phase != TransferPhase::Renaming && self.phase
            != TransferPhase::RemovingSource
        &&& self.phase == TransferPhase::Discarding ==> self.failure is Some
        &&& (self.phase == TransferPhase::HashingPart ==> self.source_hash is Some)
    }
}

/// How many steps a transfer can still hand out, at most.
pub open spec fn phase_rank(p: TransferPhase) -> nat {
    match p {
        TransferPhase::MakingDir => 7,
        TransferPhase::Renaming => 6,
        TransferPhase::Copying => 5,
        TransferPhase::HashingPart => 4,
        TransferPhase::Promoting => 3,
        TransferPhase::RemovingSource => 2,
        TransferPhase::Discarding => 1,
        TransferPhase::Finished => 0,
    }
}

pub open spec fn step_names(s: TransferStep, kind: int, a: Seq<char>, b: Seq<char>) -> bool {
    match s {
        TransferStep::CreateDir(d) => kind == 0 && d@ == a,
        TransferStep::Rename { from, to } => kind == 1 && from@ == a && to@ == b,
        TransferStep::CopyToPart { from, to } => kind == 2 && from@ == a && to@ == b,
        TransferStep::HashFile(f) => kind == 3 && f@ == a,
        TransferStep::Promote { from, to } => kind == 4 && from@ == a && to@ == b,
        TransferStep::DiscardPart(f) => kind == 5 && f@ == a,
        TransferStep::RemoveSource(f) => kind == 6 && f@ == a,
        TransferStep::Finish(_) => false,
    }
}

/// The step that moves bytes for a transfer once its folder exists: a
/// rename for a move, a copy to the part file for a copy.
pub open spec fn first_transfer_step(t: Transfer, s: TransferStep) -> bool {
    if t.is_move {
        t.phase == TransferPhase::Renaming && step_names(s, 1, t.source@, t.dest@)
    } else {
        t.phase == TransferPhase::Copying && step_names(s, 2, t.source@, t.part@)
    }
}

fn copy_str(s: &String) -> (r: String)
    ensures
        r == *s,
{
    s.clone()
}

/// A transfer of `source` to `dest` just started: nothing hashed or
/// verified yet, and the first step is making the destination's folder when
/// the path has one, otherwise moving the bytes.
pub open spec fn transfer_begun(
    is_move: bool,
    source: Seq<char>,
    dest: Seq<char>,
    t: Transfer,
    s: TransferStep,
) -> bool {
    &&& t.wf()
    &&& t.is_move == is_move
    &&& t.source@ == source
    &&& t.dest@ == dest
    &&& t.source_hash is None
    &&& !t.verified
    &&& match parent(dest) {
        Some(d) => t.phase == TransferPhase::MakingDir && step_names(s, 0, d, Seq::empty()),
        None => first_transfer_step(t, s),
    }
}

/// Starts a transfer of `source` to `dest`: first the destination's folder,
/// when the path has one.
pub fn begin_transfer(is_move: bool, source: &str, dest: &str) -> (r: (Transfer, TransferStep))
    ensures
        transfer_begun(is_move, source@, dest@, r.0, r.1),
{
    let dc = chars_of(dest);
    let part = part_path(dest);
    let phase_after_dir = if is_move {
        TransferPhase::Renaming
    } else {
        TransferPhase::Copying
    };
    let t = Transfer {
        is_move,
        source: string_from(&chars_of(source)),
        dest: string_from(&dc),
        part,
        phase: TransferPhase::MakingDir,
        source_hash: None,
        verified: false,
        failure: None,
    };
    match parent_of(&dc) {
        Some(d) => (t, TransferStep::CreateDir(string_from(&d))),
        None => {
            let t2 = Transfer { phase: phase_after_dir, ..t };
            let step = if is_move {
                TransferStep::Rename { from: copy_str(&t2.source), to: copy_str(&t2.dest) }
            } else {
                TransferStep::CopyToPart { from: copy_str(&t2.source), to: copy_str(&t2.part) }
            };
            (t2, step)
        },
    }
}

/// How one operation of a plan begins: a copy or a move starts a transfer
/// from its source to its destination (a move marked as one); a skip, or an
/// action that is neither, writes nothing and ends at once as skipped.
pub fn start_operation(op: &IngestOperation) -> (r: Result<(Transfer, TransferStep), FileOutcome>)
    ensures
        match action_kind_spec(op.action@) {
            ActionKind::Copy => r matches Ok((t, s)) && transfer_begun(
                false,
                op.source_path@,
                op.dest_path@,
                t,
                s,
            ),
            ActionKind::Move => r matches Ok((t, s)) && transfer_begun(
                true,
                op.source_path@,
                op.dest_path@,
                t,
                s,
            ),
            _ => r matches Err(FileOutcome::Skipped),
        },
{
    match action_kind(op.action.as_str()) {
        ActionKind::Copy => Ok(begin_transfer(false, op.source_path.as_str(), op.dest_path.as_str())),
        ActionKind::Move => Ok(begin_transfer(true, op.source_path.as_str(), op.dest_path.as_str())),
        _ => Err(FileOutcome::Skipped),
    }
}

pub open spec fn finishes_with_error(s: TransferStep, e: Seq<char>) -> bool {
    s matches TransferStep::Finish(Err(m)) && m@ == e
}

impl Transfer {
    /// Takes the outcome of the last step and hands out the next one.
    ///
    /// - Folder made: a move tries a plain rename, a copy starts copying to
    ///   the part file. A failure ends the transfer with that error.
    /// - Rename done: the move is over, with no hash. Rename failed (another
    ///   volume): the move copies to the part file instead.
    /// - Copy hashed the source: the part file is hashed. Failed: the error.
    /// - Part file hashed: if it matches the source, it is renamed into
    ///   place; otherwise it is removed and the transfer fails with the
    ///   mismatch error.
    /// - Renamed into place: a copy is over, with the source's hash; a move
    ///   removes its source first.
    /// - Part file removed (or not): the mismatch error.
    /// - Source removed: the move is over, with the source's hash.
    /// Any other failure ends the transfer with that error.
    pub fn advance(&mut self, ev: StepOutcome) -> (r: TransferStep)
        requires
            old(self).wf(),
            old(self).phase != TransferPhase::Finished,
            outcome_fits(old(self).phase, ev),
        ensures
            final(self).wf(),
            final(self).is_move == old(self).is_move,
            final(self).source == old(self).source,
            final(self).dest == old(self).dest,
            final(self).part == old(self).part,
            (final(self).phase == TransferPhase::Finished) <==> (r is Finish),
            // Every step brings the transfer closer to its end: none takes
            // more than seven steps after the first.
            phase_rank(final(self).phase) < phase_rank(old(self).phase),
            // The final name is written only from a verified part file.
            r is Promote ==> old(self).phase == TransferPhase::HashingPart && (ev matches StepOutcome::Hashed(
                h,
            ) && old(self).source_hash matches Some(sh) && h@ == sh@) && step_names(
                r,
                4,
                old(self).part@,
                old(self).dest@,
            ),
            // A source is removed only by a move whose verified copy is in place.
            r is RemoveSource ==> old(self).is_move && old(self).phase == TransferPhase::Promoting
                && old(self).verified && ev is Done && step_names(r, 6, old(self).source@, Seq::empty()),
            match (old(self).phase, ev) {
                (TransferPhase::MakingDir, StepOutcome::Done) => first_transfer_step(*final(self), r),
                (TransferPhase::Renaming, StepOutcome::Done) => r matches TransferStep::Finish(Ok(None)),
                (TransferPhase::Renaming, StepOutcome::Failed(_)) => final(self).phase
                    == TransferPhase::Copying && step_names(r, 2, old(self).source@, old(self).part@),
                (TransferPhase::Copying, StepOutcome::Hashed(h)) => final(self).phase
                    == TransferPhase::HashingPart && final(self).source_hash == Some(h) && step_names(
                    r,
                    3,
                    old(self).part@,
                    Seq::empty(),
                ),
                (TransferPhase::HashingPart, StepOutcome::Hashed(h)) => {
                    let sh = old(self).source_hash->0@;
                    if h@ == sh {
                        final(self).phase == TransferPhase::Promoting && final(self).verified
                            && step_names(r, 4, old(self).part@, old(self).dest@)
                    } else {
                        &&& final(self).phase == TransferPhase::Discarding
                        &&& step_names(r, 5, old(self).part@, Seq::empty())
                        &&& final(self).failure matches Some(m) && m@ == mismatch_message(sh, h@)
                    }
                },
                (TransferPhase::Promoting, StepOutcome::Done) => if old(self).is_move {
                    final(self).phase == TransferPhase::RemovingSource
                } else {
                    r matches TransferStep::Finish(Ok(Some(h))) && old(self).source_hash == Some(h)
                },
                (TransferPhase::Discarding, _) => (old(self).failure matches Some(m)
                    && finishes_with_error(r, m@)),
                (TransferPhase::RemovingSource, StepOutcome::Done) => r matches TransferStep::Finish(
                    Ok(Some(h)),
                ) && old(self).source_hash == Some(h),
                (_, StepOutcome::Failed(e)) => finishes_with_error(r, e@),
                _ => false,
            },
    {
        let phase = self.phase;
        match phase {
            TransferPhase::MakingDir => match ev {
                StepOutcome::Failed(e) => {
                    self.phase = TransferPhase::Finished;
                    TransferStep::Finish(Err(e))
                },
                _ => {
                    if self.is_move {
                        self.phase = TransferPhase::Renaming;
                        TransferStep::Rename { from: copy_str(&self.source), to: copy_str(&self.dest) }
                    } else {
                        self.phase = TransferPhase::Copying;
                        TransferStep::CopyToPart {
                            from: copy_str(&self.source),
                            to: copy_str(&self.part),
                        }
                    }
                },
            },
            TransferPhase::Renaming => match ev {
                StepOutcome::Failed(_) => {
                    self.phase = TransferPhase::Copying;
                    TransferStep::CopyToPart { from: copy_str(&self.source), to: copy_str(&self.part) }
                },
                _ => {
                    self.phase = TransferPhase::Finished;
                    TransferStep::Finish(Ok(None))
                },
            },
            TransferPhase::Copying => match ev {
                StepOutcome::Hashed(h) => {
                    self.source_hash = Some(h);
                    self.phase = TransferPhase::HashingPart;
                    TransferStep::HashFile(copy_str(&self.part))
                },
                StepOutcome::Failed(e) => {
                    self.phase = TransferPhase::Finished;
                    TransferStep::Finish(Err(e))
                },
                StepOutcome::Done => {
                    self.phase = TransferPhase::Finished;
                    TransferStep::Finish(Ok(None))
                },
            },
            TransferPhase::HashingPart => match ev {
                StepOutcome::Hashed(h) => {
                    let sh = match &self.source_hash {
                        Some(s) => copy_str(s),
                        None => String::new(),
                    };
                    match verify_copy(sh.as_str(), h.as_str()) {
                        Ok(()) => {
                            self.verified = true;
                            self.phase = TransferPhase::Promoting;
                            TransferStep::Promote { from: copy_str(&self.part), to: copy_str(&self.dest) }
                        },
                        Err(m) => {
                            self.failure = Some(m);
                            self.phase = TransferPhase::Discarding;
                            TransferStep::DiscardPart(copy_str(&self.part))
                        },
                    }
                },
                StepOutcome::Failed(e) => {
                    self.phase = TransferPhase::Finished;
                    TransferStep::Finish(Err(e))
                },
                StepOutcome::Done => {
                    self.phase = TransferPhase::Finished;
                    TransferStep::Finish(Ok(None))
                },
            },
            TransferPhase::Promoting => match ev {
                StepOutcome::Failed(e) => {
                    self.phase = TransferPhase::Finished;
                    TransferStep::Finish(Err(e))
                },
                _ => {
                    if self.is_move {
                        self.phase = TransferPhase::RemovingSource;
                        TransferStep::RemoveSource(copy_str(&self.source))
                    } else {
                        self.phase = TransferPhase::Finished;
                        TransferStep::Finish(Ok(crate::logging::clone_opt(&self.source_hash)))
                    }
                },
            },
            TransferPhase::Discarding => {
                self.phase = TransferPhase::Finished;
                let m = match &self.failure {
                    Some(m) => copy_str(m),
                    None => String::new(),
                };
                TransferStep::Finish(Err(m))
            },
            TransferPhase::RemovingSource => match ev {
                StepOutcome::Failed(e) => {
                    self.phase = TransferPhase::Finished;
                    TransferStep::Finish(Err(e))
                },
                _ => {
                    self.phase = TransferPhase::Finished;
                    TransferStep::Finish(Ok(crate::logging::clone_opt(&self.source_hash)))
                },
            },
            TransferPhase::Finished => TransferStep::Finish(Ok(None)),
        }
    }
}

// ---------------------------------------------------------------------------
// The run's tally.
// ---------------------------------------------------------------------------

/// How one operation ended.
#[derive(Debug, Clone)]
pub enum FileOutcome {
    /// Bytes were transferred; the whole-file hash when one was computed.
    Transferred(Option<String>),
    /// Nothing was written: a skip, or an action that does nothing.
    Skipped,
    Failed(String),
}

/// What a finished transfer amounts to.
pub fn outcome_of_finish(result: Result<Option<String>, String>) -> (r: FileOutcome)
    ensures
        match result {
            Ok(h) => r == FileOutcome::Transferred(h),
            Err(e) => r == FileOutcome::Failed(e),
        },
{
    match result {
        Ok(h) => FileOutcome::Transferred(h),
        Err(e) => FileOutcome::Failed(e),
    }
}

/// The error line for a failed operation: `<source>: <error>`.
pub open spec fn error_line(source: Seq<char>, e: Seq<char>) -> Seq<char> {
    source + ": "@ + e
}

/// The bytes of the operations a log records as transferred.
pub open spec fn transferred_bytes(entries: Seq<LogEntry>) -> nat
    decreases entries.len(),
{
    if entries.len() == 0 {
        0
    } else {
        transferred_bytes(entries.drop_last()) + if entries.last().status@ == "success"@ {
            entries.last().size as nat
        } else {
            0nat
        }
    }
}

/// The counts of a run so far, its error lines and its log entries.
pub struct RunTally {
    pub success_count: usize,
    pub skipped_count: usize,
    pub error_count: usize,
    /// Bytes of the files transferred; like the atomic counter it stands
    /// for, it wraps rather than overflows.
    pub bytes_copied: u64,
    pub completed: usize,
    pub errors: Vec<String>,
    pub log_entries: Vec<LogEntry>,
}

impl RunTally {
    /// Every finished operation is counted exactly once, as a success, a
    /// skip or an error, and has exactly one log entry; every error has
    /// exactly one error line.
    pub open spec fn wf(&self) -> bool {
        &&& self.success_count + self.skipped_count + self.error_count == self.completed
        &&& self.log_entries@.len() == self.completed
        &&& self.errors@.len() == self.error_count
        &&& self.bytes_copied == transferred_bytes(self.log_entries@) % 0x1_0000_0000_0000_0000
    }

    pub fn new() -> (r: Self)
        ensures
            r.wf(),
            r.completed == 0,
            r.bytes_copied == 0,
    {
        RunTally {
            success_count: 0,
            skipped_count: 0,
            error_count: 0,
            bytes_copied: 0,
            completed: 0,
            errors: Vec::new(),
            log_entries: Vec::new(),
        }
    }

    /// Records how one operation ended: its count, its bytes when it was
    /// transferred, an error line when it failed, and its log entry with
    /// status `success`, `skipped` or `error`.
    pub fn record(&mut self, op: &IngestOperation, outcome: FileOutcome)
        requires
            old(self).wf(),
            old(self).completed < usize::MAX,
        ensures
            final(self).wf(),
            final(self).completed == old(self).completed + 1,
            final(self).log_entries@.drop_last() == old(self).log_entries@,
            final(self).log_entries@.last().source_path@ == op.source_path@,
            final(self).log_entries@.last().dest_path@ == op.dest_path@,
            final(self).log_entries@.last().size == op.size,
            final(self).log_entries@.last().hash == op.hash,
            final(self).log_entries@.last().capture_datetime == op.capture_date,
            final(self).log_entries@.last().device_name == op.device_name,
            match outcome {
                FileOutcome::Transferred(h) => {
                    &&& final(self).success_count == old(self).success_count + 1
                    &&& final(self).skipped_count == old(self).skipped_count
                    &&& final(self).error_count == old(self).error_count
                    &&& final(self).bytes_copied == (old(self).bytes_copied + op.size) % 0x1_0000_0000_0000_0000
                    &&& final(self).errors == old(self).errors
                    &&& final(self).log_entries@.last().status@ == "success"@
                    &&& final(self).log_entries@.last().error is None
                    &&& final(self).log_entries@.last().full_hash == h
                },
                FileOutcome::Skipped => {
                    &&& final(self).success_count == old(self).success_count
                    &&& final(self).skipped_count == old(self).skipped_count + 1
                    &&& final(self).error_count == old(self).error_count
                    &&& final(self).bytes_copied == old(self).bytes_copied
                    &&& final(self).errors == old(self).errors
                    &&& final(self).log_entries@.last().status@ == "skipped"@
                    &&& final(self).log_entries@.last().error is None
                    &&& final(self).log_entries@.last().full_hash is None
                },
                FileOutcome::Failed(e) => {
                    &&& final(self).success_count == old(self).success_count
                    &&& final(self).skipped_count == old(self).skipped_count
                    &&& final(self).error_count == old(self).error_count + 1
                    &&& final(self).bytes_copied == old(self).bytes_copied
                    &&& final(self).errors@.drop_last() == old(self).errors@
                    &&& final(self).errors@.last()@ == error_line(op.source_path@, e@)
                    &&& final(self).log_entries@.last().status@ == "error"@
                    &&& final(self).log_entries@.last().error == Some(e)
                    &&& final(self).log_entries@.last().full_hash is None
                },
            },
    {
        let ghost old_entries = self.log_entries@;
        let ghost old_bytes = self.bytes_copied;
        let ghost transferred = outcome is Transferred;
        match outcome {
            FileOutcome::Transferred(h) => {
                self.success_count = self.success_count + 1;
                self.bytes_copied = self.bytes_copied.wrapping_add(op.size);
                let mut e = create_log_entry(
                    op.source_path.as_str(),
                    op.dest_path.as_str(),
                    op.size,
                    crate::logging::clone_opt(&op.hash),
                    crate::logging::clone_opt(&op.capture_date),
                    op.device_name.clone(),
                    "success",
                    None,
                );
                e.full_hash = h;
                self.log_entries.push(e);
            },
            FileOutcome::Skipped => {
                self.skipped_count = self.skipped_count + 1;
                let e = create_log_entry(
                    op.source_path.as_str(),
                    op.dest_path.as_str(),
                    op.size,
                    crate::logging::clone_opt(&op.hash),
                    crate::logging::clone_opt(&op.capture_date),
                    op.device_name.clone(),
                    "skipped",
                    None,
                );
                self.log_entries.push(e);
            },
            FileOutcome::Failed(msg) => {
                self.error_count = self.error_count + 1;
                let mut line = chars_of(op.source_path.as_str());
                push_str(&mut line, ": ");
                push_str(&mut line, msg.as_str());
                self.errors.push(string_from(&line));
                let e = create_log_entry(
                    op.source_path.as_str(),
                    op.dest_path.as_str(),
                    op.size,
                    crate::logging::clone_opt(&op.hash),
                    crate::logging::clone_opt(&op.capture_date),
                    op.device_name.clone(),
                    "error",
                    Some(msg),
                );
                self.log_entries.push(e);
            },
        }
        self.completed = self.completed + 1;
        proof {
            assert(self.log_entries@.drop_last() =~= old_entries);
        }
        proof {
            reveal_strlit("success");
            reveal_strlit("skipped");
            reveal_strlit("error");
            let es = self.log_entries@;
            assert(es.drop_last() == old_entries);
            let m: int = 0x1_0000_0000_0000_0000;
            let t0 = transferred_bytes(old_entries);
            assert(transferred_bytes(es) == t0 + if es.last().status@ == "success"@ {
                es.last().size as nat
            } else {
                0nat
            });
            if transferred {
                assert(es.last().status@ == "success"@);
                assert(self.bytes_copied == (old_bytes + op.size) % m);
                vstd::arithmetic::div_mod::lemma_add_mod_noop(t0 as int, op.size as int, m);
                vstd::arithmetic::div_mod::lemma_small_mod(op.size as nat, m as nat);
                assert(self.bytes_copied == (transferred_bytes(es) as int) % m);
            } else {
                assert("skipped"@[1] != "success"@[1]);
                assert(es.last().status@ != "success"@);
                assert(self.bytes_copied == old_bytes);
            }
        }
    }
}

// ---------------------------------------------------------------------------
// Dispatch under cancel and pause.
// ---------------------------------------------------------------------------

/// What to do about the next operation.
#[derive(Debug, Clone, Copy, PartialEq, Eq, Structural)]
pub enum Dispatch {
    /// Start it.
    Start,
    /// Wait and ask again (paused, or every slot busy).
    Wait,
    /// Start nothing more.
    Stop,
}

/// The most operations in progress at once.
pub const MAX_PARALLEL: usize = 4;

/// Operations handed out so far, of how many, and how many of them have
/// finished.
pub struct Dispatcher {
    pub total: usize,
    pub started: usize,
    pub finished: usize,
    pub stopped: bool,
}

/// Whether a run was stopped before every operation was reached.
pub open spec fn run_cancelled(d: Dispatcher) -> bool {
    d.stopped && d.started < d.total
}

/// One decision about the next operation, as `Dispatcher::decide` makes it:
/// once the run is over nothing starts; a cancel stops the run, whether
/// paused or not; a pause, or every slot busy, waits; otherwise the next
/// operation starts.
pub open spec fn decide_spec(d0: Dispatcher, cancelled: bool, paused: bool, d1: Dispatcher, r: Dispatch) -> bool {
    &&& d1.total == d0.total
    &&& d1.finished == d0.finished
    &&& if d0.stopped || d0.started >= d0.total {
        r == Dispatch::Stop && d1.started == d0.started && d1.stopped == d0.stopped
    } else {
        &&& r == if cancelled {
            Dispatch::Stop
        } else if paused || d0.started - d0.finished >= MAX_PARALLEL {
            Dispatch::Wait
        } else {
            Dispatch::Start
        }
        &&& d1.started == d0.started + if r == Dispatch::Start {
            1int
        } else {
            0int
        }
        &&& d1.stopped == (d0.stopped || cancelled)
    }
}

/// One operation in progress finishing, as `Dispatcher::finish` records it.
pub open spec fn finish_spec(d0: Dispatcher, d1: Dispatcher) -> bool {
    &&& d0.finished < d0.started
    &&& d1 == Dispatcher { finished: (d0.finished + 1) as usize, ..d0 }
}

impl Dispatcher {
    /// No more operations started than there are, no more finished than
    /// started, and never more than `MAX_PARALLEL` in progress.
    pub open spec fn wf(&self) -> bool {
        &&& self.finished <= self.started <= self.total
        &&& self.started - self.finished <= MAX_PARALLEL
    }

    pub fn new(total: usize) -> (r: Self)
        ensures
            r.wf(),
            r.total == total,
            r.started == 0,
            r.finished == 0,
            !r.stopped,
    {
        Dispatcher { total, started: 0, finished: 0, stopped: false }
    }

    /// Whether every operation has been handed out or the run was stopped.
    pub fn is_over(&self) -> (r: bool)
        ensures
            r == (self.stopped || self.started >= self.total),
    {
        self.stopped || self.started >= self.total
    }

    /// How many operations are in progress.
    pub fn in_flight(&self) -> (r: usize)
        requires
            self.wf(),
        ensures
            r == self.started - self.finished,
    {
        self.started - self.finished
    }

    /// Decides about the next operation (see `decide_spec`).
    pub fn decide(&mut self, cancelled: bool, paused: bool) -> (r: Dispatch)
        requires
            old(self).wf(),
        ensures
            final(self).wf(),
            decide_spec(*old(self), cancelled, paused, *final(self), r),
    {
        if self.stopped || self.started >= self.total {
            return Dispatch::Stop;
        }
        if cancelled {
            self.stopped = true;
            Dispatch::Stop
        } else if paused || self.started - self.finished >= MAX_PARALLEL {
            Dispatch::Wait
        } else {
            self.started = self.started + 1;
            Dispatch::Start
        }
    }

    /// Records that one operation in progress has finished.
    pub fn finish(&mut self)
        requires
            old(self).wf(),
            old(self).finished < old(self).started,
        ensures
            final(self).wf(),
            finish_spec(*old(self), *final(self)),
    {
        self.finished = self.finished + 1;
    }

    /// Operations never started.
    pub fn remaining(&self) -> (r: usize)
        requires
            self.wf(),
        ensures
            r + self.started == self.total,
    {
        self.total - self.started
    }
}

/// One step of a run's dispatch: a decision with the cancel and pause flags
/// it saw and what it answered, or an operation finishing.
pub enum DispatchStep {
    Decided { cancelled: bool, paused: bool, answer: Dispatch },
    Finished,
}

/// `ds` are the dispatcher's states around the steps `steps`, each step as
/// `decide` or `finish` makes it.
pub open spec fn dispatch_trace(ds: Seq<Dispatcher>, steps: Seq<DispatchStep>) -> bool {
    &&& ds.len() == steps.len() + 1
    &&& forall|i: int|
        0 <= i < steps.len() ==> match #[trigger] steps[i] {
            DispatchStep::Decided { cancelled, paused, answer } => decide_spec(
                ds[i],
                cancelled,
                paused,
                ds[i + 1],
                answer,
            ),
            DispatchStep::Finished => finish_spec(ds[i], ds[i + 1]),
        }
}

pub open spec fn dispatch_over(d: Dispatcher) -> bool {
    d.stopped || d.started >= d.total
}

proof fn lemma_stays_over(ds: Seq<Dispatcher>, steps: Seq<DispatchStep>, k: int, j: int)
    requires
        dispatch_trace(ds, steps),
        0 <= k <= j < ds.len(),
        dispatch_over(ds[k]),
    ensures
        dispatch_over(ds[j]),
        ds[j].started == ds[k].started,
    decreases j - k,
{
    if j > k {
        lemma_stays_over(ds, steps, k, j - 1);
        let _ = steps[j - 1];
    }
}

/// A run dispatched from a fresh dispatcher never has more than
/// `MAX_PARALLEL` operations in progress, and never starts more operations
/// than it has or finishes more than it started.
pub proof fn lemma_dispatch_is_bounded(ds: Seq<Dispatcher>, steps: Seq<DispatchStep>)
    requires
        dispatch_trace(ds, steps),
        ds[0].started == 0,
        ds[0].finished == 0,
    ensures
        forall|j: int| 0 <= j < ds.len() ==> #[trigger] ds[j].wf(),
{
    assert forall|j: int| 0 <= j < ds.len() implies #[trigger] ds[j].wf() by {
        lemma_trace_wf(ds, steps, j);
    }
}

/// No operation starts after a decision that saw a cancel.
pub proof fn lemma_nothing_starts_after_cancel(ds: Seq<Dispatcher>, steps: Seq<DispatchStep>, k: int)
    requires
        dispatch_trace(ds, steps),
        0 <= k < steps.len(),
        steps[k] matches DispatchStep::Decided { cancelled: true, .. },
    ensures
        forall|j: int|
            k <= j < steps.len() ==> !(#[trigger] steps[j] matches DispatchStep::Decided {
                answer: Dispatch::Start,
                ..
            }),
        forall|j: int| k < j < ds.len() ==> #[trigger] ds[j].started == ds[k].started,
{
    assert(dispatch_over(ds[k + 1]) && ds[k + 1].started == ds[k].started) by {
        let _ = steps[k];
    }
    assert forall|j: int| k <= j < steps.len() implies !(#[trigger] steps[j] matches DispatchStep::Decided {
        answer: Dispatch::Start,
        ..
    }) by {
        if j > k {
            lemma_stays_over(ds, steps, k + 1, j);
        }
        let _ = steps[j];
    }
    assert forall|j: int| k < j < ds.len() implies #[trigger] ds[j].started == ds[k].started by {
        lemma_stays_over(ds, steps, k + 1, j);
    }
}

proof fn lemma_trace_wf(ds: Seq<Dispatcher>, steps: Seq<DispatchStep>, j: int)
    requires
        dispatch_trace(ds, steps),
        ds[0].started == 0,
        ds[0].finished == 0,
        0 <= j < ds.len(),
    ensures
        ds[j].wf(),
    decreases j,
{
    if j > 0 {
        lemma_trace_wf(ds, steps, j - 1);
        let _ = steps[j - 1];
    }
}

/// When a run ends, with every operation it started finished and recorded,
/// every operation is accounted for once: each started one as a success, a
/// skip or an error with one log entry, each other one as never started;
/// and a run that was not cancelled reached them all.
pub proof fn lemma_finished_run_accounts_for_every_operation(tally: RunTally, d: Dispatcher)
    requires
        tally.wf(),
        d.wf(),
        d.stopped || d.started == d.total,
        tally.completed == d.started,
    ensures
        tally.success_count + tally.skipped_count + tally.error_count + (d.total - d.started)
            == d.total,
        tally.log_entries@.len() == d.started,
        !run_cancelled(d) ==> tally.log_entries@.len() == d.total && tally.success_count
            + tally.skipped_count + tally.error_count == d.total,
        transferred_bytes(tally.log_entries@) <= u64::MAX ==> tally.bytes_copied
            == transferred_bytes(tally.log_entries@),
{
    if transferred_bytes(tally.log_entries@) <= u64::MAX {
        vstd::arithmetic::div_mod::lemma_small_mod(
            transferred_bytes(tally.log_entries@),
            0x1_0000_0000_0000_0000,
        );
    }
}

/// How the run ended: its counts and errors, where its log went, and, when
/// it was stopped before every operation was reached, how many never
/// started. Every operation is counted once: as a success, a skip, an error
/// or as never started.
pub fn run_result(tally: RunTally, log_path: String, dispatcher: &Dispatcher) -> (r: IngestResult)
    requires
        dispatcher.wf(),
        dispatcher.stopped || dispatcher.started == dispatcher.total,
        tally.wf(),
        tally.completed == dispatcher.started,
    ensures
        r.success_count == tally.success_count,
        r.skipped_count == tally.skipped_count,
        r.error_count == tally.error_count,
        r.errors == tally.errors,
        r.log_path == log_path,
        r.cancelled == run_cancelled(*dispatcher),
        r.remaining_count + dispatcher.started == dispatcher.total,
        r.success_count + r.skipped_count + r.error_count + r.remaining_count == dispatcher.total,
        !r.cancelled ==> r.remaining_count == 0,
{
    let remaining = dispatcher.remaining();
    IngestResult {
        success_count: tally.success_count,
        skipped_count: tally.skipped_count,
        error_count: tally.error_count,
        errors: tally.errors,
        log_path,
        cancelled: dispatcher.stopped && dispatcher.started < dispatcher.total,
        remaining_count: remaining,
    }
}

// ---------------------------------------------------------------------------
// Progress events.
// ---------------------------------------------------------------------------

pub open spec fn event_is(
    e: ProgressEvent,
    file: Seq<char>,
    index: usize,
    total: usize,
    bytes: u64,
    total_bytes: u64,
    file_bytes: u64,
    file_total: u64,
    elapsed: u64,
    status: Seq<char>,
) -> bool {
    &&& e.current_file@ == file
    &&& e.current_index == index
    &&& e.total == total
    &&& e.bytes_copied == bytes
    &&& e.total_bytes == total_bytes
    &&& e.current_file_bytes == file_bytes
    &&& e.current_file_total == file_total
    &&& e.elapsed_secs == elapsed
    &&& e.status@ == status
}

fn event(
    file: &str,
    index: usize,
    total: usize,
    bytes: u64,
    total_bytes: u64,
    file_bytes: u64,
    file_total: u64,
    elapsed: u64,
    status: &str,
) -> (r: ProgressEvent)
    ensures
        event_is(r, file@, index, total, bytes, total_bytes, file_bytes, file_total, elapsed, status@),
{
    ProgressEvent {
        current_file: string_from(&chars_of(file)),
        current_index: index,
        total,
        bytes_copied: bytes,
        total_bytes,
        current_file_bytes: file_bytes,
        current_file_total: file_total,
        elapsed_secs: elapsed,
        status: string_from(&chars_of(status)),
    }
}

/// The event sent before anything starts.
pub fn starting_event(total: usize, total_bytes: u64) -> (r: ProgressEvent)
    ensures
        event_is(r, "Starting..."@, 0, total, 0, total_bytes, 0, 0, 0, "starting"@),
{
    event("Starting...", 0, total, 0, total_bytes, 0, 0, 0, "starting")
}

/// The size shown for the file in hand: its size when it is transferred,
/// 0 when nothing is written.
pub open spec fn shown_size(op: IngestOperation) -> u64 {
    if is_transfer(action_kind_spec(op.action@)) {
        op.size
    } else {
        0
    }
}

fn shown_size_of(op: &IngestOperation) -> (r: u64)
    ensures
        r == shown_size(*op),
{
    let k = action_kind(op.action.as_str());
    if k == ActionKind::Copy || k == ActionKind::Move {
        op.size
    } else {
        0
    }
}

/// The event sent when an operation starts.
pub fn file_started_event(
    op: &IngestOperation,
    completed: usize,
    total: usize,
    bytes_copied: u64,
    total_bytes: u64,
    elapsed: u64,
) -> (r: ProgressEvent)
    ensures
        event_is(
            r,
            op.source_path@,
            completed,
            total,
            bytes_copied,
            total_bytes,
            0,
            shown_size(*op),
            elapsed,
            "processing"@,
        ),
{
    let size = shown_size_of(op);
    event(
        op.source_path.as_str(),
        completed,
        total,
        bytes_copied,
        total_bytes,
        0,
        size,
        elapsed,
        "processing",
    )
}

/// The event sent while a copy is being verified, with the bytes hashed so
/// far.
pub fn verifying_event(
    op: &IngestOperation,
    completed: usize,
    total: usize,
    bytes_copied: u64,
    total_bytes: u64,
    hashed: u64,
    elapsed: u64,
) -> (r: ProgressEvent)
    ensures
        event_is(
            r,
            op.source_path@,
            completed,
            total,
            bytes_copied,
            total_bytes,
            hashed,
            op.size,
            elapsed,
            "verifying"@,
        ),
{
    event(
        op.source_path.as_str(),
        completed,
        total,
        bytes_copied,
        total_bytes,
        hashed,
        op.size,
        elapsed,
        "verifying",
    )
}

/// The event sent when an operation ends, with the count of finished
/// operations.
pub fn file_done_event(
    op: &IngestOperation,
    done: usize,
    total: usize,
    bytes_copied: u64,
    total_bytes: u64,
    elapsed: u64,
) -> (r: ProgressEvent)
    ensures
        event_is(
            r,
            op.source_path@,
            done,
            total,
            bytes_copied,
            total_bytes,
            shown_size(*op),
            shown_size(*op),
            elapsed,
            "processing"@,
        ),
        bytes_copied <= total_bytes ==> r.bytes_copied <= total_bytes,
{
    let size = shown_size_of(op);
    event(
        op.source_path.as_str(),
        done,
        total,
        bytes_copied,
        total_bytes,
        size,
        size,
        elapsed,
        "processing",
    )
}

/// The event sent when the run is over.
pub fn complete_event(total: usize, bytes_copied: u64, total_bytes: u64, elapsed: u64) -> (r:
    ProgressEvent)
    ensures
        event_is(r, "Complete"@, total, total, bytes_copied, total_bytes, 0, 0, elapsed, "complete"@),
{
    event("Complete", total, total, bytes_copied, total_bytes, 0, 0, elapsed, "complete")
}

/// The event that ends a run: `complete` when every operation was reached,
/// otherwise `cancelled`, with how many operations finished. A cancelled run
/// never claims to be complete.
pub fn final_event(
    dispatcher: &Dispatcher,
    completed: usize,
    bytes_copied: u64,
    total_bytes: u64,
    elapsed: u64,
) -> (r: ProgressEvent)
    ensures
        run_cancelled(*dispatcher) ==> event_is(
            r,
            "Cancelled"@,
            completed,
            dispatcher.total,
            bytes_copied,
            total_bytes,
            0,
            0,
            elapsed,
            "cancelled"@,
        ),
        !run_cancelled(*dispatcher) ==> event_is(
            r,
            "Complete"@,
            dispatcher.total,
            dispatcher.total,
            bytes_copied,
            total_bytes,
            0,
            0,
            elapsed,
            "complete"@,
        ),
{
    if dispatcher.stopped && dispatcher.started < dispatcher.total {
        event("Cancelled", completed, dispatcher.total, bytes_copied, total_bytes, 0, 0, elapsed, "cancelled")
    } else {
        complete_event(dispatcher.total, bytes_copied, total_bytes, elapsed)
    }
}

/// A file being transferred: its source, the bytes written so far, and its
/// size.
#[derive(Debug, Clone)]
pub struct InFlight {
    pub path: String,
    pub written: u64,
    pub size: u64,
}

/// The bytes written so far by the files in flight, held at `u64::MAX`.
pub open spec fn live_bytes(fs: Seq<InFlight>) -> nat
    decreases fs.len(),
{
    if fs.len() == 0 {
        0
    } else {
        live_bytes(fs.drop_last()) + fs.last().written as nat
    }
}

pub open spec fn cap(n: int) -> u64 {
    if n > u64::MAX {
        u64::MAX
    } else {
        n as u64
    }
}

/// The periodic event while files are in flight: the largest of them is
/// the one shown, as it is the one the user is waiting on (the last of
/// equals, as `max_by_key` picks), and the bytes are those of finished
/// files plus those written so far. `None` when nothing is in flight.
pub fn tick_event(
    in_flight: &Vec<InFlight>,
    completed: usize,
    total: usize,
    completed_bytes: u64,
    total_bytes: u64,
    elapsed: u64,
) -> (r: Option<ProgressEvent>)
    ensures
        in_flight@.len() == 0 <==> r is None,
        match r {
            Some(e) => exists|k: int|
                {
                    &&& 0 <= k < in_flight@.len()
                    &&& forall|j: int|
                        0 <= j < in_flight@.len() ==> (#[trigger] in_flight@[j]).size
                            <= in_flight@[k].size
                    &&& forall|j: int|
                        k < j < in_flight@.len() ==> (#[trigger] in_flight@[j]).size
                            < in_flight@[k].size
                    &&& event_is(
                        e,
                        in_flight@[k].path@,
                        completed,
                        total,
                        cap(completed_bytes + live_bytes(in_flight@)),
                        total_bytes,
                        in_flight@[k].written,
                        in_flight@[k].size,
                        elapsed,
                        "processing"@,
                    )
                },
            None => true,
        },
        completed_bytes + live_bytes(in_flight@) <= total_bytes ==> match r {
            Some(e) => e.bytes_copied <= total_bytes,
            None => true,
        },
{
    if in_flight.len() == 0 {
        return None;
    }
    let mut best: usize = 0;
    let mut live: u64 = completed_bytes;
    let mut i: usize = 0;
    assert(in_flight@.take(0) =~= Seq::<InFlight>::empty());
    while i < in_flight.len()
        invariant
            i <= in_flight@.len(),
            in_flight@.len() > 0,
            best < in_flight@.len(),
            i > 0 ==> best < i,
            i == 0 ==> best == 0,
            forall|j: int| 0 <= j < i ==> (#[trigger] in_flight@[j]).size <= in_flight@[best as int].size,
            forall|j: int| best < j < i ==> (#[trigger] in_flight@[j]).size < in_flight@[best as int].size,
            live == cap(completed_bytes + live_bytes(in_flight@.take(i as int))),
        decreases in_flight@.len() - i,
    {
        proof {
            assert(in_flight@.take(i + 1).drop_last() =~= in_flight@.take(i as int));
        }
        if in_flight[i].size >= in_flight[best].size {
            best = i;
        }
        live = match live.checked_add(in_flight[i].written) {
            Some(v) => v,
            None => u64::MAX,
        };
        i = i + 1;
    }
    assert(in_flight@.take(i as int) =~= in_flight@);
    let f = &in_flight[best];
    Some(
        event(
            f.path.as_str(),
            completed,
            total,
            live,
            total_bytes,
            f.written,
            f.size,
            elapsed,
            "processing",
        ),
    )
}

} // verus!
