//! Compressing a file where it is: detect, gate, apply, check, roll back.
//!
//! The library decides and the caller acts: each [`Step`] names the one thing to do
//! next, and [`Step::next`] takes what came of it.

use vstd::prelude::*;

use crate::backend::{allocated, compressed_on_disk, detect, flagged, is_already_compressed,
    law_signal_by_flag_or_extent, on_disk_bytes, signalled, volume_support, Allocation, FileFlags, Signal, Volume};
use crate::outcome::{classify_outcome, classify_skip, outcome_of, skip_reason, Error, IoFailure,
    Outcome, SkipReason, Support};
use crate::platform::Host;

verus! {

/// What is to be done next.
#[derive(Debug)]
pub enum Step {
    /// See whether the file exists.
    CheckExists { path: String },
    /// Ask for the volume that the file is on.
    AskVolume,
    /// Read the file's flags.
    ReadFlags,
    /// Measure the file, which is compressed already.
    MeasureOnly,
    /// Measure the file before anything is done to it.
    MeasureBefore,
    /// Read the file's first four bytes.
    ReadMagic { before: u64 },
    /// Read the whole file, for a rollback.
    Snapshot { before: u64, magic: [u8; 4] },
    /// Apply compression.
    Apply { before: u64, magic: [u8; 4], snapshot: Vec<u8> },
    /// Read the file's first four bytes again.
    RereadMagic { before: u64, magic: [u8; 4], snapshot: Vec<u8> },
    /// Write the snapshot back, as well as that goes. With the error, if there is one,
    /// that kept the file from being read.
    Restore { before: u64, snapshot: Vec<u8>, error: Option<Error> },
    /// Measure the compressed file.
    MeasureAfter { before: u64 },
    /// Ask whether compression took.
    ReadSignal { before: u64, after: u64 },
    /// Nothing more.
    Done(Result<Outcome, Error>),
}

/// What came of a step.
#[derive(Debug)]
pub enum Report {
    Exists(bool),
    Volume(Result<Volume, Error>),
    Flags(Result<FileFlags, Error>),
    Size(Result<Allocation, Error>),
    Magic(Result<[u8; 4], Error>),
    Bytes(Result<Vec<u8>, IoFailure>),
    Applied(Result<(), Error>),
    Restored,
    Signal(Result<Signal, Error>),
}

/// The size that a measurement gave.
pub open spec fn measured(size: Result<Allocation, Error>) -> Result<u64, Error> {
    match size {
        Ok(allocation) => allocated(allocation),
        Err(e) => Err(e),
    }
}

/// What a failure comes to: a permission, a read-only or busy file, or one that is too
/// large is skipped; anything else is an error.
pub open spec fn failed(host: Host, e: Error) -> Result<Outcome, Error> {
    match e {
        Error::Io { context, source } => match skip_reason(
            host,
            source.kind,
            source.raw_os_error,
        ) {
            Some(reason) => Ok(Outcome::Skipped { reason }),
            None => Err(e),
        },
        Error::NotFound(_) => Err(e),
    }
}

/// What follows once the volume is known.
pub open spec fn after_volume(support: Support) -> Step {
    match support {
        Support::Unsupported(reason) => Step::Done(Ok(Outcome::Unsupported { reason })),
        Support::AlreadyCompressed => Step::MeasureOnly,
        Support::Supported => Step::ReadFlags,
    }
}

/// The step that follows a report. A report on another step changes nothing. A file
/// that does not load, or cannot be read, once compression was applied is rolled back.
pub open spec fn step_after(host: Host, step: Step, report: Report) -> Step {
    match (step, report) {
        (Step::CheckExists { path }, Report::Exists(exists)) => if exists {
            Step::AskVolume
        } else {
            Step::Done(Err(Error::NotFound(path)))
        },
        (Step::AskVolume, Report::Volume(Ok(volume))) => after_volume(volume_support(volume)),
        (Step::AskVolume, Report::Volume(Err(e))) => Step::Done(failed(host, e)),
        (Step::ReadFlags, Report::Flags(Ok(flags))) => if flagged(flags) {
            Step::MeasureOnly
        } else {
            Step::MeasureBefore
        },
        (Step::ReadFlags, Report::Flags(Err(e))) => Step::Done(failed(host, e)),
        (Step::MeasureOnly, Report::Size(size)) => match measured(size) {
            Ok(before) => Step::Done(Ok(Outcome::AlreadyCompressed { before })),
            Err(e) => Step::Done(failed(host, e)),
        },
        (Step::MeasureBefore, Report::Size(size)) => match measured(size) {
            Ok(before) => Step::ReadMagic { before },
            Err(e) => Step::Done(failed(host, e)),
        },
        (Step::ReadMagic { before }, Report::Magic(Ok(magic))) => Step::Snapshot { before, magic },
        (Step::ReadMagic { before }, Report::Magic(Err(e))) => Step::Done(failed(host, e)),
        (Step::Snapshot { before, magic }, Report::Bytes(Ok(snapshot))) => Step::Apply {
            before,
            magic,
            snapshot,
        },
        (Step::Snapshot { before, magic }, Report::Bytes(Err(source))) => Step::Done(
            failed(host, Error::Io { context: "snapshot", source }),
        ),
        (Step::Apply { before, magic, snapshot }, Report::Applied(Ok(_))) => Step::RereadMagic {
            before,
            magic,
            snapshot,
        },
        (Step::Apply { before, magic, snapshot }, Report::Applied(Err(e))) => Step::Done(
            failed(host, e),
        ),
        (Step::RereadMagic { before, magic, snapshot }, Report::Magic(Ok(now))) => if now@
            == magic@ {
            Step::MeasureAfter { before }
        } else {
            Step::Restore { before, snapshot, error: None }
        },
        (Step::RereadMagic { before, magic, snapshot }, Report::Magic(Err(e))) => Step::Restore {
            before,
            snapshot,
            error: Some(e),
        },
        (Step::Restore { before, snapshot, error }, Report::Restored) => match error {
            None => Step::Done(Ok(outcome_of(false, before, before, None))),
            Some(e) => Step::Done(failed(host, e)),
        },
        (Step::MeasureAfter { before }, Report::Size(size)) => match measured(size) {
            Ok(after) => Step::ReadSignal { before, after },
            Err(e) => Step::Done(failed(host, e)),
        },
        (Step::ReadSignal { before, after }, Report::Signal(Ok(signal))) => Step::Done(
            Ok(outcome_of(true, before, after, signalled(signal))),
        ),
        (Step::ReadSignal { before, after }, Report::Signal(Err(e))) => Step::Done(
            failed(host, e),
        ),
        _ => step,
    }
}

/// Whether two magics are the same.
fn same_magic(a: &[u8; 4], b: &[u8; 4]) -> (r: bool)
    ensures
        r == (a@ == b@),
{
    let r: bool = a[0] == b[0] && a[1] == b[1] && a[2] == b[2] && a[3] == b[3];
    proof {
        if r {
            assert(a@ =~= b@);
        }
    }
    r
}

/// What a failure comes to.
fn classify_failure(host: Host, e: Error) -> (r: Result<Outcome, Error>)
    ensures
        r == failed(host, e),
{
    match e {
        Error::Io { context, source } => match classify_skip(host, &source) {
            Some(reason) => Ok(Outcome::Skipped { reason }),
            None => Err(Error::Io { context, source }),
        },
        Error::NotFound(path) => Err(Error::NotFound(path)),
    }
}

/// The size that a measurement gave.
fn measure(size: Result<Allocation, Error>) -> (r: Result<u64, Error>)
    ensures
        r == measured(size),
{
    match size {
        Ok(allocation) => on_disk_bytes(allocation),
        Err(e) => Err(e),
    }
}

/// Starts to compress a file: detect, gate, apply, check, and roll back on failure.
pub fn compress_file(path: String) -> (r: Step)
    ensures
        r == (Step::CheckExists { path }),
{
    Step::CheckExists { path }
}

impl Step {
    /// The step that follows a report on this one.
    pub fn next(self, host: Host, report: Report) -> (r: Step)
        ensures
            r == step_after(host, self, report),
    {
        match (self, report) {
            (Step::CheckExists { path }, Report::Exists(exists)) => if exists {
                Step::AskVolume
            } else {
                Step::Done(Err(Error::NotFound(path)))
            },
            (Step::AskVolume, Report::Volume(Ok(volume))) => match detect(&volume) {
                Support::Unsupported(reason) => Step::Done(Ok(Outcome::Unsupported { reason })),
                Support::AlreadyCompressed => Step::MeasureOnly,
                Support::Supported => Step::ReadFlags,
            },
            (Step::AskVolume, Report::Volume(Err(e))) => Step::Done(classify_failure(host, e)),
            (Step::ReadFlags, Report::Flags(Ok(flags))) => if is_already_compressed(flags) {
                Step::MeasureOnly
            } else {
                Step::MeasureBefore
            },
            (Step::ReadFlags, Report::Flags(Err(e))) => Step::Done(classify_failure(host, e)),
            (Step::MeasureOnly, Report::Size(size)) => match measure(size) {
                Ok(before) => Step::Done(Ok(Outcome::AlreadyCompressed { before })),
                Err(e) => Step::Done(classify_failure(host, e)),
            },
            (Step::MeasureBefore, Report::Size(size)) => match measure(size) {
                Ok(before) => Step::ReadMagic { before },
                Err(e) => Step::Done(classify_failure(host, e)),
            },
            (Step::ReadMagic { before }, Report::Magic(Ok(magic))) => Step::Snapshot {
                before,
                magic,
            },
            (Step::ReadMagic { before: _ }, Report::Magic(Err(e))) => Step::Done(
                classify_failure(host, e),
            ),
            (Step::Snapshot { before, magic }, Report::Bytes(Ok(snapshot))) => Step::Apply {
                before,
                magic,
                snapshot,
            },
            (Step::Snapshot { before: _, magic: _ }, Report::Bytes(Err(source))) => Step::Done(
                classify_failure(host, Error::Io { context: "snapshot", source }),
            ),
            (Step::Apply { before, magic, snapshot }, Report::Applied(Ok(_))) => Step::RereadMagic {
                before,
                magic,
                snapshot,
            },
            (
                Step::Apply { before: _, magic: _, snapshot: _ },
                Report::Applied(Err(e)),
            ) => Step::Done(classify_failure(host, e)),
            (Step::RereadMagic { before, magic, snapshot }, Report::Magic(Ok(now))) =>
                if same_magic(&now, &magic) {
                    Step::MeasureAfter { before }
                } else {
                    Step::Restore { before, snapshot, error: None }
                },
            (Step::RereadMagic { before, magic: _, snapshot }, Report::Magic(Err(e))) =>
                Step::Restore { before, snapshot, error: Some(e) },
            (Step::Restore { before, snapshot: _, error }, Report::Restored) => match error {
                None => Step::Done(Ok(classify_outcome(false, before, before, None))),
                Some(e) => Step::Done(classify_failure(host, e)),
            },
            (Step::MeasureAfter { before }, Report::Size(size)) => match measure(size) {
                Ok(after) => Step::ReadSignal { before, after },
                Err(e) => Step::Done(classify_failure(host, e)),
            },
            (Step::ReadSignal { before, after }, Report::Signal(Ok(signal))) => Step::Done(
                Ok(classify_outcome(true, before, after, compressed_on_disk(&signal))),
            ),
            (Step::ReadSignal { before: _, after: _ }, Report::Signal(Err(e))) => Step::Done(
                classify_failure(host, e),
            ),
            (step, _) => step,
        }
    }
}

/// The system that a file is on, and everything that can come of the steps, one answer
/// for each.
pub struct World {
    pub host: Host,
    pub exists: bool,
    pub volume: Result<Volume, Error>,
    pub flags: Result<FileFlags, Error>,
    pub size_before: Result<Allocation, Error>,
    pub magic_before: Result<[u8; 4], Error>,
    pub snapshot: Result<Vec<u8>, IoFailure>,
    pub applied: Result<(), Error>,
    pub magic_after: Result<[u8; 4], Error>,
    pub size_after: Result<Allocation, Error>,
    pub signal: Result<Signal, Error>,
}

/// What comes of a step.
pub open spec fn reply(w: World, step: Step) -> Report {
    match step {
        Step::CheckExists { path } => Report::Exists(w.exists),
        Step::AskVolume => Report::Volume(w.volume),
        Step::ReadFlags => Report::Flags(w.flags),
        Step::MeasureOnly => Report::Size(w.size_before),
        Step::MeasureBefore => Report::Size(w.size_before),
        Step::ReadMagic { before } => Report::Magic(w.magic_before),
        Step::Snapshot { before, magic } => Report::Bytes(w.snapshot),
        Step::Apply { before, magic, snapshot } => Report::Applied(w.applied),
        Step::RereadMagic { before, magic, snapshot } => Report::Magic(w.magic_after),
        Step::Restore { before, snapshot, error } => Report::Restored,
        Step::MeasureAfter { before } => Report::Size(w.size_after),
        Step::ReadSignal { before, after } => Report::Signal(w.signal),
        Step::Done(result) => Report::Restored,
    }
}

/// The step reached after `n` more.
pub open spec fn after_steps(w: World, step: Step, n: nat) -> Step
    decreases n,
{
    if n == 0 {
        step
    } else {
        let before = after_steps(w, step, (n - 1) as nat);
        step_after(w.host, before, reply(w, before))
    }
}

/// The file still starts with what it started with, once compression was applied.
pub open spec fn still_loads(w: World) -> bool {
    w.magic_before matches Ok(magic) && w.magic_after matches Ok(now) && now@ == magic@
}

/// A file that exists, is on a volume that compresses, is not compressed, and could be
/// measured and read: compression is applied to it.
pub open spec fn is_applied(w: World) -> bool {
    &&& w.exists
    &&& w.volume matches Ok(volume) && volume_support(volume) == Support::Supported
    &&& w.flags matches Ok(flags) && !flagged(flags)
    &&& measured(w.size_before) is Ok
    &&& w.magic_before is Ok
    &&& w.snapshot is Ok
}

/// The failure of the first operation that fails, if one does.
pub open spec fn first_failure(path: String, w: World) -> Option<Error> {
    if !w.exists {
        Some(Error::NotFound(path))
    } else {
        match w.volume {
            Err(e) => Some(e),
            Ok(volume) => match volume_support(volume) {
                Support::Unsupported(reason) => None,
                Support::AlreadyCompressed => measured(w.size_before).err(),
                Support::Supported => match w.flags {
                    Err(e) => Some(e),
                    Ok(flags) => if flagged(flags) || measured(w.size_before) is Err {
                        measured(w.size_before).err()
                    } else {
                        apply_failure(w)
                    },
                },
            },
        }
    }
}

/// The failure of the first operation that fails, from the first look into the file on.
pub open spec fn apply_failure(w: World) -> Option<Error> {
    match (w.magic_before, w.snapshot, w.applied) {
        (Err(e), _, _) => Some(e),
        (_, Err(source), _) => Some(Error::Io { context: "snapshot", source }),
        (_, _, Err(e)) => Some(e),
        (Ok(_), Ok(_), Ok(_)) => match w.magic_after {
            Err(e) => Some(e),
            Ok(_) => if !still_loads(w) {
                None
            } else {
                match (measured(w.size_after), w.signal) {
                    (Err(e), _) => Some(e),
                    (_, Err(e)) => Some(e),
                    _ => None,
                }
            },
        },
    }
}

/// What compressing a file comes to: what the first failure comes to; without one, by
/// the volume, the flags, the magic, and the signal or the sizes.
pub open spec fn compressed_outcome(path: String, w: World) -> Result<Outcome, Error> {
    match first_failure(path, w) {
        Some(e) => failed(w.host, e),
        None => match (volume_support(w.volume->Ok_0), measured(w.size_before)) {
            (Support::Unsupported(reason), _) => Ok(Outcome::Unsupported { reason }),
            (Support::AlreadyCompressed, size) => Ok(
                Outcome::AlreadyCompressed { before: size->Ok_0 },
            ),
            (Support::Supported, size) => if flagged(w.flags->Ok_0) {
                Ok(Outcome::AlreadyCompressed { before: size->Ok_0 })
            } else if !still_loads(w) {
                Ok(Outcome::Skipped { reason: SkipReason::NotLoadable })
            } else {
                Ok(
                    outcome_of(
                        true,
                        size->Ok_0,
                        measured(w.size_after)->Ok_0,
                        signalled(w.signal->Ok_0),
                    ),
                )
            },
        },
    }
}

/// A file that is taken through all the steps ends with what the answers come to.
pub proof fn law_steps_lead_to_outcome(path: String, w: World)
    ensures
        after_steps(w, Step::CheckExists { path }, 10) == Step::Done(compressed_outcome(path, w)),
{
    let start = Step::CheckExists { path };
    lemma_six_steps(path, w);
    let six = after_steps(w, start, 6);
    if six is Done {
        lemma_stays_done(w, start, 6, 10);
    } else {
        reveal_with_fuel(after_steps, 5);
        let seven = after_steps(w, start, 7);
        assert(seven == step_after(w.host, six, reply(w, six)));
        let eight = after_steps(w, start, 8);
        assert(eight == step_after(w.host, seven, reply(w, seven)));
        let nine = after_steps(w, start, 9);
        assert(nine == step_after(w.host, eight, reply(w, eight)));
        let ten = after_steps(w, start, 10);
        assert(ten == step_after(w.host, nine, reply(w, nine)));
    }
}

/// A run that is done after `m` steps is done in the same way after more.
proof fn lemma_stays_done(w: World, step: Step, m: nat, n: nat)
    requires
        m <= n,
        after_steps(w, step, m) is Done,
    ensures
        after_steps(w, step, n) == after_steps(w, step, m),
    decreases n,
{
    if m < n {
        lemma_stays_done(w, step, m, (n - 1) as nat);
    }
}

/// After six steps a run is done, or it is about to apply compression to a file
/// that is to be compressed.
proof fn lemma_six_steps(path: String, w: World)
    ensures
        ({
            let six = after_steps(w, Step::CheckExists { path }, 6);
            if is_applied(w) {
                &&& six matches Step::Apply { before, magic, snapshot } && measured(w.size_before)
                    == Ok::<u64, Error>(before) && w.magic_before == Ok::<[u8; 4], Error>(magic)
                    && w.snapshot == Ok::<Vec<u8>, IoFailure>(snapshot)
                &&& first_failure(path, w) == apply_failure(w)
            } else {
                six == Step::Done(compressed_outcome(path, w))
            }
        }),
        forall|n: nat|
            n < 6 ==> {
                let step = #[trigger] after_steps(w, Step::CheckExists { path }, n);
                step !is Apply && step !is Restore
            },
{
    let start = Step::CheckExists { path };
    let three = after_steps(w, start, 3);
    lemma_three_steps(path, w);
    let four = after_steps(w, start, 4);
    assert(four == step_after(w.host, three, reply(w, three)));
    let five = after_steps(w, start, 5);
    assert(five == step_after(w.host, four, reply(w, four)));
    let six = after_steps(w, start, 6);
    assert(six == step_after(w.host, five, reply(w, five)));
    assert forall|n: nat| n < 6 implies {
        let step = #[trigger] after_steps(w, start, n);
        step !is Apply && step !is Restore
    } by {
        assert(n == 0 || n == 1 || n == 2 || n == 3 || n == 4 || n == 5);
    }
}

/// After three steps a run is done, or it is about to measure a file.
proof fn lemma_three_steps(path: String, w: World)
    ensures
        ({
            let start = Step::CheckExists { path };
            let three = after_steps(w, start, 3);
            let support = volume_support(w.volume->Ok_0);
            &&& after_steps(w, start, 0) is CheckExists
            &&& after_steps(w, start, 1) is AskVolume || after_steps(w, start, 1) is Done
            &&& after_steps(w, start, 2) is ReadFlags || after_steps(w, start, 2) is MeasureOnly
                || after_steps(w, start, 2) is Done
            &&& if !w.exists || w.volume is Err || support is Unsupported || support
                == Support::AlreadyCompressed || w.flags is Err {
                three == Step::Done(compressed_outcome(path, w))
            } else {
                &&& support == Support::Supported
                &&& three == if flagged(w.flags->Ok_0) {
                    Step::MeasureOnly
                } else {
                    Step::MeasureBefore
                }
            }
        }),
{
    reveal_with_fuel(after_steps, 4);
}

/// A run that is not done has taken fewer than ten steps.
proof fn lemma_within_ten(path: String, w: World, n: nat)
    ensures
        n >= 10 ==> after_steps(w, Step::CheckExists { path }, n) is Done,
{
    law_steps_lead_to_outcome(path, w);
    if n >= 10 {
        lemma_stays_done(w, Step::CheckExists { path }, 10, n);
    }
}

/// Where a run stands from the sixth step on, if compression is applied.
proof fn lemma_later_steps(path: String, w: World)
    requires
        is_applied(w),
    ensures
        ({
            let start = Step::CheckExists { path };
            let seven = after_steps(w, start, 7);
            let eight = after_steps(w, start, 8);
            &&& after_steps(w, start, 6) is Apply
            &&& seven == if w.applied is Ok {
                Step::RereadMagic {
                    before: measured(w.size_before)->Ok_0,
                    magic: w.magic_before->Ok_0,
                    snapshot: w.snapshot->Ok_0,
                }
            } else {
                Step::Done(compressed_outcome(path, w))
            }
            &&& eight == if w.applied is Err {
                Step::Done(compressed_outcome(path, w))
            } else if still_loads(w) {
                Step::MeasureAfter { before: measured(w.size_before)->Ok_0 }
            } else {
                Step::Restore {
                    before: measured(w.size_before)->Ok_0,
                    snapshot: w.snapshot->Ok_0,
                    error: w.magic_after.err(),
                }
            }
            &&& after_steps(w, start, 9) is ReadSignal || after_steps(w, start, 9) is Done
        }),
{
    let start = Step::CheckExists { path };
    lemma_six_steps(path, w);
    let six = after_steps(w, start, 6);
    let seven = after_steps(w, start, 7);
    assert(seven == step_after(w.host, six, reply(w, six)));
    let eight = after_steps(w, start, 8);
    assert(eight == step_after(w.host, seven, reply(w, seven)));
    let nine = after_steps(w, start, 9);
    assert(nine == step_after(w.host, eight, reply(w, eight)));
}

/// Once done, a run stays done.
pub proof fn law_done_is_final(host: Host, result: Result<Outcome, Error>, report: Report)
    ensures
        step_after(host, Step::Done(result), report) == Step::Done(result),
{
}

/// Compression is applied only to a file that exists, on a volume that supports it,
/// and whose flags say that it is not compressed: a file is never compressed twice.
pub proof fn law_applied_at_most_once(path: String, w: World, n: nat)
    requires
        after_steps(w, Step::CheckExists { path }, n) is Apply,
    ensures
        is_applied(w),
        n == 6,
{
    lemma_within_ten(path, w, n);
    lemma_six_steps(path, w);
    if is_applied(w) {
        lemma_later_steps(path, w);
    } else if n >= 6 {
        lemma_stays_done(w, Step::CheckExists { path }, 6, n);
    }
}

/// A file that is compressed already is left alone: nothing is applied, and the outcome
/// says so.
pub proof fn law_compressed_file_is_left_alone(path: String, w: World, n: nat)
    requires
        w.exists,
        w.volume matches Ok(volume) && volume_support(volume) == Support::Supported,
        w.flags matches Ok(flags) && flagged(flags),
    ensures
        match measured(w.size_before) {
            Ok(before) => compressed_outcome(path, w) == Ok::<Outcome, Error>(
                Outcome::AlreadyCompressed { before },
            ),
            Err(e) => compressed_outcome(path, w) == failed(w.host, e),
        },
        after_steps(w, Step::CheckExists { path }, n) !is Apply,
        after_steps(w, Step::CheckExists { path }, n) !is Restore,
{
    lemma_six_steps(path, w);
    if n >= 6 {
        lemma_stays_done(w, Step::CheckExists { path }, 6, n);
    }
}

/// What a rollback writes is what was read before anything was applied. It happens
/// exactly where compression was applied and the file's magic is no longer what it
/// was, or can no longer be read; in that case the failure is reported afterwards.
pub proof fn law_rollback_restores_snapshot(path: String, w: World, n: nat)
    requires
        after_steps(w, Step::CheckExists { path }, n) is Restore,
    ensures
        n == 8,
        after_steps(w, Step::CheckExists { path }, n) matches Step::Restore {
            before,
            snapshot,
            error,
        } && w.snapshot == Ok::<Vec<u8>, IoFailure>(snapshot) && error == w.magic_after.err(),
        is_applied(w),
        w.applied is Ok,
        !still_loads(w),
        compressed_outcome(path, w) == match w.magic_after {
            Ok(_) => Ok::<Outcome, Error>(Outcome::Skipped { reason: SkipReason::NotLoadable }),
            Err(e) => failed(w.host, e),
        },
{
    lemma_within_ten(path, w, n);
    lemma_six_steps(path, w);
    if is_applied(w) {
        lemma_later_steps(path, w);
    } else if n >= 6 {
        lemma_stays_done(w, Step::CheckExists { path }, 6, n);
    }
}

/// A file that no longer loads once compression was applied, because it starts with
/// something else or cannot be read at all, is rolled back before the run ends.
pub proof fn law_unloadable_file_is_rolled_back(path: String, w: World)
    requires
        is_applied(w),
        w.applied is Ok,
        !still_loads(w),
    ensures
        after_steps(w, Step::CheckExists { path }, 8) is Restore,
        w.magic_after is Ok ==> compressed_outcome(path, w) == Ok::<Outcome, Error>(
            Outcome::Skipped { reason: SkipReason::NotLoadable },
        ),
{
    lemma_six_steps(path, w);
    lemma_later_steps(path, w);
}

/// A failure for want of permission, because the file is read-only or busy, or because
/// it is too large is no error, whichever operation fails: the file is skipped.
pub proof fn law_fail_soft(path: String, w: World, context: &'static str, source: IoFailure)
    requires
        first_failure(path, w) == Some(Error::Io { context, source }),
        skip_reason(w.host, source.kind, source.raw_os_error) is Some,
    ensures
        compressed_outcome(path, w) matches Ok(Outcome::Skipped { reason }) && skip_reason(
            w.host,
            source.kind,
            source.raw_os_error,
        ) == Some(reason),
{
}

/// An error comes of a missing file, or of a failure that is no reason to skip the
/// file. It is the failure of the first operation that fails.
pub proof fn law_errors_are_failures(path: String, w: World)
    ensures
        compressed_outcome(path, w) matches Err(e) ==> first_failure(path, w) == Some(e) && (
        e matches Error::Io { context, source } ==> skip_reason(
            w.host,
            source.kind,
            source.raw_os_error,
        ) is None),
        first_failure(path, w) is None ==> compressed_outcome(path, w) is Ok,
{
}

/// What a file reads as after `n` steps, given what it read as at first, and what it
/// reads as once compression was applied to it.
pub open spec fn content_after(w: World, start: Step, held: Seq<u8>, left: Seq<u8>, n: nat) -> Seq<
    u8,
>
    decreases n,
{
    if n == 0 {
        held
    } else {
        let before = content_after(w, start, held, left, (n - 1) as nat);
        match after_steps(w, start, (n - 1) as nat) {
            Step::Apply { before: _, magic, snapshot } => if w.applied is Ok {
                left
            } else {
                before
            },
            Step::Restore { before: _, snapshot, error } => snapshot@,
            _ => before,
        }
    }
}

/// Steps that neither apply compression nor roll back change no content.
proof fn lemma_content_stays(
    w: World,
    start: Step,
    held: Seq<u8>,
    left: Seq<u8>,
    m: nat,
    n: nat,
)
    requires
        m <= n,
        forall|k: nat|
            m <= k < n ==> {
                let step = #[trigger] after_steps(w, start, k);
                step !is Apply && step !is Restore
            },
    ensures
        content_after(w, start, held, left, n) == content_after(w, start, held, left, m),
    decreases n,
{
    if m < n {
        lemma_content_stays(w, start, held, left, m, (n - 1) as nat);
        let step = after_steps(w, start, (n - 1) as nat);
        assert(step !is Apply && step !is Restore);
    }
}

/// A run never corrupts a file: in the end it reads as it did at first, or as what
/// applying compression left, and then that starts with the same magic. Where the
/// outcome is that nothing was compressed, and where an operation failed before
/// compression was applied, it reads as it did at first.
pub proof fn law_file_is_never_corrupted(path: String, w: World, held: Seq<u8>, left: Seq<u8>)
    requires
        w.snapshot matches Ok(snapshot) ==> snapshot@ == held,
    ensures
        ({
            let holds = content_after(w, Step::CheckExists { path }, held, left, 10);
            &&& is_applied(w) && w.applied is Ok && still_loads(w) ==> holds == left
            &&& !(is_applied(w) && w.applied is Ok && still_loads(w)) ==> holds == held
            &&& compressed_outcome(path, w) matches Ok(Outcome::Skipped {
                reason: SkipReason::NotLoadable,
            }) ==> holds == held
            &&& compressed_outcome(path, w) matches Ok(Outcome::Unsupported { reason }) ==> holds
                == held
            &&& compressed_outcome(path, w) matches Ok(Outcome::AlreadyCompressed { before })
                ==> holds == held
        }),
{
    let start = Step::CheckExists { path };
    lemma_six_steps(path, w);
    lemma_content_stays(w, start, held, left, 0, 6);
    if is_applied(w) {
        lemma_later_steps(path, w);
        law_steps_lead_to_outcome(path, w);
        let six = content_after(w, start, held, left, 6);
        let seven = content_after(w, start, held, left, 7);
        let eight = content_after(w, start, held, left, 8);
        let nine = content_after(w, start, held, left, 9);
        let ten = content_after(w, start, held, left, 10);
        assert(six == held);
        assert(seven == if w.applied is Ok {
            left
        } else {
            held
        });
        assert(eight == seven);
        assert(after_steps(w, start, 9) is ReadSignal || after_steps(w, start, 9) is Done);
        assert(ten == nine);
    } else {
        assert forall|k: nat| 6 <= k < 10 implies {
            let step = #[trigger] after_steps(w, start, k);
            step !is Apply && step !is Restore
        } by {
            lemma_stays_done(w, start, 6, k);
        }
        lemma_content_stays(w, start, held, left, 6, 10);
    }
}

/// The flags that a file has once a run is over, until it is written again. A run that
/// finds a file compressed leaves its flags as they are. On macOS the flags are what
/// told that compression took. On btrfs and NTFS the system flags a file that it was
/// asked to compress, and compressed.
pub open spec fn leaves_flags(path: String, w: World, flags: FileFlags) -> bool {
    match compressed_outcome(path, w) {
        Ok(Outcome::AlreadyCompressed { before }) => w.flags == Ok::<FileFlags, Error>(flags),
        Ok(Outcome::Compressed { before, after }) => match w.signal {
            Ok(Signal::MacOs(st_flags)) => flags == FileFlags::MacOs(st_flags),
            _ => flagged(flags),
        },
        _ => true,
    }
}

/// Compressing is idempotent: once a run has compressed a file, or found it compressed,
/// the next run finds it compressed, reports what it takes on disk, and applies
/// nothing.
pub proof fn law_second_run_changes_nothing(
    path: String,
    first: World,
    second: World,
    flags: FileFlags,
    n: nat,
)
    requires
        compressed_outcome(path, first) matches Ok(outcome) && (outcome is Compressed
            || outcome is AlreadyCompressed),
        leaves_flags(path, first, flags),
        second.exists,
        second.volume == first.volume,
        second.flags == Ok::<FileFlags, Error>(flags),
        measured(second.size_before) is Ok,
    ensures
        compressed_outcome(path, second) == Ok::<Outcome, Error>(
            Outcome::AlreadyCompressed { before: measured(second.size_before)->Ok_0 },
        ),
        after_steps(second, Step::CheckExists { path }, n) !is Apply,
        after_steps(second, Step::CheckExists { path }, n) !is Restore,
{
    lemma_six_steps(path, second);
    if n >= 6 {
        lemma_stays_done(second, Step::CheckExists { path }, 6, n);
    }
}

/// A failure of an operation is a reason to skip the file, or the error itself; a missing
/// file is always an error.
pub proof fn law_failure_is_soft_or_hard(host: Host, context: &'static str, source: IoFailure, path:
    String)
    ensures
        match skip_reason(host, source.kind, source.raw_os_error) {
            Some(reason) => failed(host, Error::Io { context, source }) == Ok::<Outcome, Error>(
                Outcome::Skipped { reason },
            ),
            None => failed(host, Error::Io { context, source }) == Err::<Outcome, Error>(
                Error::Io { context, source },
            ),
        },
        failed(host, Error::NotFound(path)) == Err::<Outcome, Error>(Error::NotFound(path)),
{
}

/// A measurement is the bytes that a file takes on disk, or its failure.
pub proof fn law_measured_is_allocated(allocation: Allocation, e: Error)
    ensures
        measured(Ok::<Allocation, Error>(allocation)) == allocated(allocation),
        measured(Err::<Allocation, Error>(e)) == Err::<u64, Error>(e),
{
}

/// A file that does not exist is an error, and one on a volume that does not compress is
/// reported with the reason. Nothing is applied to either.
pub proof fn law_nothing_to_compress(path: String, w: World, n: nat)
    requires
        !w.exists || (w.volume matches Ok(volume) && volume_support(volume) is Unsupported),
    ensures
        !w.exists ==> compressed_outcome(path, w) == Err::<Outcome, Error>(Error::NotFound(path)),
        w.exists ==> (w.volume matches Ok(volume) && volume_support(
            volume,
        ) matches Support::Unsupported(why) && compressed_outcome(path, w) == Ok::<Outcome, Error>(
            Outcome::Unsupported { reason: why },
        )),
        after_steps(w, Step::CheckExists { path }, n) !is Apply,
        after_steps(w, Step::CheckExists { path }, n) !is Restore,
{
    lemma_six_steps(path, w);
    if n >= 6 {
        lemma_stays_done(w, Step::CheckExists { path }, 6, n);
    }
}

/// The first operation that fails decides, in this order: asking for the volume, reading
/// the flags, measuring, reading the magic, taking the snapshot, applying compression,
/// reading the magic again, measuring again, asking for the signal.
pub proof fn law_first_failure_decides(path: String, w: World, e: Error)
    requires
        w.exists,
        w.volume matches Ok(volume) ==> volume_support(volume) == Support::Supported,
        w.flags matches Ok(flags) ==> !flagged(flags),
    ensures
        w.volume == Err::<Volume, Error>(e) ==> compressed_outcome(path, w) == failed(w.host, e),
        w.volume is Ok && w.flags == Err::<FileFlags, Error>(e) ==> compressed_outcome(path, w)
            == failed(w.host, e),
        w.volume is Ok && w.flags is Ok ==> {
            let outcome = compressed_outcome(path, w);
            &&& measured(w.size_before) == Err::<u64, Error>(e) ==> outcome == failed(w.host, e)
            &&& measured(w.size_before) is Ok ==> {
                &&& w.magic_before == Err::<[u8; 4], Error>(e) ==> outcome == failed(w.host, e)
                &&& w.magic_before is Ok ==> {
                    &&& w.snapshot matches Err(source) ==> outcome == failed(
                        w.host,
                        Error::Io { context: "snapshot", source },
                    )
                    &&& w.snapshot is Ok ==> {
                        &&& w.applied == Err::<(), Error>(e) ==> outcome == failed(w.host, e)
                        &&& w.applied is Ok && w.magic_after == Err::<[u8; 4], Error>(e)
                            ==> outcome == failed(w.host, e)
                        &&& w.applied is Ok && w.magic_after is Ok && w.magic_after->Ok_0@
                            == w.magic_before->Ok_0@ ==> {
                            &&& measured(w.size_after) == Err::<u64, Error>(e) ==> outcome
                                == failed(w.host, e)
                            &&& measured(w.size_after) is Ok && w.signal == Err::<Signal, Error>(e)
                                ==> outcome == failed(w.host, e)
                        }
                    }
                }
            }
        },
{
}

/// A file was taken through every operation without a failure: compression was applied to
/// it, and these are the sizes before and after.
pub open spec fn went_through(w: World, before: u64, after: u64) -> bool {
    &&& w.exists
    &&& w.volume matches Ok(volume) && volume_support(volume) == Support::Supported
    &&& w.flags matches Ok(flags) && !flagged(flags)
    &&& measured(w.size_before) == Ok::<u64, Error>(before)
    &&& w.magic_before is Ok
    &&& w.snapshot is Ok
    &&& w.applied is Ok
    &&& w.magic_after is Ok
    &&& measured(w.size_after) == Ok::<u64, Error>(after)
    &&& w.signal is Ok
}

/// A compressed file that still starts as it did is reported by its two sizes. Where there
/// is no signal, it counts as compressed exactly where it takes less room than before, by
/// however little. Else the signal decides, whatever the sizes are. A file that starts
/// otherwise was rolled back.
pub proof fn law_outcome_by_size_or_signal(path: String, w: World, before: u64, after: u64)
    requires
        went_through(w, before, after),
    ensures
        w.magic_after->Ok_0@ != w.magic_before->Ok_0@ ==> compressed_outcome(path, w) == Ok::<
            Outcome,
            Error,
        >(Outcome::Skipped { reason: SkipReason::NotLoadable }),
        w.magic_after->Ok_0@ == w.magic_before->Ok_0@ && w.signal->Ok_0 is Nothing ==> {
            &&& after < before <==> compressed_outcome(path, w) == Ok::<Outcome, Error>(
                Outcome::Compressed { before, after },
            )
            &&& before <= after <==> compressed_outcome(path, w) == Ok::<Outcome, Error>(
                Outcome::NoGain { before, after },
            )
        },
        w.magic_after->Ok_0@ == w.magic_before->Ok_0@ ==> (
        w.signal->Ok_0 matches Signal::MacOs(st_flags) ==> compressed_outcome(path, w) == Ok::<
            Outcome,
            Error,
        >(
            if st_flags & 0x20 != 0 {
                Outcome::Compressed { before, after }
            } else {
                Outcome::NoGain { before, after }
            },
        )),
        w.magic_after->Ok_0@ == w.magic_before->Ok_0@ ==> (
        w.signal->Ok_0 matches Signal::Linux { mapped, extents } ==> compressed_outcome(path, w)
            == Ok::<Outcome, Error>(
            if exists|i: int|
                0 <= i < mapped && i < extents@.len() && #[trigger] extents@[i] & 0x8 != 0 {
                Outcome::Compressed { before, after }
            } else {
                Outcome::NoGain { before, after }
            },
        )),
{
    if let Ok(Signal::Linux { mapped, extents }) = w.signal {
        if exists|i: int|
            0 <= i < mapped && i < extents@.len() && #[trigger] extents@[i] & 0x8 != 0 {
            let i = choose|i: int|
                0 <= i < mapped && i < extents@.len() && #[trigger] extents@[i] & 0x8 != 0;
            law_signal_by_flag_or_extent(0, mapped, extents, i);
        } else {
            law_signal_by_flag_or_extent(0, mapped, extents, 0);
        }
    }
}

/// A file on a volume that compresses, that is not compressed, and that can be measured and
/// read, has compression applied to it: at the seventh step, with what was read of it.
pub proof fn law_supported_file_is_compressed(path: String, w: World)
    requires
        w.exists,
        w.volume matches Ok(volume) && volume_support(volume) == Support::Supported,
        w.flags matches Ok(flags) && !flagged(flags),
        measured(w.size_before) is Ok,
        w.magic_before is Ok,
        w.snapshot is Ok,
    ensures
        after_steps(w, Step::CheckExists { path }, 6) matches Step::Apply {
            before,
            magic,
            snapshot,
        } && measured(w.size_before) == Ok::<u64, Error>(before) && w.magic_before == Ok::<
            [u8; 4],
            Error,
        >(magic) && w.snapshot == Ok::<Vec<u8>, IoFailure>(snapshot),
{
    lemma_six_steps(path, w);
}

/// What is reported of another step than the one at hand changes nothing.
pub proof fn law_stray_report_is_passed_over(host: Host, step: Step, report: Report)
    ensures
        step is CheckExists && report !is Exists ==> step_after(host, step, report) == step,
        step is AskVolume && report !is Volume ==> step_after(host, step, report) == step,
        step is ReadFlags && report !is Flags ==> step_after(host, step, report) == step,
        (step is MeasureOnly || step is MeasureBefore || step is MeasureAfter) && report !is Size
            ==> step_after(host, step, report) == step,
        (step is ReadMagic || step is RereadMagic) && report !is Magic ==> step_after(
            host,
            step,
            report,
        ) == step,
        step is Snapshot && report !is Bytes ==> step_after(host, step, report) == step,
        step is Apply && report !is Applied ==> step_after(host, step, report) == step,
        step is Restore && report !is Restored ==> step_after(host, step, report) == step,
        step is ReadSignal && report !is Signal ==> step_after(host, step, report) == step,
{
}

} // verus!
