//! Flashing and read-back verification as a job of device steps.
//!
//! A `Job` decides every step of writing the image to the start of a drive
//! and reading it back: which stage to announce, when to open, seek, write,
//! flush, sync and read, what progress to report, and how each failure is
//! reported. The caller performs each step on the real device and hands the
//! outcome back to `Job::step`, which returns the next step.
use vstd::prelude::*;
use crate::error::{Error, IoFailure, Result};
use crate::image::{image_ok, validate};

verus! {

/// Events emitted during a flash or verify so front-ends can show progress.
pub enum ProgressEvent<'a> {
    /// A new phase started (human-readable, e.g. "Writing enabler image").
    Stage(&'a str),
    /// Byte-level progress within the current phase.
    Progress { done: u64, total: u64 },
}

/// 1 MiB transfer chunk, a multiple of every common sector size, so raw device
/// I/O stays block-aligned on all platforms.
pub const CHUNK: usize = 1024 * 1024;

/// The end of the chunk that starts at `pos` in an image of `len` bytes.
pub open spec fn chunk_end(pos: nat, len: nat) -> nat {
    if pos + CHUNK as nat <= len {
        pos + CHUNK as nat
    } else {
        len
    }
}

/// The next thing the driver of a job must do on the device.
pub enum Step {
    /// Deliver this event to the progress callback.
    Report(ProgressEvent<'static>),
    /// Open the disk for raw read+write (unmounting/offlining it first).
    OpenForWrite,
    /// Open the disk for raw reading.
    OpenForRead,
    /// Seek the open device to byte 0.
    Seek,
    /// Write `image[start..end]` at the current position.
    Write { start: usize, end: usize },
    /// Flush buffered writes.
    Flush,
    /// Sync the device to hardware.
    Sync,
    /// Read exactly `len` bytes at the current position.
    Read { len: usize },
    /// The job is over, with this result.
    Finished(Result<()>),
}

/// What became of the step the driver just performed.
pub enum Outcome {
    /// The step succeeded (for `Report`: the event was delivered).
    Done,
    /// A seek, write, flush, sync or read failed.
    Failed(IoFailure),
    /// The device could not be opened.
    OpenFailed(Error),
    /// The bytes a `Read` returned.
    Bytes(Vec<u8>),
}

/// The step a job is waiting on.
#[derive(Clone, Copy, PartialEq, Eq, Structural)]
pub enum Phase {
    Start,
    AnnouncePrepare,
    OpenWrite,
    AnnounceWrite,
    SeekWrite,
    Write,
    WriteProgress,
    Flush,
    AnnounceSync,
    Sync,
    OpenRead,
    AnnounceVerify,
    SeekRead,
    Read,
    ReadProgress,
    Over,
}

/// A flash and/or verify of one image at the start of one drive.
pub struct Job<'a> {
    /// The image to write and to compare against.
    pub image: &'a [u8],
    /// Whether the job writes the image.
    pub write: bool,
    /// Whether the job reads the image back and compares it.
    pub verify: bool,
    /// The step the job is waiting on.
    pub phase: Phase,
    /// In `Write` and `Read`: where the pending chunk starts. In
    /// `WriteProgress` and `ReadProgress`: how many bytes are done.
    pub pos: usize,
}

/// An error made by `Error::io` from `context` and the failure `f`.
pub open spec fn is_io_error(e: Error, context: Seq<char>, f: IoFailure) -> bool {
    if f.permission_denied {
        e matches Error::Permission(c) && c@ == context
    } else {
        e matches Error::Io { context: c, source: s } && c@ == context && s == f
    }
}

/// A sync failure that only means the device is unbuffered: raw character
/// devices (notably macOS `/dev/rdiskN`) reject fsync with ENOTTY (25) or
/// EINVAL (22) although `write` already committed the data.
pub open spec fn benign_sync_failure(f: IoFailure) -> bool {
    f.raw_os_error == Some(25i32) || f.raw_os_error == Some(22i32)
}

/// The first index at which `a` and `b` differ is `i`.
pub open spec fn first_difference(a: Seq<u8>, b: Seq<u8>, i: int) -> bool {
    &&& 0 <= i < a.len()
    &&& i < b.len()
    &&& a[i] != b[i]
    &&& forall|j: int| 0 <= j < i ==> a[j] == b[j]
}

impl<'a> Job<'a> {
    pub open spec fn len(&self) -> nat {
        self.image@.len()
    }

    /// The invariant of a job.
    pub open spec fn wf(&self) -> bool {
        &&& image_ok(self.len())
        &&& self.write || self.verify
        &&& self.pos <= self.len()
        &&& (self.phase == Phase::Write || self.phase == Phase::Read) ==> self.pos < self.len()
        &&& self.phase == Phase::Start ==> self.pos == 0
        &&& (self.phase == Phase::AnnouncePrepare || self.phase == Phase::OpenWrite
            || self.phase == Phase::AnnounceWrite || self.phase == Phase::SeekWrite
            || self.phase == Phase::Write || self.phase == Phase::WriteProgress
            || self.phase == Phase::Flush || self.phase == Phase::AnnounceSync
            || self.phase == Phase::Sync) ==> self.write
        &&& (self.phase == Phase::OpenRead || self.phase == Phase::AnnounceVerify
            || self.phase == Phase::SeekRead || self.phase == Phase::Read
            || self.phase == Phase::ReadProgress) ==> self.verify
    }

    /// The outcomes a driver can report for the pending step.
    pub open spec fn fits(&self, o: Outcome) -> bool {
        match self.phase {
            Phase::OpenWrite | Phase::OpenRead => o is Done || o is OpenFailed,
            Phase::SeekWrite | Phase::Write | Phase::Flush | Phase::Sync | Phase::SeekRead => o
                is Done || o is Failed,
            Phase::Read => o is Failed || (o matches Outcome::Bytes(b) && b@.len() == chunk_end(
                self.pos as nat,
                self.len(),
            ) - self.pos),
            _ => o is Done,
        }
    }

    /// The same job waiting on another step.
    pub open spec fn moved(&self, next: Job<'a>, phase: Phase, pos: nat) -> bool {
        &&& next.image == self.image
        &&& next.write == self.write
        &&& next.verify == self.verify
        &&& next.phase == phase
        &&& next.pos == pos
    }

    /// `next` is the job finished after `self`, and `s` reports the error `e`.
    pub open spec fn fails_with(&self, next: Job<'a>, s: Step, e: Error) -> bool {
        &&& self.moved(next, Phase::Over, self.pos as nat)
        &&& s matches Step::Finished(Err(e2)) && e2 == e
    }

    /// How a job moves on when the pending step had outcome `o`: `next` is the
    /// job afterwards and `s` the step it now waits on.
    pub open spec fn transition(&self, o: Outcome, next: Job<'a>, s: Step) -> bool {
        let len = self.len();
        let pos = self.pos as nat;
        match self.phase {
            Phase::Start => if self.write {
                self.moved(next, Phase::AnnouncePrepare, 0) && (s matches Step::Report(
                    ProgressEvent::Stage(t),
                ) && t@ == "Preparing device"@)
            } else {
                self.moved(next, Phase::OpenRead, 0) && s is OpenForRead
            },
            Phase::AnnouncePrepare => self.moved(next, Phase::OpenWrite, pos) && s is OpenForWrite,
            Phase::OpenWrite => match o {
                Outcome::OpenFailed(e) => self.fails_with(next, s, e),
                _ => self.moved(next, Phase::AnnounceWrite, pos) && (s matches Step::Report(
                    ProgressEvent::Stage(t),
                ) && t@ == "Writing enabler image"@),
            },
            Phase::AnnounceWrite => self.moved(next, Phase::SeekWrite, pos) && s is Seek,
            Phase::SeekWrite => match o {
                Outcome::Failed(f) => self.moved(next, Phase::Over, pos) && (s matches Step::Finished(
                    Err(e),
                ) && is_io_error(e, "seeking to start of device"@, f)),
                _ => self.moved(next, Phase::Write, 0) && (s matches Step::Write { start, end }
                    && start == 0 && end == chunk_end(0, len)),
            },
            Phase::Write => match o {
                Outcome::Failed(f) => self.moved(next, Phase::Over, pos) && (s matches Step::Finished(
                    Err(e),
                ) && is_io_error(e, "writing to device"@, f)),
                _ => self.moved(next, Phase::WriteProgress, chunk_end(pos, len)) && (s matches Step::Report(
                    ProgressEvent::Progress { done, total },
                ) && done == chunk_end(pos, len) && total == len),
            },
            Phase::WriteProgress => if pos < len {
                self.moved(next, Phase::Write, pos) && (s matches Step::Write { start, end } && start
                    == pos && end == chunk_end(pos, len))
            } else {
                self.moved(next, Phase::Flush, pos) && s is Flush
            },
            Phase::Flush => match o {
                Outcome::Failed(f) => self.moved(next, Phase::Over, pos) && (s matches Step::Finished(
                    Err(e),
                ) && is_io_error(e, "flushing device"@, f)),
                _ => self.moved(next, Phase::AnnounceSync, pos) && (s matches Step::Report(
                    ProgressEvent::Stage(t),
                ) && t@ == "Flushing to hardware"@),
            },
            Phase::AnnounceSync => self.moved(next, Phase::Sync, pos) && s is Sync,
            Phase::Sync => match o {
                Outcome::Failed(f) if !benign_sync_failure(f) => self.moved(next, Phase::Over, pos)
                    && (s matches Step::Finished(Err(e)) && is_io_error(e, "syncing device"@, f)),
                _ => if self.verify {
                    self.moved(next, Phase::OpenRead, 0) && s is OpenForRead
                } else {
                    self.moved(next, Phase::Over, pos) && s matches Step::Finished(Ok(()))
                },
            },
            Phase::OpenRead => match o {
                Outcome::OpenFailed(e) => self.fails_with(next, s, e),
                _ => self.moved(next, Phase::AnnounceVerify, pos) && (s matches Step::Report(
                    ProgressEvent::Stage(t),
                ) && t@ == "Verifying written data"@),
            },
            Phase::AnnounceVerify => self.moved(next, Phase::SeekRead, pos) && s is Seek,
            Phase::SeekRead => match o {
                Outcome::Failed(f) => self.moved(next, Phase::Over, pos) && (s matches Step::Finished(
                    Err(e),
                ) && is_io_error(e, "seeking to start of device"@, f)),
                _ => self.moved(next, Phase::Read, 0) && (s matches Step::Read { len: n } && n
                    == chunk_end(0, len)),
            },
            Phase::Read => match o {
                Outcome::Failed(f) => self.moved(next, Phase::Over, pos) && (s matches Step::Finished(
                    Err(e),
                ) && is_io_error(e, "reading back from device"@, f)),
                Outcome::Bytes(b) => {
                    let expected = self.image@.subrange(pos as int, chunk_end(pos, len) as int);
                    if b@ == expected {
                        self.moved(next, Phase::ReadProgress, chunk_end(pos, len)) && (s matches Step::Report(
                            ProgressEvent::Progress { done, total },
                        ) && done == chunk_end(pos, len) && total == len)
                    } else {
                        self.moved(next, Phase::Over, pos) && (s matches Step::Finished(
                            Err(Error::VerifyMismatch { offset }),
                        ) && first_difference(b@, expected, offset - pos))
                    }
                },
                _ => false,
            },
            Phase::ReadProgress => if pos < len {
                self.moved(next, Phase::Read, pos) && (s matches Step::Read { len: n } && n
                    == chunk_end(pos, len) - pos)
            } else {
                self.moved(next, Phase::Over, pos) && s matches Step::Finished(Ok(()))
            },
            Phase::Over => false,
        }
    }
}

/// The end of the chunk that starts at `pos` in an image of `len` bytes.
fn next_chunk_end(pos: usize, len: usize) -> (end: usize)
    requires
        pos <= len,
    ensures
        end == chunk_end(pos as nat, len as nat),
{
    if len - pos >= CHUNK {
        pos + CHUNK
    } else {
        len
    }
}

/// Whether a failed sync is harmless (see `benign_sync_failure`).
pub fn sync_failure_is_benign(f: &IoFailure) -> (b: bool)
    ensures
        b == benign_sync_failure(*f),
{
    match f.raw_os_error {
        Some(code) => code == 25 || code == 22,
        None => false,
    }
}

/// Compares the bytes read back for the chunk `[pos, end)` with the image.
/// `Ok` when they match; otherwise the offset of the first differing byte.
fn compare_chunk(image: &[u8], pos: usize, end: usize, got: &[u8]) -> (r: std::result::Result<
    (),
    u64,
>)
    requires
        pos < end <= image@.len(),
        got@.len() == end - pos,
    ensures
        r is Ok <==> got@ == image@.subrange(pos as int, end as int),
        r matches Err(offset) ==> first_difference(
            got@,
            image@.subrange(pos as int, end as int),
            offset - pos,
        ),
{
    let ghost expected = image@.subrange(pos as int, end as int);
    let n = end - pos;
    let mut i: usize = 0;
    while i < n
        invariant
            n == end - pos,
            pos < end <= image@.len(),
            got@.len() == n,
            expected == image@.subrange(pos as int, end as int),
            i <= n,
            forall|j: int| 0 <= j < i ==> got@[j] == expected[j],
        decreases n - i,
    {
        if got[i] != image[pos + i] {
            assert(first_difference(got@, expected, i as int));
            return Err((pos + i) as u64);
        }
        i = i + 1;
    }
    assert(got@ =~= expected);
    Ok(())
}

impl<'a> Job<'a> {
    fn new(image: &'a [u8], write: bool, verify: bool) -> (r: Result<Job<'a>>)
        requires
            write || verify,
        ensures
            r is Ok <==> image_ok(image@.len()),
            r matches Ok(j) ==> j.wf() && j.image == image && j.write == write && j.verify
                == verify && j.phase == Phase::Start && j.pos == 0,
            r matches Err(e) ==> validate_error(image@.len(), e),
    {
        match validate(image) {
            Ok(()) => Ok(Job { image, write, verify, phase: Phase::Start, pos: 0 }),
            Err(e) => Err(e),
        }
    }

    /// Moves the job on after the pending step ended with `outcome`, and
    /// returns the step to perform next.
    pub fn step(&mut self, outcome: Outcome) -> (s: Step)
        requires
            old(self).wf(),
            old(self).phase != Phase::Over,
            old(self).fits(outcome),
        ensures
            final(self).wf(),
            old(self).transition(outcome, *final(self), s),
    {
        let len = self.image.len();
        match self.phase {
            Phase::Start => {
                if self.write {
                    self.phase = Phase::AnnouncePrepare;
                    Step::Report(ProgressEvent::Stage("Preparing device"))
                } else {
                    self.phase = Phase::OpenRead;
                    Step::OpenForRead
                }
            },
            Phase::AnnouncePrepare => {
                self.phase = Phase::OpenWrite;
                Step::OpenForWrite
            },
            Phase::OpenWrite => match outcome {
                Outcome::OpenFailed(e) => {
                    self.phase = Phase::Over;
                    Step::Finished(Err(e))
                },
                _ => {
                    self.phase = Phase::AnnounceWrite;
                    Step::Report(ProgressEvent::Stage("Writing enabler image"))
                },
            },
            Phase::AnnounceWrite => {
                self.phase = Phase::SeekWrite;
                Step::Seek
            },
            Phase::SeekWrite => match outcome {
                Outcome::Failed(f) => {
                    self.phase = Phase::Over;
                    Step::Finished(Err(Error::io("seeking to start of device", f)))
                },
                _ => {
                    self.phase = Phase::Write;
                    self.pos = 0;
                    Step::Write { start: 0, end: next_chunk_end(0, len) }
                },
            },
            Phase::Write => match outcome {
                Outcome::Failed(f) => {
                    self.phase = Phase::Over;
                    Step::Finished(Err(Error::io("writing to device", f)))
                },
                _ => {
                    let end = next_chunk_end(self.pos, len);
                    self.phase = Phase::WriteProgress;
                    self.pos = end;
                    Step::Report(ProgressEvent::Progress { done: end as u64, total: len as u64 })
                },
            },
            Phase::WriteProgress => {
                if self.pos < len {
                    self.phase = Phase::Write;
                    Step::Write { start: self.pos, end: next_chunk_end(self.pos, len) }
                } else {
                    self.phase = Phase::Flush;
                    Step::Flush
                }
            },
            Phase::Flush => match outcome {
                Outcome::Failed(f) => {
                    self.phase = Phase::Over;
                    Step::Finished(Err(Error::io("flushing device", f)))
                },
                _ => {
                    self.phase = Phase::AnnounceSync;
                    Step::Report(ProgressEvent::Stage("Flushing to hardware"))
                },
            },
            Phase::AnnounceSync => {
                self.phase = Phase::Sync;
                Step::Sync
            },
            Phase::Sync => {
                let failure = match outcome {
                    Outcome::Failed(f) => {
                        if sync_failure_is_benign(&f) {
                            None
                        } else {
                            Some(f)
                        }
                    },
                    _ => None,
                };
                match failure {
                    Some(f) => {
                        self.phase = Phase::Over;
                        Step::Finished(Err(Error::io("syncing device", f)))
                    },
                    None => {
                        if self.verify {
                            self.phase = Phase::OpenRead;
                            self.pos = 0;
                            Step::OpenForRead
                        } else {
                            self.phase = Phase::Over;
                            Step::Finished(Ok(()))
                        }
                    },
                }
            },
            Phase::OpenRead => match outcome {
                Outcome::OpenFailed(e) => {
                    self.phase = Phase::Over;
                    Step::Finished(Err(e))
                },
                _ => {
                    self.phase = Phase::AnnounceVerify;
                    Step::Report(ProgressEvent::Stage("Verifying written data"))
                },
            },
            Phase::AnnounceVerify => {
                self.phase = Phase::SeekRead;
                Step::Seek
            },
            Phase::SeekRead => match outcome {
                Outcome::Failed(f) => {
                    self.phase = Phase::Over;
                    Step::Finished(Err(Error::io("seeking to start of device", f)))
                },
                _ => {
                    self.phase = Phase::Read;
                    self.pos = 0;
                    Step::Read { len: next_chunk_end(0, len) }
                },
            },
            Phase::Read => match outcome {
                Outcome::Failed(f) => {
                    self.phase = Phase::Over;
                    Step::Finished(Err(Error::io("reading back from device", f)))
                },
                Outcome::Bytes(got) => {
                    let end = next_chunk_end(self.pos, len);
                    match compare_chunk(self.image, self.pos, end, got.as_slice()) {
                        Ok(()) => {
                            self.phase = Phase::ReadProgress;
                            self.pos = end;
                            Step::Report(
                                ProgressEvent::Progress { done: end as u64, total: len as u64 },
                            )
                        },
                        Err(offset) => {
                            self.phase = Phase::Over;
                            Step::Finished(Err(Error::VerifyMismatch { offset }))
                        },
                    }
                },
                _ => {
                    self.phase = Phase::Over;
                    Step::Finished(Ok(()))
                },
            },
            Phase::ReadProgress => {
                if self.pos < len {
                    self.phase = Phase::Read;
                    Step::Read { len: next_chunk_end(self.pos, len) - self.pos }
                } else {
                    self.phase = Phase::Over;
                    Step::Finished(Ok(()))
                }
            },
            Phase::Over => Step::Finished(Ok(())),
        }
    }
}

/// The error `validate` gives for an image of `len` bytes.
pub open spec fn validate_error(len: nat, e: Error) -> bool {
    &&& len == 0 ==> (e matches Error::InvalidImage(m) && m@ == "image is empty"@)
    &&& len > 0 ==> (e matches Error::InvalidImage(m) && m@
        == crate::image::misaligned_message(len))
}

/// Write `image` to the very start (LBA 0) of a disk, then flush and sync it
/// to hardware: validates the image and returns the job that does it.
pub fn flash<'a>(image: &'a [u8]) -> (r: Result<Job<'a>>)
    ensures
        r is Ok <==> image_ok(image@.len()),
        r matches Ok(j) ==> j.wf() && j.image == image && j.write && !j.verify && j.phase
            == Phase::Start,
        r matches Err(e) ==> validate_error(image@.len(), e),
{
    Job::new(image, true, false)
}

/// Read the first `image.len()` bytes back from a disk and confirm they match
/// `image` byte-for-byte: validates the image and returns the job that does it.
pub fn verify<'a>(image: &'a [u8]) -> (r: Result<Job<'a>>)
    ensures
        r is Ok <==> image_ok(image@.len()),
        r matches Ok(j) ==> j.wf() && j.image == image && !j.write && j.verify && j.phase
            == Phase::Start,
        r matches Err(e) ==> validate_error(image@.len(), e),
{
    Job::new(image, false, true)
}

/// Flash then verify in one job.
pub fn flash_and_verify<'a>(image: &'a [u8]) -> (r: Result<Job<'a>>)
    ensures
        r is Ok <==> image_ok(image@.len()),
        r matches Ok(j) ==> j.wf() && j.image == image && j.write && j.verify && j.phase
            == Phase::Start,
        r matches Err(e) ==> validate_error(image@.len(), e),
{
    Job::new(image, true, true)
}


/// `j` with its write and verify flags set to `write` and `verify`.
pub open spec fn with_flags<'a>(j: Job<'a>, write: bool, verify: bool) -> Job<'a> {
    Job { write, verify, ..j }
}

/// The steps in which a job reads the image back.
pub open spec fn is_read_phase(p: Phase) -> bool {
    p == Phase::OpenRead || p == Phase::AnnounceVerify || p == Phase::SeekRead || p == Phase::Read
        || p == Phase::ReadProgress
}

/// A sync whose outcome does not end the job with an error.
pub open spec fn sync_succeeded(o: Outcome) -> bool {
    !(o matches Outcome::Failed(f) && !benign_sync_failure(f))
}

/// The job `verify(image)` starts as.
pub open spec fn verify_start<'a>(image: &'a [u8]) -> Job<'a> {
    Job { image, write: false, verify: true, phase: Phase::Start, pos: 0 }
}

/// The jobs of `jobs`, each with its write and verify flags set to `write`
/// and `verify`.
pub open spec fn flagged<'a>(jobs: Seq<Job<'a>>, write: bool, verify: bool) -> Seq<Job<'a>> {
    jobs.map_values(|j: Job<'a>| with_flags(j, write, verify))
}

/// One step of a flash-and-verify job: before its sync succeeds it is the
/// step a flash job takes; where the flash job would finish with success it
/// is the first step of a verify job; while reading it is the step a verify
/// job takes.
proof fn lemma_flash_and_verify_step<'a>(j: Job<'a>, o: Outcome, n: Job<'a>, s: Step)
    requires
        j.write,
        j.verify,
        j.transition(o, n, s),
    ensures
        n.image == j.image && n.write && n.verify,
        !is_read_phase(j.phase) && !(j.phase == Phase::Sync && sync_succeeded(o)) ==> with_flags(
            j,
            true,
            false,
        ).transition(o, with_flags(n, true, false), s) && !is_read_phase(n.phase),
        j.phase == Phase::Sync && sync_succeeded(o) ==> n.phase == Phase::OpenRead && with_flags(
            j,
            true,
            false,
        ).transition(o, (Job { phase: Phase::Over, ..with_flags(j, true, false) }), Step::Finished(
            Ok(()),
        )) && verify_start(j.image).transition(Outcome::Done, with_flags(n, false, true), s),
        is_read_phase(j.phase) ==> with_flags(j, false, true).transition(
            o,
            with_flags(n, false, true),
            s,
        ) && (n.phase == Phase::Over || (is_read_phase(n.phase) && n.phase != Phase::OpenRead)),
{
}

/// Along a run of a flash-and-verify job, every job is one of the same image
/// with both flags set.
proof fn lemma_flash_and_verify_flags<'a>(
    jobs: Seq<Job<'a>>,
    outs: Seq<Outcome>,
    steps: Seq<Step>,
    k: int,
)
    requires
        is_run(jobs, outs, steps),
        jobs[0].write,
        jobs[0].verify,
        0 <= k < jobs.len(),
    ensures
        jobs[k].image == jobs[0].image,
        jobs[k].write,
        jobs[k].verify,
    decreases k,
{
    if k > 0 {
        lemma_flash_and_verify_flags(jobs, outs, steps, k - 1);
        let i = k - 1;
        assert(jobs[i].transition(outs[i], jobs[i + 1], steps[i]));
        lemma_flash_and_verify_step(jobs[k - 1], outs[k - 1], jobs[k], steps[k - 1]);
    }
}

/// Once a flash-and-verify job reads, it keeps reading (never opening the
/// device for reading again) until it is over.
proof fn lemma_flash_and_verify_keeps_reading<'a>(
    jobs: Seq<Job<'a>>,
    outs: Seq<Outcome>,
    steps: Seq<Step>,
    i: int,
    k: int,
)
    requires
        is_run(jobs, outs, steps),
        jobs[0].write,
        jobs[0].verify,
        0 <= i < k < jobs.len(),
        is_read_phase(jobs[i].phase),
    ensures
        jobs[k].phase == Phase::Over || (is_read_phase(jobs[k].phase) && jobs[k].phase
            != Phase::OpenRead),
    decreases k - i,
{
    lemma_flash_and_verify_flags(jobs, outs, steps, k - 1);
    let p = k - 1;
    assert(jobs[p].transition(outs[p], jobs[p + 1], steps[p]));
    if k - 1 > i {
        lemma_flash_and_verify_keeps_reading(jobs, outs, steps, i, k - 1);
    }
    lemma_flash_and_verify_step(jobs[k - 1], outs[k - 1], jobs[k], steps[k - 1]);
}

/// A prefix of a flash-and-verify run that has not read yet is, with the
/// verify flag cleared, a run of a flash job.
proof fn lemma_flash_and_verify_prefix<'a>(
    jobs: Seq<Job<'a>>,
    outs: Seq<Outcome>,
    steps: Seq<Step>,
    k: int,
)
    requires
        is_run(jobs, outs, steps),
        jobs[0].write,
        jobs[0].verify,
        0 <= k < jobs.len(),
        forall|i: int| 0 <= i <= k ==> !is_read_phase(#[trigger] jobs[i].phase),
    ensures
        is_run(flagged(jobs.take(k + 1), true, false), outs.take(k), steps.take(k)),
{
    let fj = flagged(jobs.take(k + 1), true, false);
    assert forall|i: int| 0 <= i < k implies #[trigger] fj[i].transition(
        outs.take(k)[i],
        fj[i + 1],
        steps.take(k)[i],
    ) by {
        lemma_flash_and_verify_flags(jobs, outs, steps, i);
        assert(jobs[i].transition(outs[i], jobs[i + 1], steps[i]));
        assert(!is_read_phase(jobs[i + 1].phase));
        lemma_flash_and_verify_step(jobs[i], outs[i], jobs[i + 1], steps[i]);
    }
}

/// Flash-and-verify is flash, then verify. Take any run of a
/// flash-and-verify job from its start. If it never reads, it is (with the
/// verify flag cleared) a run of a flash job: the same steps, so a failure of
/// the flash ends it with the flash's error. If it opens the device for
/// reading, at `jobs[m]`, then up to the sync before, it was a run of a flash
/// job, which at that sync would have finished with success; and from there
/// on it is a run of a verify job of the same image, started with the same
/// step.
pub proof fn lemma_flash_and_verify_is_flash_then_verify<'a>(
    jobs: Seq<Job<'a>>,
    outs: Seq<Outcome>,
    steps: Seq<Step>,
)
    requires
        is_run(jobs, outs, steps),
        jobs[0].write,
        jobs[0].verify,
        jobs[0].phase == Phase::Start,
    ensures
        (forall|i: int| 0 <= i < jobs.len() ==> !is_read_phase(#[trigger] jobs[i].phase))
            ==> is_run(flagged(jobs, true, false), outs, steps),
        forall|m: int|
            0 <= m < jobs.len() && #[trigger] jobs[m].phase == Phase::OpenRead ==> {
                &&& m > 0
                &&& jobs[m - 1].phase == Phase::Sync
                &&& is_run(flagged(jobs.take(m), true, false), outs.take(m - 1), steps.take(m - 1))
                &&& with_flags(jobs[m - 1], true, false).transition(
                    outs[m - 1],
                    (Job { phase: Phase::Over, ..with_flags(jobs[m - 1], true, false) }),
                    Step::Finished(Ok(())),
                )
                &&& is_run(
                    seq![verify_start(jobs[0].image)] + flagged(jobs.skip(m), false, true),
                    seq![Outcome::Done] + outs.skip(m),
                    steps.skip(m - 1),
                )
            },
{
    let n = jobs.len() - 1;
    if forall|i: int| 0 <= i < jobs.len() ==> !is_read_phase(#[trigger] jobs[i].phase) {
        lemma_flash_and_verify_prefix(jobs, outs, steps, n);
        assert(jobs.take(n + 1) =~= jobs);
        assert(outs.take(n) =~= outs);
        assert(steps.take(n) =~= steps);
    }
    assert forall|m: int| 0 <= m < jobs.len() && #[trigger] jobs[m].phase == Phase::OpenRead implies {
        &&& m > 0
        &&& jobs[m - 1].phase == Phase::Sync
        &&& is_run(flagged(jobs.take(m), true, false), outs.take(m - 1), steps.take(m - 1))
        &&& with_flags(jobs[m - 1], true, false).transition(
            outs[m - 1],
            (Job { phase: Phase::Over, ..with_flags(jobs[m - 1], true, false) }),
            Step::Finished(Ok(())),
        )
        &&& is_run(
            seq![verify_start(jobs[0].image)] + flagged(jobs.skip(m), false, true),
            seq![Outcome::Done] + outs.skip(m),
            steps.skip(m - 1),
        )
    } by {
        assert(m > 0);
        lemma_flash_and_verify_flags(jobs, outs, steps, m - 1);
        let p = m - 1;
        assert(jobs[p].transition(outs[p], jobs[p + 1], steps[p]));
        lemma_flash_and_verify_step(jobs[m - 1], outs[m - 1], jobs[m], steps[m - 1]);
        assert forall|i: int| 0 <= i <= m - 1 implies !is_read_phase(#[trigger] jobs[i].phase) by {
            if is_read_phase(jobs[i].phase) {
                lemma_flash_and_verify_keeps_reading(jobs, outs, steps, i, m);
            }
        }
        assert(jobs[m - 1].phase == Phase::Sync);
        lemma_flash_and_verify_prefix(jobs, outs, steps, m - 1);
        let vj = seq![verify_start(jobs[0].image)] + flagged(jobs.skip(m), false, true);
        let vo = seq![Outcome::Done] + outs.skip(m);
        let vs = steps.skip(m - 1);
        assert forall|t: int| 0 <= t < vo.len() implies #[trigger] vj[t].transition(
            vo[t],
            vj[t + 1],
            vs[t],
        ) by {
            if t == 0 {
                assert(vj[1] == with_flags(jobs[m], false, true));
            } else {
                let i = m + t - 1;
                assert(vj[t] == with_flags(jobs[i], false, true));
                assert(vj[t + 1] == with_flags(jobs[i + 1], false, true));
                assert(vo[t] == outs[i]);
                assert(vs[t] == steps[i]);
                lemma_flash_and_verify_flags(jobs, outs, steps, i);
                assert(jobs[i].transition(outs[i], jobs[i + 1], steps[i]));
                if i > m {
                    lemma_flash_and_verify_keeps_reading(jobs, outs, steps, m, i);
                }
                lemma_flash_and_verify_step(jobs[i], outs[i], jobs[i + 1], steps[i]);
            }
        }
    }
}

/// `jobs`, `outs` and `steps` are a run of a job: the job `jobs[i]`, told the
/// outcome `outs[i]` of its pending step, became `jobs[i + 1]` and returned
/// `steps[i]` (the step that `jobs[i + 1]` waits on).
pub open spec fn is_run<'a>(jobs: Seq<Job<'a>>, outs: Seq<Outcome>, steps: Seq<Step>) -> bool {
    &&& jobs.len() == outs.len() + 1
    &&& steps.len() == outs.len()
    &&& forall|i: int|
        0 <= i < outs.len() ==> #[trigger] jobs[i].transition(outs[i], jobs[i + 1], steps[i])
}

/// The device contents `dev` after the driver performed step `s` of a job
/// writing `image`: a `Write` puts `image[start..end]` at `start`.
pub open spec fn perform(dev: Seq<u8>, image: Seq<u8>, s: Step) -> Seq<u8> {
    match s {
        Step::Write { start, end } => dev.take(start as int) + image.subrange(
            start as int,
            end as int,
        ) + dev.skip(end as int),
        _ => dev,
    }
}

/// The device contents after the driver performed `steps` in order.
pub open spec fn device_after(dev: Seq<u8>, image: Seq<u8>, steps: Seq<Step>) -> Seq<u8>
    decreases steps.len(),
{
    if steps.len() == 0 {
        dev
    } else {
        perform(device_after(dev, image, steps.drop_last()), image, steps.last())
    }
}

/// The outcomes a device gives a job when every step succeeds and every read
/// returns what the device holds at that point (starting from `dev`).
pub open spec fn honest_device<'a>(
    jobs: Seq<Job<'a>>,
    outs: Seq<Outcome>,
    steps: Seq<Step>,
    dev: Seq<u8>,
) -> bool {
    forall|i: int|
        0 <= i < outs.len() ==> (#[trigger] outs[i] is Done || (jobs[i].phase == Phase::Read
            && (outs[i] matches Outcome::Bytes(b) && b@ == device_after(
            dev,
            jobs[i].image@,
            steps.take(i),
        ).subrange(jobs[i].pos as int, chunk_end(jobs[i].pos as nat, jobs[i].len()) as int))))
}

/// What the device `d` holds while a job `j` writes: nothing is owed before
/// the first write; while writing, the image up to the last chunk written;
/// once the writes are over, the whole image.
pub open spec fn written_so_far<'a>(j: Job<'a>, d: Seq<u8>) -> bool {
    match j.phase {
        Phase::Start | Phase::AnnouncePrepare | Phase::OpenWrite | Phase::AnnounceWrite
        | Phase::SeekWrite => true,
        Phase::Write => d.take(chunk_end(j.pos as nat, j.len()) as int) == j.image@.take(
            chunk_end(j.pos as nat, j.len()) as int,
        ),
        Phase::WriteProgress => d.take(j.pos as int) == j.image@.take(j.pos as int),
        _ => d.take(j.len() as int) == j.image@,
    }
}

proof fn lemma_device_after_step(dev: Seq<u8>, image: Seq<u8>, steps: Seq<Step>, k: int)
    requires
        0 <= k < steps.len(),
    ensures
        device_after(dev, image, steps.take(k + 1)) == perform(
            device_after(dev, image, steps.take(k)),
            image,
            steps[k],
        ),
{
    assert(steps.take(k + 1).drop_last() =~= steps.take(k));
}

proof fn lemma_write_invariant<'a>(
    jobs: Seq<Job<'a>>,
    outs: Seq<Outcome>,
    steps: Seq<Step>,
    dev: Seq<u8>,
    k: int,
)
    requires
        is_run(jobs, outs, steps),
        jobs[0].wf(),
        jobs[0].write,
        jobs[0].phase == Phase::Start,
        honest_device(jobs, outs, steps, dev),
        dev.len() >= jobs[0].len(),
        0 <= k < jobs.len(),
    ensures
        jobs[k].image == jobs[0].image,
        jobs[k].write == jobs[0].write,
        jobs[k].verify == jobs[0].verify,
        jobs[k].pos <= jobs[0].len(),
        jobs[k].phase == Phase::Write ==> jobs[k].pos < jobs[0].len(),
        device_after(dev, jobs[0].image@, steps.take(k)).len() == dev.len(),
        device_after(dev, jobs[0].image@, steps.take(k)).skip(jobs[0].len() as int) == dev.skip(
            jobs[0].len() as int,
        ),
        written_so_far(jobs[k], device_after(dev, jobs[0].image@, steps.take(k))),
        jobs[k].phase == Phase::Over ==> (steps[k - 1] matches Step::Finished(r) && r is Ok),
    decreases k,
{
    let image = jobs[0].image@;
    let len = jobs[0].len();
    if k == 0 {
        assert(steps.take(0) =~= Seq::<Step>::empty());
    } else {
        lemma_write_invariant(jobs, outs, steps, dev, k - 1);
        lemma_device_after_step(dev, image, steps, k - 1);
        let j = jobs[k - 1];
        let d = device_after(dev, image, steps.take(k - 1));
        let d2 = device_after(dev, image, steps.take(k));
        let i = k - 1;
        assert(jobs[i].transition(outs[i], jobs[i + 1], steps[i]));
        assert(image.len() == len);
        match j.phase {
            Phase::Read => {
                let pos = j.pos as int;
                let end = chunk_end(pos as nat, len) as int;
                assert(outs[i] matches Outcome::Bytes(b) && b@ == d.subrange(pos, end));
                assert(d.subrange(pos, end) =~= image.subrange(pos, end)) by {
                    assert forall|x: int| pos <= x < end implies d[x] == image[x] by {
                        assert(d.take(len as int)[x] == image[x]);
                    }
                }
                assert(d2 == d);
            },
            Phase::SeekWrite => {
                let end = chunk_end(0, len);
                assert(d2 =~= d.take(0) + image.subrange(0, end as int) + d.skip(end as int));
                assert(d2.take(end as int) =~= image.take(end as int));
                assert(d2.skip(len as int) =~= d.skip(len as int));
            },
            Phase::Write => {
                assert(d2 == d);
            },
            Phase::WriteProgress => {
                let pos = j.pos as int;
                if pos < len {
                    let end = chunk_end(pos as nat, len) as int;
                    assert(d2 =~= d.take(pos) + image.subrange(pos, end) + d.skip(end));
                    assert(d2.skip(len as int) =~= d.skip(len as int));
                    assert(d2.take(end) =~= image.take(end)) by {
                        assert forall|i: int| 0 <= i < end implies d2.take(end)[i] == image.take(
                            end,
                        )[i] by {
                            if i < pos {
                                assert(d.take(pos)[i] == image.take(pos)[i]);
                            }
                        }
                    }
                } else {
                    assert(image.take(len as int) =~= image);
                }
            },
            _ => {},
        }
    }
}

/// A flash job whose every step succeeds writes the whole image to the start
/// of the device and nothing else: once the job flushes, the first
/// `image.len()` bytes of any device at least that large are the image,
/// whatever it held before, and every byte after them is as it was.
pub proof fn lemma_flash_writes_image<'a>(
    jobs: Seq<Job<'a>>,
    outs: Seq<Outcome>,
    steps: Seq<Step>,
    dev: Seq<u8>,
)
    requires
        is_run(jobs, outs, steps),
        jobs[0].wf(),
        jobs[0].write,
        jobs[0].phase == Phase::Start,
        forall|i: int| 0 <= i < outs.len() ==> #[trigger] outs[i] is Done,
        dev.len() >= jobs[0].len(),
        jobs.last().phase == Phase::Flush,
    ensures
        device_after(dev, jobs[0].image@, steps).take(jobs[0].len() as int) == jobs[0].image@,
        device_after(dev, jobs[0].image@, steps).skip(jobs[0].len() as int) == dev.skip(
            jobs[0].len() as int,
        ),
{
    let n = outs.len() as int;
    lemma_write_invariant(jobs, outs, steps, dev, n);
    assert(steps.take(n) =~= steps);
}

/// What was written reads back: a flash-and-verify job on a device that keeps
/// what is written to it, and whose every step succeeds, can only end with
/// success (`VerifyMismatch` is never reported).
pub proof fn lemma_round_trip<'a>(
    jobs: Seq<Job<'a>>,
    outs: Seq<Outcome>,
    steps: Seq<Step>,
    dev: Seq<u8>,
)
    requires
        is_run(jobs, outs, steps),
        jobs[0].wf(),
        jobs[0].write,
        jobs[0].verify,
        jobs[0].phase == Phase::Start,
        honest_device(jobs, outs, steps, dev),
        dev.len() >= jobs[0].len(),
        steps.len() > 0,
        steps.last() is Finished,
    ensures
        steps.last() matches Step::Finished(r) && r is Ok,
{
    let n = outs.len() as int;
    lemma_write_invariant(jobs, outs, steps, dev, n);
    let i = n - 1;
    assert(jobs[i].transition(outs[i], jobs[i + 1], steps[i]));
}

/// Whenever a flash job finishes writing, its last progress report counted
/// every byte of the image: the job flushes only when its progress `done`
/// equals the total.
pub proof fn lemma_progress_reaches_total<'a>(j: Job<'a>, o: Outcome, next: Job<'a>, s: Step)
    requires
        j.wf(),
        j.transition(o, next, s),
        next.phase == Phase::Flush,
    ensures
        j.phase == Phase::WriteProgress,
        j.pos == j.len(),
{
}

/// Each write and read of a job covers a whole number of blocks: chunks start
/// and end on `BLOCK_SIZE` boundaries of a valid image.
pub proof fn lemma_chunks_block_aligned(pos: nat, len: nat)
    requires
        image_ok(len),
        pos % 4096 == 0,
        pos < len,
    ensures
        chunk_end(pos, len) % 4096 == 0,
        pos < chunk_end(pos, len) <= len,
        chunk_end(pos, len) - pos <= CHUNK,
{
    assert(CHUNK as nat % 4096 == 0);
}

/// A job about to read back: a verify job at its start, or any job about to
/// open the device for reading.
pub open spec fn verify_starts<'a>(j: Job<'a>) -> bool {
    j.phase == Phase::OpenRead || (j.phase == Phase::Start && !j.write)
}

/// What a device `dev` that reads back as `rd` must satisfy while a job `j`
/// verifies: everything compared so far matched.
pub open spec fn matched_so_far<'a>(j: Job<'a>, rd: Seq<u8>) -> bool {
    match j.phase {
        Phase::Read | Phase::ReadProgress => rd.take(j.pos as int) == j.image@.take(j.pos as int),
        _ => true,
    }
}

/// The outcomes a device holding `rd` gives a verifying job: every read
/// returns the device's bytes of the chunk, every other step succeeds.
pub open spec fn reads_from<'a>(jobs: Seq<Job<'a>>, outs: Seq<Outcome>, rd: Seq<u8>) -> bool {
    forall|i: int|
        0 <= i < outs.len() ==> if jobs[i].phase == Phase::Read {
            #[trigger] outs[i] matches Outcome::Bytes(b) && b@ == rd.subrange(
                jobs[i].pos as int,
                chunk_end(jobs[i].pos as nat, jobs[i].len()) as int,
            )
        } else {
            outs[i] is Done
        }
}

proof fn lemma_verify_invariant<'a>(
    jobs: Seq<Job<'a>>,
    outs: Seq<Outcome>,
    steps: Seq<Step>,
    rd: Seq<u8>,
    k: int,
)
    requires
        is_run(jobs, outs, steps),
        jobs[0].wf(),
        verify_starts(jobs[0]),
        reads_from(jobs, outs, rd),
        rd.len() >= jobs[0].len(),
        0 <= k < jobs.len(),
    ensures
        jobs[k].image == jobs[0].image,
        jobs[k].verify == jobs[0].verify,
        jobs[k].pos <= jobs[0].len(),
        jobs[k].phase == Phase::Read ==> jobs[k].pos < jobs[0].len(),
        (jobs[k].phase == Phase::Start && k == 0) || jobs[k].phase == Phase::OpenRead
            || jobs[k].phase == Phase::AnnounceVerify
            || jobs[k].phase == Phase::SeekRead || jobs[k].phase == Phase::Read
            || jobs[k].phase == Phase::ReadProgress || jobs[k].phase == Phase::Over,
        matched_so_far(jobs[k], rd),
        jobs[k].phase == Phase::Over ==> (steps[k - 1] matches Step::Finished(r) && (r is Ok
            <==> rd.take(jobs[0].len() as int) == jobs[0].image@) && (r matches Err(e) ==> (
        e matches Error::VerifyMismatch { offset } && first_difference(
            rd,
            jobs[0].image@,
            offset as int,
        )))),
    decreases k,
{
    let image = jobs[0].image@;
    let len = jobs[0].len();
    if k > 0 {
        lemma_verify_invariant(jobs, outs, steps, rd, k - 1);
        let i = k - 1;
        assert(jobs[i].transition(outs[i], jobs[i + 1], steps[i]));
        let j = jobs[i];
        let pos = j.pos as int;
        match j.phase {
            Phase::Read => {
                let end = chunk_end(pos as nat, len) as int;
                let expected = image.subrange(pos, end);
                assert(outs[k - 1] matches Outcome::Bytes(b) && b@ == rd.subrange(pos, end));
                if jobs[k].phase == Phase::Over {
                    let b = outs[k - 1]->Bytes_0;
                    let offset = (steps[k - 1]->Finished_0)->Err_0->offset as int;
                    assert(first_difference(b@, expected, offset - pos));
                    assert(rd[offset] == b@[offset - pos]);
                    assert(image[offset] == expected[offset - pos]);
                    assert forall|i: int| 0 <= i < offset implies rd[i] == image[i] by {
                        if i < pos {
                            assert(rd.take(pos)[i] == image.take(pos)[i]);
                        } else {
                            assert(rd[i] == b@[i - pos]);
                            assert(image[i] == expected[i - pos]);
                        }
                    }
                    assert(first_difference(rd, image, offset));
                    assert(rd.take(len as int)[offset] != image[offset]);
                } else {
                    assert(rd.take(end) =~= image.take(end)) by {
                        assert forall|i: int| 0 <= i < end implies rd.take(end)[i] == image.take(
                            end,
                        )[i] by {
                            if i < pos {
                                assert(rd.take(pos)[i] == image.take(pos)[i]);
                            } else {
                                assert(rd.subrange(pos, end)[i - pos] == expected[i - pos]);
                            }
                        }
                    }
                }
            },
            Phase::ReadProgress => {
                if pos >= len {
                    assert(image.take(len as int) =~= image);
                }
            },
            Phase::SeekRead => {
                assert(rd.take(0) =~= image.take(0));
            },
            _ => {},
        }
    }
}

/// Verification accepts exactly the devices that hold the image: a verify
/// run over a device whose first bytes are `rd` ends with `Ok` if and only if
/// they equal the image, and otherwise with `VerifyMismatch` at the first
/// offset where they differ.
pub proof fn lemma_verify_decides<'a>(
    jobs: Seq<Job<'a>>,
    outs: Seq<Outcome>,
    steps: Seq<Step>,
    rd: Seq<u8>,
)
    requires
        is_run(jobs, outs, steps),
        jobs[0].wf(),
        verify_starts(jobs[0]),
        reads_from(jobs, outs, rd),
        rd.len() >= jobs[0].len(),
        steps.len() > 0,
        steps.last() is Finished,
    ensures
        steps.last() matches Step::Finished(r) && (r is Ok <==> rd.take(jobs[0].len() as int)
            == jobs[0].image@) && (r matches Err(e) ==> (e matches Error::VerifyMismatch {
            offset,
        } && first_difference(rd, jobs[0].image@, offset as int))),
{
    let n = outs.len() as int;
    lemma_verify_invariant(jobs, outs, steps, rd, n);
    let i = n - 1;
    assert(jobs[i].transition(outs[i], jobs[i + 1], steps[i]));
}

/// What a flash wrote, a later verify reads back: after a flash job whose
/// every step succeeded, a verify job of the same image, reading the device
/// as the flash left it, can only end with success.
pub proof fn lemma_flash_then_verify<'a>(
    fjobs: Seq<Job<'a>>,
    fouts: Seq<Outcome>,
    fsteps: Seq<Step>,
    dev: Seq<u8>,
    vjobs: Seq<Job<'a>>,
    vouts: Seq<Outcome>,
    vsteps: Seq<Step>,
)
    requires
        is_run(fjobs, fouts, fsteps),
        fjobs[0].wf(),
        fjobs[0].write,
        !fjobs[0].verify,
        fjobs[0].phase == Phase::Start,
        forall|i: int| 0 <= i < fouts.len() ==> #[trigger] fouts[i] is Done,
        dev.len() >= fjobs[0].len(),
        fsteps.len() > 0,
        fsteps.last() is Finished,
        is_run(vjobs, vouts, vsteps),
        vjobs[0].wf(),
        vjobs[0].image == fjobs[0].image,
        verify_starts(vjobs[0]),
        reads_from(vjobs, vouts, device_after(dev, fjobs[0].image@, fsteps)),
        vsteps.len() > 0,
        vsteps.last() is Finished,
    ensures
        fsteps.last() matches Step::Finished(r) && r is Ok,
        vsteps.last() matches Step::Finished(r) && r is Ok,
{
    let n = fouts.len() as int;
    lemma_write_invariant(fjobs, fouts, fsteps, dev, n);
    let i = n - 1;
    assert(fjobs[i].transition(fouts[i], fjobs[i + 1], fsteps[i]));
    assert(fsteps.take(n) =~= fsteps);
    lemma_verify_decides(vjobs, vouts, vsteps, device_after(dev, fjobs[0].image@, fsteps));
}


/// Some `Write` step among the first `n` of `steps` hands byte `x` of the
/// image to the device.
pub open spec fn write_covers(steps: Seq<Step>, n: int, x: int) -> bool {
    exists|i: int|
        0 <= i < n && (#[trigger] steps[i] matches Step::Write { start, end } && start <= x
            && x < end)
}

/// Some step among the first `n` of `steps` is a flush.
pub open spec fn flushed(steps: Seq<Step>, n: int) -> bool {
    exists|i: int| 0 <= i < n && #[trigger] steps[i] is Flush
}

/// Some step among the first `n` of `steps` is a sync.
pub open spec fn synced(steps: Seq<Step>, n: int) -> bool {
    exists|i: int| 0 <= i < n && #[trigger] steps[i] is Sync
}

/// Among the first `n` outcomes of a run, bytes read back for a chunk that
/// holds offset `x` were received, and their byte at `x` equals `image[x]`.
pub open spec fn read_matches<'a>(
    jobs: Seq<Job<'a>>,
    outs: Seq<Outcome>,
    image: Seq<u8>,
    n: int,
    x: int,
) -> bool {
    exists|i: int|
        0 <= i < n && jobs[i].phase == Phase::Read && (#[trigger] outs[i] matches Outcome::Bytes(b)
            && jobs[i].pos <= x && x < jobs[i].pos + b@.len() && b@[x - jobs[i].pos] == image[x])
}

/// A step just returned by a job that reports success.
pub open spec fn finished_ok(steps: Seq<Step>, k: int) -> bool {
    k > 0 && (steps[k - 1] matches Step::Finished(r) && r is Ok)
}

proof fn lemma_flash_progress<'a>(
    jobs: Seq<Job<'a>>,
    outs: Seq<Outcome>,
    steps: Seq<Step>,
    k: int,
)
    requires
        is_run(jobs, outs, steps),
        jobs[0].wf(),
        jobs[0].write,
        jobs[0].phase == Phase::Start,
        0 <= k < jobs.len(),
    ensures
        jobs[k].image == jobs[0].image,
        jobs[k].write,
        jobs[k].verify == jobs[0].verify,
        jobs[k].pos <= jobs[0].len(),
        jobs[k].phase == Phase::Write ==> jobs[k].pos < jobs[0].len(),
        jobs[k].phase == Phase::Write ==> forall|x: int|
            0 <= x < chunk_end(jobs[k].pos as nat, jobs[0].len()) ==> write_covers(steps, k, x),
        jobs[k].phase == Phase::WriteProgress ==> forall|x: int|
            0 <= x < jobs[k].pos ==> write_covers(steps, k, x),
        jobs[k].phase == Phase::Flush || jobs[k].phase == Phase::AnnounceSync || jobs[k].phase
            == Phase::Sync || is_read_phase(jobs[k].phase) || finished_ok(steps, k) ==> (forall|
            x: int,
        |
            0 <= x < jobs[0].len() ==> write_covers(steps, k, x)) && flushed(steps, k),
        jobs[k].phase == Phase::Sync || is_read_phase(jobs[k].phase) || finished_ok(steps, k)
            ==> synced(steps, k),
    decreases k,
{
    if k > 0 {
        lemma_flash_progress(jobs, outs, steps, k - 1);
        let i = k - 1;
        assert(jobs[i].transition(outs[i], jobs[i + 1], steps[i]));
        let len = jobs[0].len();
        let pos = jobs[i].pos as int;
        assert(jobs[0].image@.len() == len);
        if jobs[i].phase == Phase::SeekWrite && !(outs[i] is Failed) {
            assert forall|x: int| 0 <= x < chunk_end(0, len) implies write_covers(steps, k, x) by {
                assert(steps[i] matches Step::Write { start, end } && start <= x && x < end);
            }
        } else if jobs[i].phase == Phase::WriteProgress && pos < len {
            assert forall|x: int| 0 <= x < chunk_end(pos as nat, len) implies write_covers(
                steps,
                k,
                x,
            ) by {
                if x >= pos {
                    assert(steps[i] matches Step::Write { start, end } && start <= x && x < end);
                } else {
                    assert(write_covers(steps, i, x));
                }
            }
        } else if jobs[i].phase == Phase::WriteProgress {
            assert(steps[i] is Flush);
            assert forall|x: int| 0 <= x < len implies write_covers(steps, k, x) by {
                assert(write_covers(steps, i, x));
            }
        } else if jobs[i].phase == Phase::Write && !(outs[i] is Failed) {
            assert forall|x: int| 0 <= x < jobs[k].pos implies write_covers(steps, k, x) by {
                assert(write_covers(steps, i, x));
            }
        } else if jobs[i].phase == Phase::AnnounceSync {
            assert(steps[i] is Sync);
            assert forall|x: int| 0 <= x < len implies write_covers(steps, k, x) by {
                assert(write_covers(steps, i, x));
            }
        } else if jobs[i].phase == Phase::Flush || jobs[i].phase == Phase::Sync || is_read_phase(
            jobs[i].phase,
        ) {
            assert forall|x: int| 0 <= x < len implies write_covers(steps, k, x) by {
                assert(write_covers(steps, i, x));
            }
            assert(flushed(steps, i));
            if jobs[i].phase != Phase::Flush {
                assert(synced(steps, i));
            }
        }
    }
}

/// A job that writes can only report success after it has handed every byte
/// of the image to the device in `Write` steps, flushed it and synced it: in
/// any run of a flash (or flash-and-verify) job from its start whose last
/// step is `Finished(Ok(()))`, some `Write` step covers each offset of the
/// image, and a `Flush` and a `Sync` step were taken. In particular a device
/// that cannot be opened for writing never yields success.
pub proof fn lemma_flash_ok_wrote_image<'a>(
    jobs: Seq<Job<'a>>,
    outs: Seq<Outcome>,
    steps: Seq<Step>,
)
    requires
        is_run(jobs, outs, steps),
        jobs[0].wf(),
        jobs[0].write,
        jobs[0].phase == Phase::Start,
        steps.len() > 0,
        steps.last() matches Step::Finished(r) && r is Ok,
    ensures
        forall|x: int| 0 <= x < jobs[0].len() ==> write_covers(steps, steps.len() as int, x),
        flushed(steps, steps.len() as int),
        synced(steps, steps.len() as int),
{
    let n = outs.len() as int;
    lemma_flash_progress(jobs, outs, steps, n);
}

proof fn lemma_verify_progress<'a>(
    jobs: Seq<Job<'a>>,
    outs: Seq<Outcome>,
    steps: Seq<Step>,
    k: int,
)
    requires
        is_run(jobs, outs, steps),
        jobs[0].wf(),
        jobs[0].verify,
        jobs[0].phase == Phase::Start,
        0 <= k < jobs.len(),
    ensures
        jobs[k].image == jobs[0].image,
        jobs[k].verify,
        jobs[k].pos <= jobs[0].len(),
        jobs[k].phase == Phase::Read ==> jobs[k].pos < jobs[0].len(),
        jobs[k].phase == Phase::Read || jobs[k].phase == Phase::ReadProgress ==> forall|x: int|
            0 <= x < jobs[k].pos ==> read_matches(jobs, outs, jobs[0].image@, k, x),
        finished_ok(steps, k) ==> forall|x: int|
            0 <= x < jobs[0].len() ==> read_matches(jobs, outs, jobs[0].image@, k, x),
    decreases k,
{
    if k > 0 {
        lemma_verify_progress(jobs, outs, steps, k - 1);
        let i = k - 1;
        assert(jobs[i].transition(outs[i], jobs[i + 1], steps[i]));
        let len = jobs[0].len();
        let image = jobs[0].image@;
        let pos = jobs[i].pos as int;
        assert(image.len() == len);
        if jobs[i].phase == Phase::Read && jobs[k].phase == Phase::ReadProgress {
            let end = chunk_end(pos as nat, len) as int;
            assert(outs[i] matches Outcome::Bytes(b) && b@ == image.subrange(pos, end));
            assert forall|x: int| 0 <= x < jobs[k].pos implies read_matches(
                jobs,
                outs,
                image,
                k,
                x,
            ) by {
                if x >= pos {
                    let b = outs[i]->Bytes_0;
                    assert(b@[x - pos] == image[x]);
                    assert(outs[i] matches Outcome::Bytes(b) && jobs[i].pos <= x && x < jobs[i].pos
                        + b@.len() && b@[x - jobs[i].pos] == image[x]);
                } else {
                    assert(read_matches(jobs, outs, image, i, x));
                }
            }
        } else if jobs[i].phase == Phase::ReadProgress || jobs[i].phase == Phase::Read {
            assert forall|x: int| 0 <= x < jobs[i].pos implies read_matches(
                jobs,
                outs,
                image,
                k,
                x,
            ) by {
                assert(read_matches(jobs, outs, image, i, x));
            }
        }
    }
}

/// A job that verifies can only report success after it has read back every
/// byte of the image and found it equal: in any run of a verify (or
/// flash-and-verify) job from its start whose last step is
/// `Finished(Ok(()))`, bytes read back for a chunk holding each offset `x` of
/// the image were received, and their byte at `x` is `image[x]`. In
/// particular a device that cannot be opened for reading never yields
/// success.
pub proof fn lemma_verify_ok_read_image<'a>(
    jobs: Seq<Job<'a>>,
    outs: Seq<Outcome>,
    steps: Seq<Step>,
)
    requires
        is_run(jobs, outs, steps),
        jobs[0].wf(),
        jobs[0].verify,
        jobs[0].phase == Phase::Start,
        steps.len() > 0,
        steps.last() matches Step::Finished(r) && r is Ok,
    ensures
        forall|x: int|
            0 <= x < jobs[0].len() ==> read_matches(
                jobs,
                outs,
                jobs[0].image@,
                outs.len() as int,
                x,
            ),
{
    let n = outs.len() as int;
    lemma_verify_progress(jobs, outs, steps, n);
}

/// A device that cannot be opened ends the job with the error the driver
/// reported for it, whether it was to be opened for writing or for reading.
pub proof fn lemma_open_failure_ends_job<'a>(j: Job<'a>, e: Error, next: Job<'a>, s: Step)
    requires
        j.phase == Phase::OpenWrite || j.phase == Phase::OpenRead,
        j.transition(Outcome::OpenFailed(e), next, s),
    ensures
        s matches Step::Finished(r) && r == Err::<(), Error>(e),
        next.phase == Phase::Over,
{
}

} // verus!
