use ps5de_core::error::{Error, IoFailure};
use ps5de_core::flash::{flash, flash_and_verify, sync_failure_is_benign, verify, Job, Outcome, ProgressEvent, Step};

/// An in-memory device with a cursor, standing in for a raw disk.
struct Memory {
    data: Vec<u8>,
    pos: usize,
}

/// What the driver saw while running a job.
#[derive(Default)]
struct Seen {
    stages: Vec<String>,
    progress: Vec<(u64, u64)>,
    writes: Vec<(usize, usize)>,
    syncs: usize,
}

/// Runs `job` against `dev`, performing each step; `fail` may turn the
/// outcome of a step into a failure.
fn run(
    job: &mut Job,
    dev: &mut Memory,
    seen: &mut Seen,
    fail: &mut dyn FnMut(&Step) -> Option<Outcome>,
) -> Result<(), Error> {
    let image = job.image;
    let mut outcome = Outcome::Done;
    loop {
        let step = job.step(outcome);
        if let Some(o) = fail(&step) {
            if let Step::Finished(r) = step {
                return r;
            }
            outcome = o;
            continue;
        }
        outcome = match step {
            Step::Report(ProgressEvent::Stage(s)) => {
                seen.stages.push(s.to_string());
                Outcome::Done
            }
            Step::Report(ProgressEvent::Progress { done, total }) => {
                seen.progress.push((done, total));
                Outcome::Done
            }
            Step::OpenForWrite | Step::OpenForRead | Step::Flush => Outcome::Done,
            Step::Sync => {
                seen.syncs += 1;
                Outcome::Done
            }
            Step::Seek => {
                dev.pos = 0;
                Outcome::Done
            }
            Step::Write { start, end } => {
                let chunk = &image[start..end];
                dev.data[dev.pos..dev.pos + chunk.len()].copy_from_slice(chunk);
                dev.pos += chunk.len();
                seen.writes.push((start, end));
                Outcome::Done
            }
            Step::Read { len } => {
                let bytes = dev.data[dev.pos..dev.pos + len].to_vec();
                dev.pos += len;
                Outcome::Bytes(bytes)
            }
            Step::Finished(r) => return r,
        };
    }
}

fn no_failure(_: &Step) -> Option<Outcome> {
    None
}

fn failure(raw: Option<i32>, permission_denied: bool) -> IoFailure {
    IoFailure { permission_denied, raw_os_error: raw, message: "boom".to_string() }
}

#[test]
fn round_trip_matches() {
    // 2 MiB of varied data, like the real enabler image.
    let image: Vec<u8> = (0..2 * 1024 * 1024).map(|i| (i * 31 + 7) as u8).collect();
    let mut backing = Memory { data: vec![0u8; image.len()], pos: 0 };

    let mut job = flash(&image).unwrap();
    run(&mut job, &mut backing, &mut Seen::default(), &mut no_failure).unwrap();
    let mut job = verify(&image).unwrap();
    run(&mut job, &mut backing, &mut Seen::default(), &mut no_failure).unwrap();
}

#[test]
fn verify_detects_corruption() {
    let image: Vec<u8> = (0..2 * 1024 * 1024).map(|i| i as u8).collect();
    let mut backing = Memory { data: image.clone(), pos: 0 };
    // Flip a byte in the second chunk.
    backing.data[1_500_000] ^= 0xFF;

    let mut job = verify(&image).unwrap();
    match run(&mut job, &mut backing, &mut Seen::default(), &mut no_failure) {
        Err(Error::VerifyMismatch { offset }) => assert_eq!(offset, 1_500_000),
        other => panic!("expected mismatch, got {other:?}"),
    }
}

#[test]
fn progress_reaches_total() {
    let image = vec![0xABu8; 2 * 1024 * 1024];
    let mut backing = Memory { data: vec![0u8; image.len()], pos: 0 };
    let total = image.len() as u64;
    let mut seen = Seen::default();
    let mut job = flash(&image).unwrap();
    run(&mut job, &mut backing, &mut seen, &mut no_failure).unwrap();
    let mut last = 0u64;
    for (done, t) in &seen.progress {
        assert_eq!(*t, total);
        last = *done;
    }
    assert_eq!(last, total);
}

#[test]
fn flash_writes_whole_chunks_in_order() {
    let image: Vec<u8> = (0..3 * 1024 * 1024 + 8192).map(|i| (i % 251) as u8).collect();
    let mut backing = Memory { data: vec![0x55u8; image.len() + 4096], pos: 0 };
    let mut seen = Seen::default();
    let mut job = flash(&image).unwrap();
    run(&mut job, &mut backing, &mut seen, &mut no_failure).unwrap();
    assert_eq!(
        seen.writes,
        vec![(0, 1048576), (1048576, 2097152), (2097152, 3145728), (3145728, 3153920)]
    );
    assert_eq!(&backing.data[..image.len()], &image[..]);
    assert_eq!(&backing.data[image.len()..], &[0x55u8; 4096][..]);
    assert_eq!(
        seen.stages,
        vec!["Preparing device", "Writing enabler image", "Flushing to hardware"]
    );
    assert_eq!(seen.syncs, 1);
}

#[test]
fn flash_and_verify_runs_both_phases() {
    let image: Vec<u8> = (0..1024 * 1024).map(|i| (i * 7) as u8).collect();
    let mut backing = Memory { data: vec![0u8; image.len()], pos: 0 };
    let mut seen = Seen::default();
    let mut job = flash_and_verify(&image).unwrap();
    run(&mut job, &mut backing, &mut seen, &mut no_failure).unwrap();
    assert_eq!(
        seen.stages,
        vec![
            "Preparing device",
            "Writing enabler image",
            "Flushing to hardware",
            "Verifying written data"
        ]
    );
    assert_eq!(seen.progress, vec![(1048576, 1048576), (1048576, 1048576)]);
}

#[test]
fn verify_reports_first_difference_in_first_chunk() {
    let image = vec![1u8; 8192];
    let mut data = vec![1u8; 8192];
    data[4097] = 0;
    data[5000] = 0;
    let mut backing = Memory { data, pos: 0 };
    let mut job = verify(&image).unwrap();
    match run(&mut job, &mut backing, &mut Seen::default(), &mut no_failure) {
        Err(Error::VerifyMismatch { offset }) => assert_eq!(offset, 4097),
        other => panic!("expected mismatch, got {other:?}"),
    }
}

#[test]
fn invalid_images_are_refused_before_any_step() {
    match flash(&[]) {
        Err(Error::InvalidImage(m)) => assert_eq!(m, "image is empty"),
        _ => panic!("empty image accepted"),
    }
    match verify(&[0u8; 100]) {
        Err(Error::InvalidImage(m)) => assert_eq!(
            m,
            "image length 100 is not a multiple of the 4096-byte block size; raw device writes require block alignment"
        ),
        _ => panic!("misaligned image accepted"),
    }
    assert!(flash_and_verify(&[0u8; 4096]).is_ok());
}

#[test]
fn write_failure_reports_context() {
    let image = vec![9u8; 4096];
    let mut backing = Memory { data: vec![0u8; 4096], pos: 0 };
    let mut job = flash(&image).unwrap();
    let mut fail = |s: &Step| match s {
        Step::Write { .. } => Some(Outcome::Failed(failure(Some(5), false))),
        _ => None,
    };
    match run(&mut job, &mut backing, &mut Seen::default(), &mut fail) {
        Err(Error::Io { context, source }) => {
            assert_eq!(context, "writing to device");
            assert_eq!(source.raw_os_error, Some(5));
        }
        other => panic!("unexpected {other:?}"),
    }
}

#[test]
fn permission_denied_on_seek_becomes_permission_error() {
    let image = vec![9u8; 4096];
    let mut backing = Memory { data: vec![0u8; 4096], pos: 0 };
    let mut job = verify(&image).unwrap();
    let mut fail = |s: &Step| match s {
        Step::Seek => Some(Outcome::Failed(failure(Some(13), true))),
        _ => None,
    };
    match run(&mut job, &mut backing, &mut Seen::default(), &mut fail) {
        Err(Error::Permission(ctx)) => assert_eq!(ctx, "seeking to start of device"),
        other => panic!("unexpected {other:?}"),
    }
}

#[test]
fn open_failure_ends_the_job() {
    let image = vec![9u8; 4096];
    let mut backing = Memory { data: vec![0u8; 4096], pos: 0 };
    let mut job = flash(&image).unwrap();
    let mut fail = |s: &Step| match s {
        Step::OpenForWrite => Some(Outcome::OpenFailed(Error::Busy("x".to_string()))),
        _ => None,
    };
    match run(&mut job, &mut backing, &mut Seen::default(), &mut fail) {
        Err(Error::Busy(m)) => assert_eq!(m, "x"),
        other => panic!("unexpected {other:?}"),
    }
}

#[test]
fn benign_sync_errors_are_ignored() {
    assert!(sync_failure_is_benign(&failure(Some(25), false)));
    assert!(sync_failure_is_benign(&failure(Some(22), false)));
    assert!(!sync_failure_is_benign(&failure(Some(5), false)));
    assert!(!sync_failure_is_benign(&failure(None, false)));

    let image = vec![3u8; 4096];
    let mut backing = Memory { data: vec![0u8; 4096], pos: 0 };
    let mut job = flash(&image).unwrap();
    let mut fail = |s: &Step| match s {
        Step::Sync => Some(Outcome::Failed(failure(Some(25), false))),
        _ => None,
    };
    run(&mut job, &mut backing, &mut Seen::default(), &mut fail).unwrap();

    let mut job = flash(&image).unwrap();
    let mut fail = |s: &Step| match s {
        Step::Sync => Some(Outcome::Failed(failure(Some(5), false))),
        _ => None,
    };
    match run(&mut job, &mut backing, &mut Seen::default(), &mut fail) {
        Err(Error::Io { context, .. }) => assert_eq!(context, "syncing device"),
        other => panic!("unexpected {other:?}"),
    }
}
