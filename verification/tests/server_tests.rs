use just_tile::server::{answer, report, Metrics, Outcome, Reply, Stage, StepOutcome, TileJob};

fn stages(needs_metadata: bool, directory: u32) -> Vec<Stage> {
    let mut job = TileJob::new(needs_metadata);
    let mut visited = vec![job.stage];
    while job.stage != Stage::Finished {
        let outcome = if job.stage == Stage::Plan {
            StepOutcome::Planned(directory)
        } else {
            StepOutcome::Done
        };
        visited.push(job.step(outcome).unwrap());
    }
    visited
}

fn job_at(stage: Stage) -> TileJob {
    TileJob { stage, needs_metadata: true, directories: 1 }
}

fn rendered(load_ms: u64, resample_ms: u64, encode_ms: u64) -> Outcome {
    Outcome::Rendered { png: vec![1], load_ms, resample_ms, encode_ms }
}

#[test]
fn a_tile_of_a_new_file_is_made_in_order() {
    assert_eq!(
        stages(true, 2),
        vec![
            Stage::Seek,
            Stage::Open,
            Stage::Metadata,
            Stage::MetadataRewind,
            Stage::MetadataReopen,
            Stage::Plan,
            Stage::Locate,
            Stage::Prefetch,
            Stage::Rewind,
            Stage::Reopen,
            Stage::NextDirectory,
            Stage::NextDirectory,
            Stage::Extract,
            Stage::Encode,
            Stage::Finished,
        ]
    );
}

#[test]
fn known_metadata_is_not_read_again() {
    let visited = stages(false, 0);
    assert_eq!(visited[2], Stage::Plan);
    assert!(!visited.contains(&Stage::Metadata));
    assert!(!visited.contains(&Stage::NextDirectory));
    assert_eq!(visited.len(), 10);
}

#[test]
fn failed_steps_have_their_messages() {
    for (stage, message) in [
        (Stage::Seek, "Reader seek error: x"),
        (Stage::Open, "TIFF decoder init error: x"),
        (Stage::MetadataRewind, "Reader re-seek error: x"),
        (Stage::MetadataReopen, "TIFF decoder re-init error: x"),
        (Stage::Plan, "Planning error: x"),
        (Stage::Locate, "Prefetch calculation error: x"),
        (Stage::Prefetch, "Prefetch error: x"),
        (Stage::Rewind, "Reader re-seek error: x"),
        (Stage::Reopen, "TIFF decoder re-init error: x"),
        (Stage::NextDirectory, "IFD traversal error: x"),
        (Stage::Extract, "x"),
        (Stage::Encode, "PNG encode error: x"),
    ] {
        let mut job = job_at(stage);
        let failed = job.step(StepOutcome::Failed("x".to_string()));
        assert_eq!(failed, Err(message.to_string()));
        assert_eq!(job.stage, stage);
    }
}

#[test]
fn unreadable_metadata_does_not_stop_the_job() {
    let mut job = job_at(Stage::Metadata);
    let outcome = StepOutcome::Failed("Unsupported EPSG code: 0".to_string());
    assert_eq!(job.step(outcome), Ok(Stage::MetadataRewind));
}

#[test]
fn totals_start_at_zero() {
    let metrics = Metrics::default();
    assert_eq!(
        (
            metrics.total_requests,
            metrics.total_errors,
            metrics.cumulative_load_time_ms,
            metrics.cumulative_resample_time_ms,
            metrics.cumulative_encode_time_ms,
        ),
        (0, 0, 0, 0, 0)
    );
}

#[test]
fn totals_count_the_requests() {
    let mut metrics = Metrics::default();
    for outcome in [
        rendered(5, 7, 11),
        Outcome::HeadFailed("x".to_string()),
        Outcome::WorkerLost,
        Outcome::Rejected("x".to_string()),
        rendered(100, 200, 300),
    ] {
        assert!(metrics.can_count(&outcome));
        metrics.count(&outcome);
    }
    assert_eq!((metrics.total_requests, metrics.total_errors), (2, 2));
    assert_eq!(metrics.cumulative_load_time_ms, 105);
    assert_eq!(metrics.cumulative_resample_time_ms, 207);
    assert_eq!(metrics.cumulative_encode_time_ms, 311);
}

#[test]
fn full_totals_are_recognised() {
    let full = Metrics { total_errors: u64::MAX, ..Metrics::default() };
    assert!(!full.can_count(&Outcome::WorkerLost));
    assert!(full.can_count(&rendered(1, 1, 1)));
    assert!(full.can_count(&Outcome::HeadFailed(String::new())));
    let full = Metrics { cumulative_encode_time_ms: u64::MAX - 1, ..Metrics::default() };
    assert!(full.can_count(&rendered(0, 0, 1)));
    assert!(!full.can_count(&rendered(0, 0, 2)));
}

#[test]
fn requests_are_answered() {
    assert!(matches!(answer(Outcome::HeadFailed("x".to_string())), Reply::Status(400)));
    assert!(matches!(answer(Outcome::Rejected("x".to_string())), Reply::Status(400)));
    assert!(matches!(answer(Outcome::WorkerLost), Reply::Status(500)));
    match answer(rendered(1, 2, 3)) {
        Reply::Image(png) => assert_eq!(png, vec![1]),
        Reply::Status(code) => panic!("{}", code),
    }
}

#[test]
fn tiles_are_png_images_for_every_origin() {
    let image = answer(rendered(1, 2, 3));
    assert_eq!(image.status(), 200);
    assert_eq!(
        image.headers(),
        vec![("content-type", "image/png"), ("access-control-allow-origin", "*")]
    );
    let failed = answer(Outcome::WorkerLost);
    assert_eq!(failed.status(), 500);
    assert!(failed.headers().is_empty());
}

#[test]
fn failures_are_printed() {
    assert_eq!(
        report(&Outcome::HeadFailed("dns".to_string())),
        Some("HEAD error: dns".to_string())
    );
    assert_eq!(
        report(&Outcome::Rejected("Planning error: x".to_string())),
        Some("Error processing tile: Planning error: x".to_string())
    );
    assert_eq!(report(&Outcome::WorkerLost), None);
    assert_eq!(report(&rendered(1, 1, 1)), None);
}
