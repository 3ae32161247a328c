use lfstage::fetch::{
    dest_path, plan_fetches, run_verdict, staging_path, user_agent, DownloadError, FetchEvent,
    FetchFailure, FetchOutcome, FetchState, CONNECT_TIMEOUT_SECS, REDIRECT_LIMIT,
};
use lfstage::manifest::parse_manifest;

fn drive(force: bool, events: Vec<FetchEvent>) -> FetchState {
    let mut s = FetchState::start();
    for ev in events {
        s = s.step(force, ev);
    }
    s
}

fn outcome_of(s: FetchState) -> FetchOutcome {
    match s {
        FetchState::Finished { outcome } => outcome,
        other => panic!("fetch not finished: {other:?}"),
    }
}

fn happy_path() -> Vec<FetchEvent> {
    vec![
        FetchEvent::Status { code: 200 },
        FetchEvent::Destination { exists: false },
        FetchEvent::StagingOpen,
        FetchEvent::ChunkWritten,
        FetchEvent::ChunkWritten,
        FetchEvent::BodyDone,
        FetchEvent::Promoted,
    ]
}

#[test]
fn transport_policy_constants() {
    assert_eq!(REDIRECT_LIMIT, 16);
    assert_eq!(CONNECT_TIMEOUT_SECS, 32);
    assert_eq!(user_agent("lfstage", "3.0.0"), "lfstage/3.0.0");
}

#[test]
fn paths_for_one_descriptor() {
    let d = dest_path("/var/cache/lfstage/profiles/p/sources", "bash.tar.gz");
    assert_eq!(d, "/var/cache/lfstage/profiles/p/sources/bash.tar.gz");
    assert_eq!(staging_path(&d), "/var/cache/lfstage/profiles/p/sources/bash.tar.gz.part");
}

#[test]
fn successful_fetch_materializes() {
    let outcome = outcome_of(drive(false, happy_path()));
    assert!(matches!(outcome, FetchOutcome::Materialized));
}

#[test]
fn three_distinct_destinations_all_succeed() {
    let manifest = "https://x.org/a.gz\nhttps://x.org/b.gz\nhttps://x.org/c.gz\n";
    let dls = parse_manifest(manifest).expect("must parse");
    let plans = plan_fetches(&dls, "/dest");
    assert_eq!(plans.len(), 3);
    for i in 0..plans.len() {
        for j in 0..i {
            assert_ne!(plans[i].dest_path, plans[j].dest_path);
        }
    }
    let mut outcomes = Vec::new();
    for _ in &plans {
        outcomes.push(outcome_of(drive(false, happy_path())));
    }
    assert_eq!(outcomes.len(), 3);
    assert!(outcomes.iter().all(|o| matches!(o, FetchOutcome::Materialized)));
    assert!(run_verdict(&outcomes).is_ok());
}

#[test]
fn one_http_error_fails_the_run_but_not_its_siblings() {
    let failing = drive(false, vec![FetchEvent::Status { code: 503 }]);
    let failed = outcome_of(failing);
    assert!(matches!(failed, FetchOutcome::Failed(FetchFailure::HttpStatus(503))));

    let outcomes = vec![
        outcome_of(drive(false, happy_path())),
        failed,
        outcome_of(drive(false, happy_path())),
    ];
    // The two siblings still materialized; the aggregate reports one failure.
    assert!(matches!(outcomes[0], FetchOutcome::Materialized));
    assert!(matches!(outcomes[2], FetchOutcome::Materialized));
    match run_verdict(&outcomes) {
        Err(DownloadError::FetchesFailed(n)) => assert_eq!(n, 1),
        other => panic!("expected an aggregate failure, got {other:?}"),
    }
}

#[test]
fn existing_destination_is_skipped_not_refetched() {
    let s = drive(
        false,
        vec![FetchEvent::Status { code: 200 }, FetchEvent::Destination { exists: true }],
    );
    assert!(matches!(
        s,
        FetchState::Finished { outcome: FetchOutcome::SkippedExisting }
    ));
    // A skip is a success for the aggregate.
    let outcomes = vec![FetchOutcome::SkippedExisting, FetchOutcome::SkippedExisting];
    assert!(run_verdict(&outcomes).is_ok());
}

#[test]
fn force_refetches_an_existing_destination() {
    let s = drive(
        true,
        vec![FetchEvent::Status { code: 200 }, FetchEvent::Destination { exists: true }],
    );
    assert!(matches!(s, FetchState::OpenStaging));
}

#[test]
fn status_is_checked_before_the_skip() {
    // A bad status fails the fetch even when the destination exists.
    let s = drive(
        false,
        vec![
            FetchEvent::Status { code: 404 },
            FetchEvent::Destination { exists: true },
        ],
    );
    assert!(matches!(
        outcome_of(s),
        FetchOutcome::Failed(FetchFailure::HttpStatus(404))
    ));
}

#[test]
fn redirect_status_is_not_success() {
    let s = drive(false, vec![FetchEvent::Status { code: 301 }]);
    assert!(matches!(
        outcome_of(s),
        FetchOutcome::Failed(FetchFailure::HttpStatus(301))
    ));
}

#[test]
fn midstream_failure_never_promotes() {
    // The body breaks off after one chunk: the machine asks for the staging
    // file's removal and reports the failure; it never reaches Promote, so
    // the fetch puts nothing at the destination path.
    let s = drive(
        false,
        vec![
            FetchEvent::Status { code: 200 },
            FetchEvent::Destination { exists: false },
            FetchEvent::StagingOpen,
            FetchEvent::ChunkWritten,
            FetchEvent::IoFailed { message: "connection reset".to_string() },
        ],
    );
    assert!(matches!(&s, FetchState::CleanupStaging { .. }));
    let s = s.step(false, FetchEvent::CleanedUp);
    assert!(matches!(
        outcome_of(s),
        FetchOutcome::Failed(FetchFailure::Io(m)) if m == "connection reset"
    ));
}

#[test]
fn rename_failure_cleans_up() {
    let s = drive(
        false,
        vec![
            FetchEvent::Status { code: 200 },
            FetchEvent::Destination { exists: false },
            FetchEvent::StagingOpen,
            FetchEvent::BodyDone,
            FetchEvent::IoFailed { message: "no space".to_string() },
            FetchEvent::CleanedUp,
        ],
    );
    assert!(matches!(
        outcome_of(s),
        FetchOutcome::Failed(FetchFailure::Io(m)) if m == "no space"
    ));
}

#[test]
fn request_failure_fails_the_fetch() {
    let s = drive(
        false,
        vec![FetchEvent::RequestFailed { message: "dns".to_string() }],
    );
    assert!(matches!(
        outcome_of(s),
        FetchOutcome::Failed(FetchFailure::Io(m)) if m == "dns"
    ));
}

#[test]
fn finished_fetch_ignores_late_events() {
    let mut s = drive(false, happy_path());
    s = s.step(false, FetchEvent::IoFailed { message: "late".to_string() });
    assert!(matches!(
        s,
        FetchState::Finished { outcome: FetchOutcome::Materialized }
    ));
}

#[test]
fn second_unforced_run_is_side_effect_free() {
    // First run: everything materializes. Second run over the same
    // manifest: every destination now exists, so every fetch finishes as a
    // skip straight after the headers — no staging, no writes, no renames —
    // and the run is still a success.
    let manifest = "https://x.org/a.gz\nhttps://x.org/b.gz\n";
    let dls = parse_manifest(manifest).expect("must parse");
    let first: Vec<FetchOutcome> = dls
        .iter()
        .map(|_| outcome_of(drive(false, happy_path())))
        .collect();
    assert!(run_verdict(&first).is_ok());

    let second: Vec<FetchOutcome> = dls
        .iter()
        .map(|_| {
            outcome_of(drive(
                false,
                vec![
                    FetchEvent::Status { code: 200 },
                    FetchEvent::Destination { exists: true },
                ],
            ))
        })
        .collect();
    assert!(second.iter().all(|o| matches!(o, FetchOutcome::SkippedExisting)));
    assert!(run_verdict(&second).is_ok());
}

#[test]
fn empty_run_is_ok() {
    assert!(run_verdict(&Vec::new()).is_ok());
}
