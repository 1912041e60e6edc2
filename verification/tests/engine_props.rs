use gitjobs::engine::{CompleteAction, Engine};
use gitjobs::errors::OpError;
use gitjobs::keys::RepoPath;
use gitjobs::resources::{
    JobTicket, ResourceKey, ResourceKind, ResourceParams, ResourceValue, FileBlame, FileDiff,
};

fn loc(path: &str) -> RepoPath {
    RepoPath::new(String::from(path))
}

fn key(path: &str, kind: ResourceKind) -> ResourceKey {
    ResourceKey::new(loc(path), kind)
}

fn dispatch(engine: &mut Engine) -> JobTicket {
    engine.poll_dispatch().expect("a job should be runnable")
}

#[test]
fn submit_never_blocks_and_queues_one_job() {
    let mut engine = Engine::new();
    engine.submit(key("r", ResourceKind::Status), ResourceParams::Stashes);
    assert!(engine.is_in_flight(&key("r", ResourceKind::Status)));
    assert_eq!(engine.generation_of(&key("r", ResourceKind::Status)), 1);
    // read is non-blocking and answers within the call: no data yet.
    assert!(engine.read(&key("r", ResourceKind::Status)).is_none());
}

#[test]
fn single_flight_ten_rapid_submits_run_twice_with_last_params() {
    // Scenario: ten rapid status submits while one job is running ->
    // exactly one additional run, with the parameters of the last submit.
    let mut engine = Engine::new();
    let k = || key("r", ResourceKind::Log);
    engine.submit(k(), ResourceParams::Log(0));
    let first = dispatch(&mut engine);
    assert_eq!(first.generation, 1);
    // The job is running; ten more submits arrive.
    for i in 1..=10u64 {
        engine.submit(k(), ResourceParams::Log(i));
        // No second job can be dispatched while one runs for the key.
        assert!(engine.poll_dispatch().is_none());
    }
    assert_eq!(engine.generation_of(&k()), 11);
    // The first job finishes: stale, discarded, one trailing run queued.
    let action = engine.complete(first, Ok(ResourceValue::Log(Vec::new())));
    assert_eq!(action, CompleteAction::Discarded);
    assert!(!engine.take_wake());
    let second = dispatch(&mut engine);
    assert_eq!(second.generation, 11);
    match &second.params {
        ResourceParams::Log(n) => assert_eq!(*n, 10),
        _ => panic!("wrong params"),
    }
    // The trailing run completes at the live generation: published.
    let action = engine.complete(second, Ok(ResourceValue::Log(Vec::new())));
    assert_eq!(action, CompleteAction::Published);
    assert!(engine.take_wake());
    // Exactly two runs happened: nothing else is runnable.
    assert!(engine.poll_dispatch().is_none());
    assert!(!engine.is_in_flight(&k()));
}

#[test]
fn stale_completion_writes_nothing_and_signals_nothing() {
    // Staleness suppression: a job whose captured generation is below the
    // live generation produces no cache write and no wake signal.
    let mut engine = Engine::new();
    let k = || key("r", ResourceKind::Diff);
    engine.submit(k(), ResourceParams::Diff(String::from("x")));
    let job_x = dispatch(&mut engine);
    engine.submit(k(), ResourceParams::Diff(String::from("y")));
    let action = engine.complete(
        job_x,
        Ok(ResourceValue::Diff(FileDiff { file: String::from("x"), lines: Vec::new() })),
    );
    assert_eq!(action, CompleteAction::Discarded);
    assert!(engine.read(&k()).is_none(), "the stale value must not be cached");
    assert!(!engine.take_wake(), "a discarded job must not wake the reader");
}

#[test]
fn superseded_diff_reflects_second_file_only() {
    // Scenario: diff for file x is superseded by file y before completion;
    // the x result is discarded and the cache ends up with y only.
    let mut engine = Engine::new();
    let k = || key("r", ResourceKind::Diff);
    engine.submit(k(), ResourceParams::Diff(String::from("x")));
    let job_x = dispatch(&mut engine);
    engine.submit(k(), ResourceParams::Diff(String::from("y")));
    assert_eq!(
        engine.complete(
            job_x,
            Ok(ResourceValue::Diff(FileDiff { file: String::from("x"), lines: Vec::new() }))
        ),
        CompleteAction::Discarded
    );
    let job_y = dispatch(&mut engine);
    match &job_y.params {
        ResourceParams::Diff(f) => assert_eq!(f, "y"),
        _ => panic!("wrong params"),
    }
    assert_eq!(
        engine.complete(
            job_y,
            Ok(ResourceValue::Diff(FileDiff { file: String::from("y"), lines: Vec::new() }))
        ),
        CompleteAction::Published
    );
    assert!(engine.take_wake());
    let read = engine.read(&k()).expect("a value must be cached");
    assert!(!read.1, "nothing is in flight any more");
    match read.0 {
        Ok(ResourceValue::Diff(d)) => assert_eq!(d.file, "y"),
        _ => panic!("expected the y diff"),
    }
}

#[test]
fn blame_error_is_cached_then_overwritten_by_success() {
    // Scenario: a blame operation fails; the failure is readable and the
    // in-flight flag drops; a corrected submit overwrites the failure.
    let mut engine = Engine::new();
    let k = || key("r", ResourceKind::Blame);
    engine.submit(k(), ResourceParams::Blame(String::from("missing")));
    let job = dispatch(&mut engine);
    assert_eq!(
        engine.complete(job, Err(OpError::Generic(String::from("object not found")))),
        CompleteAction::Published
    );
    assert!(engine.take_wake(), "a failure is notified like a success");
    let read = engine.read(&k()).expect("the failure must be readable");
    assert!(!read.1);
    assert!(read.0.is_err());
    // Corrected parameters succeed and overwrite the failure.
    engine.submit(k(), ResourceParams::Blame(String::from("present")));
    let job = dispatch(&mut engine);
    assert_eq!(
        engine.complete(
            job,
            Ok(ResourceValue::Blame(FileBlame {
                file: String::from("present"),
                lines: vec![String::from("line")],
            }))
        ),
        CompleteAction::Published
    );
    let read = engine.read(&k()).expect("the success must be readable");
    assert!(read.0.is_ok());
}

#[test]
fn same_location_jobs_are_serialized_different_locations_run_together() {
    let mut engine = Engine::new();
    engine.submit(key("a", ResourceKind::Status), ResourceParams::Stashes);
    engine.submit(key("a", ResourceKind::Tags), ResourceParams::Tags);
    engine.submit(key("b", ResourceKind::Tags), ResourceParams::Tags);
    let first = dispatch(&mut engine);
    assert_eq!(first.key.location.path, "a");
    // The other key on location "a" must wait; location "b" may run.
    let second = dispatch(&mut engine);
    assert_eq!(second.key.location.path, "b");
    assert!(engine.poll_dispatch().is_none());
    engine.complete(first, Ok(ResourceValue::Stashes(Vec::new())));
    // Location "a" is free again: the tags job for "a" can start.
    let third = dispatch(&mut engine);
    assert_eq!(third.key.location.path, "a");
}

#[test]
fn wake_signals_coalesce_without_loss() {
    let mut engine = Engine::new();
    for kind in [ResourceKind::Tags, ResourceKind::Stashes] {
        engine.submit(key("a", kind), ResourceParams::Tags);
        let t = dispatch(&mut engine);
        engine.complete(t, Ok(ResourceValue::Tags(gitjobs::tags::Tags::new())));
    }
    // Two publishes before one take: one wake-up suffices, none is lost.
    assert!(engine.take_wake());
    assert!(!engine.take_wake());
}

#[test]
fn foreign_ticket_is_ignored() {
    let mut engine = Engine::new();
    engine.submit(key("a", ResourceKind::Tags), ResourceParams::Tags);
    let stray = JobTicket {
        key: key("a", ResourceKind::Tags),
        params: ResourceParams::Tags,
        generation: 7,
    };
    // No running job carries generation 7: the outcome is dropped whole.
    assert_eq!(
        engine.complete(stray, Ok(ResourceValue::Tags(gitjobs::tags::Tags::new()))),
        CompleteAction::Ignored
    );
    assert!(engine.read(&key("a", ResourceKind::Tags)).is_none());
}
