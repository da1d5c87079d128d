use library::jobs::{ExitEvent, JobError, JobId, JobKey, JobState, Jobs, Status};
use library::service::{
    job_id_or_error, job_output, parse_job_id, start_job_result, status_result, stop_result, JobOutput,
    StartJobResult, StatusResult,
};
use library::supervisor::output_record;
use library::{pid_to_name, NoOpController, Record, RecordType, ResourceController, Supervisor};

fn key(owner: &str, id: u128) -> JobKey {
    JobKey {
        owner: owner.to_string(),
        id: JobId::from_u128(id),
    }
}

#[test]
fn job_id_text_is_hyphenated_lowercase_uuid() {
    let id = JobId::from_u128(0x936DA01F9ABD4D9D80C702AF85C822A8);
    assert_eq!(id.to_string(), "936da01f-9abd-4d9d-80c7-02af85c822a8");
    assert_eq!(JobId::from_str("936DA01F-9ABD-4D9D-80C7-02AF85C822A8"), Ok(id));
    assert_eq!(JobId::from_str("bogus"), Err(()));
}

#[test]
fn job_id_text_parses_back() {
    for _ in 0..10 {
        let id = JobId::new();
        assert_eq!(JobId::from_str(&id.to_string()), Ok(id));
    }
    assert_ne!(JobId::new(), JobId::new());
}

#[test]
fn new_job_ids_are_version_4_uuids() {
    for _ in 0..10 {
        let value = JobId::new().as_u128();
        assert_eq!((value >> 76) & 0xf, 4);
        assert_eq!((value >> 62) & 0x3, 2);
        let text: Vec<char> = JobId::from_u128(value).to_string().chars().collect();
        assert_eq!(text[14], '4');
        assert!(matches!(text[19], '8' | '9' | 'a' | 'b'));
    }
}

#[test]
fn job_lifecycle_exit() {
    let mut state = JobState::new();
    assert_eq!(state.check_start(), Ok(()));
    state.mark_running();
    assert_eq!(state.check_start(), Err(JobError::AlreadyStarted));
    assert_eq!(state.status(ExitEvent::Pending), Status::Running);
    assert_eq!(state.status(ExitEvent::Ended(Some(0))), Status::Exited { exit_status: 0 });
    // the exit status stays, whatever the channel says later
    assert_eq!(state.status(ExitEvent::Closed), Status::Exited { exit_status: 0 });
    assert!(!state.stop(ExitEvent::Pending));
    assert_eq!(state, JobState::Stopped);
}

#[test]
fn job_lifecycle_stop() {
    let mut created = JobState::new();
    assert_eq!(created.status(ExitEvent::Closed), Status::Running);
    let mut state = JobState::new();
    state.mark_running();
    assert!(state.stop(ExitEvent::Pending));
    assert_eq!(state.status(ExitEvent::Ended(Some(1))), Status::Stopped);
    let mut killed = JobState::Running;
    assert_eq!(killed.status(ExitEvent::Ended(None)), Status::Stopped);
    let mut closed = JobState::Running;
    assert_eq!(closed.status(ExitEvent::Closed), Status::Stopped);
    assert!(!closed.stop(ExitEvent::Pending));
}

#[test]
fn jobs_are_found_by_owner_and_id() {
    let mut jobs: Jobs<u32> = Jobs::new();
    jobs.insert(key("user1@company.com", 1), 10);
    jobs.insert(key("user1@company.com", 2), 20);
    assert_eq!(jobs.get(&key("user1@company.com", 1)), Ok(&10));
    assert_eq!(jobs.get(&key("user2@company.com", 1)), Err(JobError::NoSuchJob));
    *jobs.get_mut(&key("user1@company.com", 2)).unwrap() = 21;
    assert_eq!(jobs.get(&key("user1@company.com", 2)), Ok(&21));
    jobs.insert(key("user1@company.com", 1), 11);
    assert_eq!(jobs.get(&key("user1@company.com", 1)), Ok(&11));
}

#[test]
fn stopping_twice_finds_no_job() {
    let mut jobs: Jobs<u32> = Jobs::new();
    jobs.insert(key("user1@company.com", 7), 70);
    assert_eq!(jobs.remove(&key("user2@company.com", 7)), Err(JobError::NoSuchJob));
    assert_eq!(jobs.remove(&key("user1@company.com", 7)), Ok(70));
    assert_eq!(jobs.remove(&key("user1@company.com", 7)), Err(JobError::NoSuchJob));
    assert!(jobs.get_mut(&key("user1@company.com", 7)).is_err());
}

#[test]
fn start_job_answers() {
    let id = JobId::from_u128(1);
    match start_job_result(Ok(id)) {
        StartJobResult::Id(text) => assert_eq!(text, "00000000-0000-0000-0000-000000000001"),
        other => panic!("unexpected {:?}", other),
    }
    match start_job_result(Err("No such file or directory (os error 2)".to_string())) {
        StartJobResult::Error(text) => assert_eq!(
            text,
            "failed to start job: No such file or directory (os error 2)"
        ),
        other => panic!("unexpected {:?}", other),
    }
}

#[test]
fn stop_and_status_answers() {
    assert_eq!(stop_result(Ok(())).error, "");
    assert_eq!(stop_result(Err(JobError::NoSuchJob)).error, "no such job id");
    assert!(matches!(status_result(Ok(Status::Running)), StatusResult::Running));
    assert!(matches!(status_result(Ok(Status::Stopped)), StatusResult::Stopped));
    assert!(matches!(
        status_result(Ok(Status::Exited { exit_status: 0 })),
        StatusResult::Exited { exit_status: 0 }
    ));
    match status_result(Err(JobError::NoSuchJob)) {
        StatusResult::Error(text) => assert_eq!(text, "no such job id"),
        other => panic!("unexpected {:?}", other),
    }
    assert_eq!(
        JobError::AlreadyStarted.message(),
        "cannot start a job that has already been started"
    );
}

#[test]
fn invalid_ids_are_reported() {
    assert_eq!(parse_job_id("bogus").unwrap_err(), "invalid id: bogus");
    let id = JobId::from_u128(0xdeadbeef);
    assert_eq!(parse_job_id(&id.to_string()), Ok(id));
}

#[test]
fn records_become_job_output() {
    match job_output(Record {
        record_type: RecordType::Stdout,
        data: b"test\n".to_vec(),
    }) {
        JobOutput::Stdout(data) => assert_eq!(data, b"test\n".to_vec()),
        other => panic!("unexpected {:?}", other),
    }
    match job_output(Record {
        record_type: RecordType::Stderr,
        data: b"oops".to_vec(),
    }) {
        JobOutput::Stderr(data) => assert_eq!(data, b"oops".to_vec()),
        other => panic!("unexpected {:?}", other),
    }
}

#[test]
fn cgroup_names_follow_pids() {
    assert_eq!(pid_to_name(1234), "worker-1234");
    assert_eq!(pid_to_name(0), "worker-0");
    assert_eq!(pid_to_name(u32::MAX), "worker-4294967295");
}

#[test]
fn no_op_controller_succeeds() {
    let c = NoOpController {};
    assert!(c.setup().is_ok());
    assert!(c.cleanup(42).is_ok());
}

#[test]
fn supervisor_keeps_its_command() {
    let s = Supervisor::new("/bin/sh", &["-c".to_string(), "exit 1".to_string()]).unwrap();
    assert_eq!(s.executable(), "/bin/sh");
    assert_eq!(s.arguments(), &["-c".to_string(), "exit 1".to_string()]);
}

#[test]
fn parse_outcomes_become_ids_or_messages() {
    assert_eq!(JobId::from_parsed(Some(5)), Ok(JobId::from_u128(5)));
    assert_eq!(JobId::from_parsed(None), Err(()));
    assert_eq!(job_id_or_error("x", Ok(JobId::from_u128(9))), Ok(JobId::from_u128(9)));
    assert_eq!(job_id_or_error("x", Err(())).unwrap_err(), "invalid id: x");
}

#[test]
fn output_reads_become_records() {
    let buffer = [b'a', b'b', b'c', 0, 0];
    assert_eq!(
        output_record(RecordType::Stderr, &buffer, 3),
        Some(Record {
            record_type: RecordType::Stderr,
            data: b"abc".to_vec()
        })
    );
    assert_eq!(output_record(RecordType::Stdout, &buffer, 0), None);
}

#[test]
fn uuid_texts_of_every_accepted_form() {
    let id = JobId::from_u128(0x936DA01F9ABD4D9D80C702AF85C822A8);
    assert_eq!(JobId::from_str("936da01f9abd4d9d80c702af85c822a8"), Ok(id));
    assert_eq!(JobId::from_str("936DA01F9ABD4D9D80C702AF85C822A8"), Ok(id));
    assert_eq!(JobId::from_str("urn:uuid:936da01f-9abd-4d9d-80c7-02af85c822a8"), Ok(id));
    assert_eq!(JobId::from_str("URN:UUID:936da01f-9abd-4d9d-80c7-02af85c822a8"), Err(()));
    assert_eq!(JobId::from_str("936da01f9-abd-4d9d-80c7-02af85c822a8"), Err(()));
    assert_eq!(JobId::from_str("936da01f-9abd-4d9d-80c7-02af85c822ag"), Err(()));
    assert_eq!(JobId::from_str("{936da01f-9abd-4d9d-80c7-02af85c822a8}"), Err(()));
    assert_eq!(JobId::from_str(""), Err(()));
}
