use vstd::prelude::*;

use crate::jobs::{hyphenated, uuid_parse, JobError, JobId, Status};
use crate::record::{Record, RecordType};

verus! {

/// The answer to a request to start a job: the new job's identifier, or why it did not start.
#[derive(Debug)]
pub enum StartJobResult {
    Id(String),
    Error(String),
}

/// The answer to a request to stop a job: empty where it was stopped, else why not.
#[derive(Debug)]
pub struct StopResult {
    pub error: String,
}

/// The answer to a request for a job's status.
#[derive(Debug)]
pub enum StatusResult {
    Running,
    Exited { exit_status: i32 },
    Stopped,
    Error(String),
}

/// A piece of a job's output, as sent to the user that fetches it.
#[derive(Debug)]
pub enum JobOutput {
    Stdout(Vec<u8>),
    Stderr(Vec<u8>),
}

/// The answer to a request to start a job, from the identifier of the started job or the text
/// of the error that kept it from starting.
pub fn start_job_result(outcome: Result<JobId, String>) -> (result: StartJobResult)
    ensures
        match outcome {
            Ok(id) => result matches StartJobResult::Id(text) && text@ == hyphenated(id@),
            Err(e) => result matches StartJobResult::Error(text) && text@
                == "failed to start job: "@ + e@,
        },
{
    match outcome {
        Ok(id) => StartJobResult::Id(id.to_string()),
        Err(e) => {
            let mut text = String::from_str("failed to start job: ");
            text.append(e.as_str());
            StartJobResult::Error(text)
        },
    }
}

/// The identifier that a request names, or the message that reports an invalid one.
pub fn parse_job_id(id: &str) -> (result: Result<JobId, String>)
    ensures
        match uuid_parse(id@) {
            Some(v) => result matches Ok(job_id) && job_id@ == v,
            None => result matches Err(text) && text@ == "invalid id: "@ + id@,
        },
        forall|v: u128| id@ == hyphenated(v) ==> (result matches Ok(job_id) && job_id@ == v),
{
    job_id_or_error(id, JobId::from_str(id))
}

/// The identifier that a request names, from the outcome of parsing its text `id`, or the
/// message that reports an invalid one.
pub fn job_id_or_error(id: &str, parsed: Result<JobId, ()>) -> (result: Result<JobId, String>)
    ensures
        match parsed {
            Ok(job_id) => result == Ok::<JobId, String>(job_id),
            Err(()) => result matches Err(text) && text@ == "invalid id: "@ + id@,
        },
{
    match parsed {
        Ok(job_id) => Ok(job_id),
        Err(()) => {
            let mut text = String::from_str("invalid id: ");
            text.append(id);
            Err(text)
        },
    }
}

/// The answer to a request to stop a job, from the outcome of stopping it.
pub fn stop_result(outcome: Result<(), JobError>) -> (result: StopResult)
    ensures
        match outcome {
            Ok(()) => result.error@ == Seq::<char>::empty(),
            Err(JobError::NoSuchJob) => result.error@ == "no such job id"@,
            Err(JobError::AlreadyStarted) => result.error@
                == "cannot start a job that has already been started"@,
        },
{
    match outcome {
        Ok(()) => StopResult { error: String::new() },
        Err(e) => StopResult { error: e.message() },
    }
}

/// The answer to a request for a job's status, from the status or the error of looking it up.
pub fn status_result(outcome: Result<Status, JobError>) -> (result: StatusResult)
    ensures
        match outcome {
            Ok(Status::Running) => result is Running,
            Ok(Status::Exited { exit_status }) => result == (StatusResult::Exited { exit_status }),
            Ok(Status::Stopped) => result is Stopped,
            Err(JobError::NoSuchJob) => result matches StatusResult::Error(text) && text@
                == "no such job id"@,
            Err(JobError::AlreadyStarted) => result matches StatusResult::Error(text) && text@
                == "cannot start a job that has already been started"@,
        },
{
    match outcome {
        Ok(Status::Running) => StatusResult::Running,
        Ok(Status::Exited { exit_status }) => StatusResult::Exited { exit_status },
        Ok(Status::Stopped) => StatusResult::Stopped,
        Err(e) => StatusResult::Error(e.message()),
    }
}

/// The piece of output that a log record stands for.
pub fn job_output(record: Record) -> (output: JobOutput)
    ensures
        match record.record_type {
            RecordType::Stdout => output matches JobOutput::Stdout(data) && data@ == record.data@,
            RecordType::Stderr => output matches JobOutput::Stderr(data) && data@ == record.data@,
        },
{
    match record.record_type {
        RecordType::Stdout => JobOutput::Stdout(record.data),
        RecordType::Stderr => JobOutput::Stderr(record.data),
    }
}

} // verus!
