use vstd::prelude::*;

use crate::service::{StartJobResult, StatusResult, StopResult};
use crate::text::{append_signed_decimal, signed_decimal};

verus! {

/// The text `prefix` followed by `detail`.
fn prefixed(prefix: &str, detail: &str) -> (text: String)
    ensures
        text@ == prefix@ + detail@,
{
    let mut text = String::from_str(prefix);
    text.append(detail);
    text
}

/// What the client reports for the answer to a request to start a job: the job's identifier,
/// or the error. `None` stands for an answer that holds no result.
pub fn start_reply(response: Option<StartJobResult>) -> (reply: Result<String, String>)
    ensures
        match response {
            Some(StartJobResult::Id(id)) => reply matches Ok(text) && text@ == id@,
            Some(StartJobResult::Error(error)) => reply matches Err(text) && text@
                == "Job submission failed: "@ + error@,
            None => reply matches Err(text) && text@
                == "Job submission failed: invalid response received"@,
        },
{
    match response {
        Some(StartJobResult::Id(job_id)) => Ok(job_id),
        Some(StartJobResult::Error(error)) => Err(prefixed("Job submission failed: ", error.as_str())),
        None => Err(String::from_str("Job submission failed: invalid response received")),
    }
}

/// What the client reports for the answer to a request to stop a job: nothing where the job
/// was stopped, else the error.
pub fn stop_reply(response: StopResult) -> (reply: Result<String, String>)
    ensures
        response.error@.len() == 0 ==> (reply matches Ok(text) && text@ == Seq::<char>::empty()),
        response.error@.len() != 0 ==> (reply matches Err(text) && text@ == "Stopping job failed: "@
            + response.error@),
{
    if response.error.as_str().unicode_len() == 0 {
        Ok(String::new())
    } else {
        Err(prefixed("Stopping job failed: ", response.error.as_str()))
    }
}

/// What the client reports for the answer to a request for a job's status.
pub fn query_status_reply(response: Option<StatusResult>) -> (reply: Result<String, String>)
    ensures
        match response {
            Some(StatusResult::Running) => reply matches Ok(text) && text@ == "Running"@,
            Some(StatusResult::Exited { exit_status }) => reply matches Ok(text) && text@
                == "Exited with status "@ + signed_decimal(exit_status as int),
            Some(StatusResult::Stopped) => reply matches Ok(text) && text@ == "Stopped"@,
            Some(StatusResult::Error(error)) => reply matches Err(text) && text@
                == "Querying status failed: "@ + error@,
            None => reply matches Err(text) && text@
                == "Querying status failed: invalid response received"@,
        },
{
    match response {
        Some(StatusResult::Running) => Ok(String::from_str("Running")),
        Some(StatusResult::Exited { exit_status }) => {
            let mut text = String::from_str("Exited with status ");
            append_signed_decimal(&mut text, exit_status);
            Ok(text)
        },
        Some(StatusResult::Stopped) => Ok(String::from_str("Stopped")),
        Some(StatusResult::Error(error)) => Err(prefixed("Querying status failed: ", error.as_str())),
        None => Err(String::from_str("Querying status failed: invalid response received")),
    }
}

} // verus!
