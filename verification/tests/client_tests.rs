use library::client::{query_status_reply, start_reply, stop_reply};
use library::service::{StartJobResult, StatusResult, StopResult};

#[test]
fn start_replies() {
    assert_eq!(
        start_reply(Some(StartJobResult::Id("7c51699e-b9bc-439a-b847-0063626b6ea4".to_string()))),
        Ok("7c51699e-b9bc-439a-b847-0063626b6ea4".to_string())
    );
    assert_eq!(
        start_reply(Some(StartJobResult::Error("boom".to_string()))),
        Err("Job submission failed: boom".to_string())
    );
    assert_eq!(
        start_reply(None),
        Err("Job submission failed: invalid response received".to_string())
    );
}

#[test]
fn stop_replies() {
    assert_eq!(stop_reply(StopResult { error: String::new() }), Ok(String::new()));
    assert_eq!(
        stop_reply(StopResult {
            error: "no such job id".to_string()
        }),
        Err("Stopping job failed: no such job id".to_string())
    );
}

#[test]
fn status_replies() {
    assert_eq!(query_status_reply(Some(StatusResult::Running)), Ok("Running".to_string()));
    assert_eq!(query_status_reply(Some(StatusResult::Stopped)), Ok("Stopped".to_string()));
    assert_eq!(
        query_status_reply(Some(StatusResult::Exited { exit_status: 0 })),
        Ok("Exited with status 0".to_string())
    );
    assert_eq!(
        query_status_reply(Some(StatusResult::Exited { exit_status: -15 })),
        Ok("Exited with status -15".to_string())
    );
    assert_eq!(
        query_status_reply(Some(StatusResult::Exited { exit_status: i32::MIN })),
        Ok(format!("Exited with status {}", i32::MIN))
    );
    assert_eq!(
        query_status_reply(Some(StatusResult::Error("no such job id".to_string()))),
        Err("Querying status failed: no such job id".to_string())
    );
    assert_eq!(
        query_status_reply(None),
        Err("Querying status failed: invalid response received".to_string())
    );
}
