use mosec::endpoint::Endpoint;
use mosec::service::{
    content_type, index_reply, inference_precheck, mime_table, outcome_reply,
    service_error_status, task_code_status, ServiceError, TaskCode, TaskOutcome,
};

#[test]
fn index_while_running() {
    let r = index_reply(false);
    assert_eq!(r.status, 200);
    assert_eq!(r.body, b"MOSEC service".to_vec());
}

#[test]
fn index_while_shutting_down() {
    let r = index_reply(true);
    assert_eq!(r.status, 503);
    assert_eq!(r.body, b"gracefully shutting down".to_vec());
}

#[test]
fn inference_while_shutting_down() {
    let r = inference_precheck(true, 0).unwrap();
    assert_eq!(r.status, 503);
    assert_eq!(r.body, b"gracefully shutting down".to_vec());
    assert_eq!(inference_precheck(true, 5).unwrap().status, 503);
}

#[test]
fn inference_without_data() {
    let r = inference_precheck(false, 0).unwrap();
    assert_eq!(r.status, 200);
    assert_eq!(r.body, b"no data provided".to_vec());
}

#[test]
fn inference_with_data_goes_on() {
    assert!(inference_precheck(false, 1).is_none());
}

#[test]
fn task_statuses() {
    assert_eq!(task_code_status(TaskCode::Normal), 200);
    assert_eq!(task_code_status(TaskCode::BadRequestError), 400);
    assert_eq!(task_code_status(TaskCode::ValidationError), 422);
    assert_eq!(task_code_status(TaskCode::TimeoutError), 408);
    assert_eq!(task_code_status(TaskCode::InternalError), 500);
}

#[test]
fn error_statuses() {
    assert_eq!(service_error_status(ServiceError::TooManyRequests), 429);
    assert_eq!(service_error_status(ServiceError::Timeout), 408);
    assert_eq!(service_error_status(ServiceError::UnknownError), 500);
}

fn eps(names: &[&str]) -> Vec<Endpoint> {
    names.iter().map(|n| Endpoint::new(n)).collect()
}

fn strs(names: &[&str]) -> Vec<String> {
    names.iter().map(|n| n.to_string()).collect()
}

#[test]
fn mime_table_pairs_in_order() {
    let t = mime_table(&eps(&["/a", "/b"]), &strs(&["application/json", "text/plain"]));
    assert_eq!(t.len(), 2);
    assert_eq!(t.get("/a"), Some(&"application/json".to_string()));
    assert_eq!(t.get("/b"), Some(&"text/plain".to_string()));
}

#[test]
fn mime_table_stops_at_shorter_and_keeps_last() {
    let t = mime_table(&eps(&["/a", "/a", "/c"]), &strs(&["x", "y"]));
    assert_eq!(t.len(), 1);
    assert_eq!(t.get("/a"), Some(&"y".to_string()));
    assert!(t.get("/c").is_none());
}

#[test]
fn content_type_only_on_success() {
    let t = mime_table(&eps(&["/a"]), &strs(&["image/png"]));
    let e = Endpoint::new("/a");
    assert_eq!(content_type(200, &t, &e), Some("image/png".to_string()));
    assert_eq!(content_type(400, &t, &e), None);
    assert_eq!(content_type(503, &t, &Endpoint::new("/missing")), None);
}

#[test]
fn finished_task_reply_carries_its_data() {
    let data = vec![0u8, 159, 146, 150, 255];
    let r = outcome_reply(TaskOutcome::Finished { code: TaskCode::Normal, data: data.clone() });
    assert_eq!(r.status, 200);
    assert_eq!(r.body, data);
    let r = outcome_reply(TaskOutcome::Finished {
        code: TaskCode::ValidationError,
        data: b"bad field".to_vec(),
    });
    assert_eq!(r.status, 422);
    assert_eq!(r.body, b"bad field".to_vec());
}

#[test]
fn failed_task_reply_carries_the_error_text() {
    let r = outcome_reply(TaskOutcome::Failed {
        error: ServiceError::TooManyRequests,
        text: b"queue is full".to_vec(),
    });
    assert_eq!(r.status, 429);
    assert_eq!(r.body, b"queue is full".to_vec());
    let r = outcome_reply(TaskOutcome::Failed { error: ServiceError::Timeout, text: vec![] });
    assert_eq!(r.status, 408);
    assert!(r.body.is_empty());
}
