use mosec::coordinator::Coordinator;
use mosec::endpoint::Endpoint;

#[test]
fn given_path_is_kept() {
    let c = Coordinator::init(vec![4], vec![10], "/tmp/sock".to_string(), 16, "/tmp/mosec".to_string());
    assert_eq!(c.path, "/tmp/sock");
    assert_eq!(c.capacity, 16);
    assert_eq!(c.batches, vec![4]);
    assert_eq!(c.wait_time, vec![10]);
}

#[test]
fn empty_path_falls_back() {
    let c = Coordinator::init(vec![], vec![], String::new(), 16, "/tmp/mosec".to_string());
    assert_eq!(c.path, "/tmp/mosec");
}

#[test]
fn barrier_counts_stages_and_caller() {
    let c = Coordinator::init(vec![1, 2, 3], vec![1, 2, 3], String::new(), 1, "d".to_string());
    assert_eq!(c.barrier_parties(), 4);
}

#[test]
fn one_plan_per_stage() {
    let c = Coordinator::init(vec![8, 1], vec![10, 5, 7], String::new(), 1, "d".to_string());
    let plans = c.stage_plans(&Endpoint::new("/math/next"));
    assert_eq!(plans.len(), 2);
    assert_eq!(plans[0].stage, 1);
    assert_eq!(plans[0].socket, "ipc_math+next_1.socket");
    assert_eq!(plans[0].batch_size, 8);
    assert_eq!(plans[0].wait_ms, 10);
    assert_eq!(plans[1].stage, 2);
    assert_eq!(plans[1].socket, "ipc_math+next_2.socket");
    assert_eq!(plans[1].batch_size, 1);
    assert_eq!(plans[1].wait_ms, 5);
}
