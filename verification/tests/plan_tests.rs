use api_perf_test::{order_by_request_id, plan_requests, total_requests_for, RequestSlot};

#[test]
fn total_follows_bodies() {
    assert_eq!(total_requests_for(0, 100), 100);
    assert_eq!(total_requests_for(7, 100), 7);
    assert_eq!(total_requests_for(3, 0), 3);
}

#[test]
fn plan_round_robin() {
    let p = plan_requests(5, 2, 0);
    assert_eq!(p.len(), 5);
    let workers: Vec<usize> = p.iter().map(|s| s.worker_id).collect();
    let ids: Vec<usize> = p.iter().map(|s| s.request_id).collect();
    assert_eq!(workers, vec![1, 2, 1, 2, 1]);
    assert_eq!(ids, vec![1, 2, 3, 4, 5]);
    assert!(p.iter().all(|s| s.body_index.is_none()));
}

#[test]
fn plan_with_bodies() {
    let p = plan_requests(3, 8, 3);
    assert_eq!(p[0], RequestSlot { request_id: 1, worker_id: 1, body_index: Some(0) });
    assert_eq!(p[2], RequestSlot { request_id: 3, worker_id: 3, body_index: Some(2) });
}

#[test]
fn plan_empty() {
    assert!(plan_requests(0, 4, 0).is_empty());
}

#[test]
fn order_sorts_by_id() {
    assert_eq!(order_by_request_id(&vec![3, 1, 2]), vec![1, 2, 0]);
    assert_eq!(order_by_request_id(&vec![]), Vec::<usize>::new());
    assert_eq!(order_by_request_id(&vec![5, 4, 3, 2, 1]), vec![4, 3, 2, 1, 0]);
}

#[test]
fn order_is_stable() {
    assert_eq!(order_by_request_id(&vec![2, 1, 2, 1]), vec![1, 3, 0, 2]);
}

#[test]
fn records_numbered_in_order_after_shuffled_arrival() {
    let plan = plan_requests(6, 4, 0);
    let arrival = [3usize, 0, 5, 1, 4, 2];
    let ids: Vec<usize> = arrival.iter().map(|&k| plan[k].request_id).collect();
    let order = order_by_request_id(&ids);
    let numbered: Vec<usize> = order.iter().map(|&i| ids[i]).collect();
    assert_eq!(numbered, vec![1, 2, 3, 4, 5, 6]);
}

#[test]
fn plan_zero_requests_zero_workers() {
    assert!(plan_requests(0, 0, 0).is_empty());
}
