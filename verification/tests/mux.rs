use musicalix::wing::console::{CorrelationTable, WingRequests, WingResponseKind};

#[test]
fn one_frame_resolves_every_waiter_on_its_address() {
    let mut reqs = WingRequests::default();
    reqs.request_node_data(42, 1);
    reqs.request_node_data(42, 2);
    let resolved = reqs.handle(WingResponseKind::NodeData(42));
    assert_eq!(resolved, vec![1, 2]);
    let again = reqs.handle(WingResponseKind::NodeData(42));
    assert!(again.is_empty());
}

#[test]
fn frames_resolve_only_their_own_address() {
    let mut reqs = WingRequests::default();
    reqs.request_node_data(7, 10);
    reqs.request_node_data(8, 20);
    let resolved = reqs.handle(WingResponseKind::NodeData(8));
    assert_eq!(resolved, vec![20]);
    let later = reqs.handle(WingResponseKind::NodeData(7));
    assert_eq!(later, vec![10]);
}

#[test]
fn unsolicited_frames_resolve_nobody() {
    let mut reqs = WingRequests::default();
    reqs.request_node_data(7, 10);
    let resolved = reqs.handle(WingResponseKind::NodeData(99));
    assert!(resolved.is_empty());
    let end = reqs.handle(WingResponseKind::RequestEnd);
    assert!(end.is_empty());
    let still = reqs.handle(WingResponseKind::NodeData(7));
    assert_eq!(still, vec![10]);
}

#[test]
fn data_and_definition_requests_are_correlated_separately() {
    let mut reqs = WingRequests::default();
    reqs.request_node_data(5, 1);
    reqs.request_node_def(5, 2);
    let defs = reqs.handle(WingResponseKind::NodeDef(5));
    assert_eq!(defs, vec![2]);
    let data = reqs.handle(WingResponseKind::NodeData(5));
    assert_eq!(data, vec![1]);
}

#[test]
fn correlation_table_queues_in_registration_order() {
    let mut table = CorrelationTable::new();
    table.register(3, 30);
    table.register(4, 40);
    table.register(3, 31);
    assert_eq!(table.take(3), vec![30, 31]);
    assert_eq!(table.take(3), Vec::<u64>::new());
    assert_eq!(table.take(4), vec![40]);
}
