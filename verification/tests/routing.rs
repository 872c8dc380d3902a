use claude_code_agent_sdk::routing::{query_id_for, QueryRouter, RoutePlan};

#[test]
fn test_generate_query_id_unique() {
    let mut router = QueryRouter::new();
    let id1 = router.generate_query_id();
    let id2 = router.generate_query_id();
    let id3 = router.generate_query_id();
    assert_ne!(id1, id2);
    assert_ne!(id2, id3);
    assert_ne!(id1, id3);
    assert!(id1.starts_with("query_0_"));
    assert!(id2.starts_with("query_1_"));
    assert!(id3.starts_with("query_2_"));
    assert_eq!(id1.len(), "query_0_".len() + 32);
}

#[test]
fn test_register_query_receiver_sets_current() {
    let mut router = QueryRouter::new();
    let id1 = router.generate_query_id();
    router.register_query_receiver(id1.clone());
    match router.route(true) {
        RoutePlan::CurrentThenFirst { current, first } => {
            assert_eq!(current, Some(id1.clone()));
            assert_eq!(first, id1);
        }
        other => panic!("unexpected: {:?}", other),
    }
    let id2 = router.generate_query_id();
    router.register_query_receiver(id2.clone());
    match router.route(true) {
        RoutePlan::CurrentThenFirst { current, first } => {
            assert_eq!(current, Some(id2.clone()));
            assert_eq!(first, id1);
        }
        other => panic!("unexpected: {:?}", other),
    }
}

#[test]
fn test_multiple_receivers_in_map() {
    let mut router = QueryRouter::new();
    let ids: Vec<String> = (0..3).map(|_| router.generate_query_id()).collect();
    for id in &ids {
        router.register_query_receiver(id.clone());
    }
    match router.route(false) {
        RoutePlan::Broadcast(all) => {
            assert_eq!(all.len(), 3);
            assert_eq!(all, ids);
        }
        other => panic!("unexpected: {:?}", other),
    }
    match router.route(true) {
        RoutePlan::CurrentThenFirst { current, .. } => assert_eq!(current, Some(ids[2].clone())),
        other => panic!("unexpected: {:?}", other),
    }
}

#[test]
fn test_current_query_id_updates_on_new_registration() {
    let mut router = QueryRouter::new();
    let id_a = router.generate_query_id();
    let id_b = router.generate_query_id();
    router.register_query_receiver(id_a.clone());
    router.register_query_receiver(id_b.clone());
    match router.route(true) {
        RoutePlan::CurrentThenFirst { current, .. } => {
            assert_eq!(current, Some(id_b.clone()));
            assert_ne!(current, Some(id_a));
        }
        other => panic!("unexpected: {:?}", other),
    }
}

#[test]
fn no_receivers_routes_globally() {
    let router = QueryRouter::new();
    assert!(matches!(router.route(true), RoutePlan::Global));
    assert!(matches!(router.route(false), RoutePlan::Global));
}

#[test]
fn registering_twice_keeps_one_receiver() {
    let mut router = QueryRouter::new();
    router.register_query_receiver("q".to_string());
    router.register_query_receiver("q".to_string());
    match router.route(false) {
        RoutePlan::Broadcast(all) => assert_eq!(all, vec!["q".to_string()]),
        other => panic!("unexpected: {:?}", other),
    }
}

#[test]
fn cleanup_removes_closed_and_clears_current() {
    let mut router = QueryRouter::new();
    router.register_query_receiver("a".to_string());
    router.register_query_receiver("b".to_string());
    router.remove_closed(&vec!["b".to_string(), "zzz".to_string()]);
    match router.route(true) {
        RoutePlan::CurrentThenFirst { current, first } => {
            assert_eq!(current, None);
            assert_eq!(first, "a");
        }
        other => panic!("unexpected: {:?}", other),
    }
    router.remove_closed(&vec!["a".to_string()]);
    assert!(matches!(router.route(true), RoutePlan::Global));
}

#[test]
fn cleanup_keeps_current_when_open() {
    let mut router = QueryRouter::new();
    router.register_query_receiver("a".to_string());
    router.register_query_receiver("b".to_string());
    router.remove_closed(&vec!["a".to_string()]);
    match router.route(true) {
        RoutePlan::CurrentThenFirst { current, first } => {
            assert_eq!(current, Some("b".to_string()));
            assert_eq!(first, "b");
        }
        other => panic!("unexpected: {:?}", other),
    }
}

#[test]
fn query_ids_are_assembled_from_counter_and_uuid() {
    assert_eq!(query_id_for(0, "0123456789abcdef0123456789abcdef"), "query_0_0123456789abcdef0123456789abcdef");
    assert_eq!(query_id_for(1234, "ab"), "query_1234_ab");
}
