use aleo_client::{LoadBalancer, LoadBalancerError, NodeState, Strategy};

#[test]
fn test_load_balancer() {
    // Create a list of valid targets.
    let targets = vec![
        "http://localhost:3030".to_string(),
        "http://localhost:3031".to_string(),
        "http://localhost:3032".to_string(),
    ];

    // Create a new load balancer.
    let load_balancer = LoadBalancer::new(targets.clone(), Strategy::Random).unwrap();

    // Recover the targets from the load balancer.
    let recovered_targets = load_balancer
        .get_targets()
        .into_iter()
        .map(|(target, _)| target.clone())
        .collect::<Vec<String>>();

    // Ensure the load balancer has the correct targets.
    assert_eq!(recovered_targets, targets);
}

#[test]
fn test_load_balancer_get_target() {
    // Create a list of valid targets.
    let targets = vec![
        "http://localhost:3030".to_string(),
        "http://localhost:3031".to_string(),
        "http://localhost:3032".to_string(),
    ];

    // Create a new load balancer.
    let load_balancer = LoadBalancer::new(targets.clone(), Strategy::Random).unwrap();

    // Get a target from the load balancer.
    let target = load_balancer.get_target();

    // Ensure the target is in the list of targets.
    assert!(targets.contains(target));
}

#[test]
fn test_load_balancer_get_target_empty() {
    // Create an empty list of targets.
    let targets = vec![];

    // Create a new load balancer.
    let load_balancer = LoadBalancer::new(targets.clone(), Strategy::Random);

    // Ensure the load balancer is fails to create.
    assert!(load_balancer.is_err());
}

#[test]
fn test_load_balancer_get_target_invalid() {
    // Create a list of invalid targets.
    let targets = vec!["localhost:3030".to_string()];

    // Create a new load balancer.
    let load_balancer = LoadBalancer::new(targets.clone(), Strategy::Random);

    // Ensure the load balancer is fails to create.
    assert!(load_balancer.is_err());
}

#[test]
fn new_reports_first_invalid_target() {
    let targets = vec![
        "https://node.example".to_string(),
        "ftp://bad.example".to_string(),
        "bad2".to_string(),
    ];
    let err = LoadBalancer::new(targets, Strategy::Random).unwrap_err();
    assert_eq!(err, LoadBalancerError::InvalidTarget("ftp://bad.example".to_string()));
    assert_eq!(LoadBalancer::new(vec![], Strategy::Random).unwrap_err(), LoadBalancerError::NoTargets);
}

#[test]
fn new_registers_duplicates_once_all_healthy() {
    let targets = vec![
        "http://b".to_string(),
        "http://a".to_string(),
        "http://b".to_string(),
    ];
    let lb = LoadBalancer::new(targets, Strategy::Random).unwrap();
    let keys: Vec<String> = lb.get_targets().keys().cloned().collect();
    assert_eq!(keys, vec!["http://b".to_string(), "http://a".to_string()]);
    for state in lb.get_targets().values() {
        assert_eq!(*state, NodeState { height: 0, healthy: true });
    }
    assert_eq!(lb.get_unhealthy_targets().len(), 0);
    assert_eq!(lb.get_healthy_targets().len(), 2);
}

fn three_targets() -> Vec<String> {
    vec![
        "http://localhost:3030".to_string(),
        "http://localhost:3031".to_string(),
        "https://localhost:3032".to_string(),
    ]
}

#[test]
fn greatest_height_picks_highest_then_healthy_then_last() {
    let mut lb = LoadBalancer::new(three_targets(), Strategy::GreatestHeight).unwrap();
    // All equal: the last registered target wins.
    assert_eq!(lb.get_target(), "https://localhost:3032");
    lb.update_target_height("http://localhost:3031", Some(10), true);
    assert_eq!(lb.get_target(), "http://localhost:3031");
    // Same height but unhealthy ranks below healthy.
    lb.update_target_height("http://localhost:3030", Some(10), false);
    assert_eq!(lb.get_target(), "http://localhost:3031");
    // Same height, both healthy: the later one wins.
    lb.update_target_height("https://localhost:3032", Some(10), true);
    assert_eq!(lb.get_target(), "https://localhost:3032");
    // A greater height wins even when unhealthy.
    lb.update_target_height("http://localhost:3030", Some(11), false);
    assert_eq!(lb.get_target(), "http://localhost:3030");
}

#[test]
fn random_target_is_always_registered() {
    let targets = three_targets();
    let lb = LoadBalancer::new(targets.clone(), Strategy::Random).unwrap();
    for _ in 0..200 {
        assert!(targets.contains(lb.get_target()));
    }
}

#[test]
fn update_target_height_changes_only_that_target() {
    let mut lb = LoadBalancer::new(three_targets(), Strategy::Random).unwrap();
    lb.update_target_height("http://localhost:3031", Some(7), false);
    let states: Vec<(String, NodeState)> = lb
        .get_targets()
        .iter()
        .map(|(k, v)| (k.clone(), *v))
        .collect();
    assert_eq!(
        states,
        vec![
            ("http://localhost:3030".to_string(), NodeState { height: 0, healthy: true }),
            ("http://localhost:3031".to_string(), NodeState { height: 7, healthy: false }),
            ("https://localhost:3032".to_string(), NodeState { height: 0, healthy: true }),
        ]
    );
    // Without a height the height is kept.
    lb.update_target_height("http://localhost:3031", None, true);
    assert_eq!(
        lb.get_targets()["http://localhost:3031"],
        NodeState { height: 7, healthy: true }
    );
    // An unknown target is ignored.
    lb.update_target_height("http://elsewhere", Some(99), false);
    assert_eq!(lb.get_targets().len(), 3);
    assert!(lb.get_targets().values().all(|s| s.height != 99));
}

#[test]
fn healthy_and_unhealthy_targets_partition_the_targets() {
    let mut lb = LoadBalancer::new(three_targets(), Strategy::Random).unwrap();
    lb.update_target_height("http://localhost:3030", None, false);
    lb.update_target_height("https://localhost:3032", Some(5), false);
    let healthy: Vec<String> = lb.get_healthy_targets().keys().cloned().collect();
    let unhealthy: Vec<String> = lb.get_unhealthy_targets().keys().cloned().collect();
    assert_eq!(healthy, vec!["http://localhost:3031".to_string()]);
    assert_eq!(
        unhealthy,
        vec!["http://localhost:3030".to_string(), "https://localhost:3032".to_string()]
    );
    assert_eq!(healthy.len() + unhealthy.len(), lb.get_targets().len());
    assert_eq!(lb.get_unhealthy_targets()["https://localhost:3032"].height, 5);
}

#[test]
fn failed_health_checks_mark_every_target_unhealthy() {
    let mut lb = LoadBalancer::new(
        vec!["http://localhost:3030".to_string(), "http://localhost:3031".to_string()],
        Strategy::Random,
    )
    .unwrap();
    assert!(!lb.record_health_check("http://localhost:3030", None));
    assert!(!lb.record_health_check("http://localhost:3031", None));
    assert_eq!(lb.get_targets().len(), lb.get_unhealthy_targets().len());
    assert_eq!(lb.get_healthy_targets().len(), 0);
    // A successful check makes the node healthy at the reported height.
    assert!(lb.record_health_check("http://localhost:3031", Some(42)));
    assert_eq!(
        lb.get_healthy_targets()["http://localhost:3031"],
        NodeState { height: 42, healthy: true }
    );
    // A failed check keeps the height.
    assert!(!lb.record_health_check("http://localhost:3031", None));
    assert_eq!(
        lb.get_unhealthy_targets()["http://localhost:3031"],
        NodeState { height: 42, healthy: false }
    );
}

#[test]
fn set_strategy_switches_selection() {
    let mut lb = LoadBalancer::new(three_targets(), Strategy::Random).unwrap();
    lb.update_target_height("http://localhost:3030", Some(3), true);
    lb.set_strategy(Strategy::GreatestHeight);
    assert_eq!(lb.get_target(), "http://localhost:3030");
}

#[test]
fn cloned_load_balancer_has_same_targets() {
    let mut lb = LoadBalancer::new(three_targets(), Strategy::GreatestHeight).unwrap();
    lb.update_target_height("http://localhost:3031", Some(9), true);
    let copy = lb.clone();
    assert_eq!(copy.get_targets(), lb.get_targets());
    assert_eq!(copy.get_target(), "http://localhost:3031");
}

#[test]
fn node_state_default_is_healthy_at_zero() {
    assert_eq!(NodeState::default(), NodeState { height: 0, healthy: true });
}

#[test]
fn target_at_follows_registration_order() {
    let targets = three_targets();
    let lb = LoadBalancer::new(targets.clone(), Strategy::Random).unwrap();
    for (i, target) in targets.iter().enumerate() {
        assert_eq!(lb.target_at(i), target);
    }
}

#[test]
fn greatest_height_agrees_with_the_order_of_node_states() {
    let targets: Vec<String> = (0..12).map(|i| format!("http://node{i}")).collect();
    let mut lb = LoadBalancer::new(targets.clone(), Strategy::GreatestHeight).unwrap();
    let heights = [5u32, 9, 9, 2, 9, 0, 7, 9, 1, 9, 3, 8];
    let health = [true, false, true, true, true, false, true, false, true, true, false, true];
    for (i, target) in targets.iter().enumerate() {
        lb.update_target_height(target, Some(heights[i]), health[i]);
    }
    let expected = lb
        .get_targets()
        .iter()
        .max_by_key(|(_, state)| **state)
        .unwrap()
        .0
        .clone();
    assert_eq!(lb.get_target(), &expected);
    assert_eq!(expected, "http://node9");
}
