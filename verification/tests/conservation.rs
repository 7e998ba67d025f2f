use si_registry_rs::conservation::violating_agents;

#[test]
fn violating_agents_lists_failed_checks_in_order() {
    let ids = vec!["a1".to_string(), "a2".to_string(), "a3".to_string()];
    assert_eq!(violating_agents(&ids, &vec![true, false, false]), vec!["a2".to_string(), "a3".to_string()]);
    assert!(violating_agents(&ids, &vec![true, true, true]).is_empty());
    assert!(violating_agents(&vec![], &vec![]).is_empty());
}
