use round_robin::load_balancing::round_robin_sync::RoundRobinSync;

#[test]
fn next_round_robin() {
    let nodes = vec!["a", "b", "c"];
    let nodes_c = nodes.clone();
    let mut load_balancer = RoundRobinSync::from(nodes);
    for i in 0..10 {
        assert_eq!(&nodes_c[(i + 1) % 3], load_balancer.next().unwrap());
    }
}

#[test]
fn remove_from_round_robin() {
    let nodes = vec!["a", "b"];
    let mut load_balancer = RoundRobinSync::from(nodes);
    assert_eq!(&"b", load_balancer.next().unwrap());

    load_balancer.remove_node(|n| n == &"a");
    assert_eq!(&"b", load_balancer.next().unwrap());
}

#[test]
fn full_cycle_visits_each_once_then_repeats() {
    let nodes = vec!["a", "b", "c", "d"];
    let mut lb = RoundRobinSync::from(nodes.clone());
    let mut first_turn: Vec<&str> = Vec::new();
    for _ in 0..4 {
        first_turn.push(*lb.next().unwrap());
    }
    for n in &nodes {
        let mut hits = 0;
        for m in &first_turn {
            if m == n {
                hits += 1;
            }
        }
        assert_eq!(1, hits);
    }
    for i in 0..4 {
        assert_eq!(first_turn[i], *lb.next().unwrap());
    }
}

#[test]
fn first_call_advances_before_reading() {
    let mut lb = RoundRobinSync::from(vec!["a", "b", "c"]);
    assert_eq!(&"b", lb.next().unwrap());
    assert_eq!(&"c", lb.next().unwrap());
    assert_eq!(&"a", lb.next().unwrap());
    assert_eq!(&"b", lb.next().unwrap());
}

#[test]
fn empty_set_yields_none() {
    let mut lb: RoundRobinSync<&str> = RoundRobinSync::new();
    assert!(lb.next().is_none());
    assert!(lb.next().is_none());
    assert_eq!(0, lb.get_all_nodes().len());
}

#[test]
fn remove_without_match_changes_nothing() {
    let mut lb = RoundRobinSync::from(vec!["a", "b", "c"]);
    assert_eq!(&"b", lb.next().unwrap());
    lb.remove_node(|n| n == &"z");
    assert_eq!(vec!["a", "b", "c"], *lb.get_all_nodes());
    assert_eq!(&"c", lb.next().unwrap());
    assert_eq!(&"a", lb.next().unwrap());
    assert_eq!(&"b", lb.next().unwrap());
}

#[test]
fn removes_only_first_match() {
    let mut lb = RoundRobinSync::from(vec!["a", "b", "a"]);
    lb.remove_node(|n| n == &"a");
    assert_eq!(vec!["b", "a"], *lb.get_all_nodes());
}

#[test]
fn removing_last_node_leaves_empty_set() {
    let mut lb = RoundRobinSync::from(vec!["a"]);
    assert_eq!(&"a", lb.next().unwrap());
    lb.remove_node(|n| n == &"a");
    assert!(lb.next().is_none());
}

#[test]
fn init_keeps_cursor_and_wraps_against_new_length() {
    let mut lb = RoundRobinSync::from(vec!["a", "b", "c", "d", "e"]);
    for _ in 0..4 {
        lb.next();
    }
    lb.init(vec!["x", "y"]);
    assert_eq!(&"y", lb.next().unwrap());
    assert_eq!(&"x", lb.next().unwrap());
}

#[test]
fn init_replaces_the_whole_set() {
    let mut lb: RoundRobinSync<u32> = RoundRobinSync::new();
    assert!(lb.get_all_nodes().is_empty());
    lb.init(vec![1, 2, 3]);
    assert_eq!(vec![1, 2, 3], *lb.get_all_nodes());
    assert_eq!(&2, lb.next().unwrap());
}

#[test]
fn single_node_is_always_selected() {
    let mut lb = RoundRobinSync::from(vec!["only"]);
    for _ in 0..5 {
        assert_eq!(&"only", lb.next().unwrap());
    }
}
