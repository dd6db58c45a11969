use load_balancer::failure_status;
use load_balancer::plan_request;
use load_balancer::DispatchFailure;
use load_balancer::DispatchPlan;
use load_balancer::LoadBalancer;
use load_balancer::SelectError;

fn healthy_lb(servers: &[(&str, u64)]) -> LoadBalancer {
    let mut lb = LoadBalancer::new();
    for (a, w) in servers {
        lb.add_server(a.to_string(), *w).unwrap();
        lb.set_health(&a.to_string(), true);
    }
    lb
}

#[test]
fn weighted_order_is_a_b_b() {
    // Weights A=1, B=2: positions 0..3 of the wheel are A, B, B, so three
    // consecutive selections starting from a fresh cursor come in exactly
    // that documented order.
    let mut lb = healthy_lb(&[("A", 1), ("B", 2)]);
    assert_eq!(lb.select(), Ok("A".to_string()));
    assert_eq!(lb.select(), Ok("B".to_string()));
    assert_eq!(lb.select(), Ok("B".to_string()));
    // The next full round repeats the same order.
    assert_eq!(lb.select(), Ok("A".to_string()));
    assert_eq!(lb.select(), Ok("B".to_string()));
    assert_eq!(lb.select(), Ok("B".to_string()));
}

#[test]
fn single_server_hundred_selects() {
    let mut lb = healthy_lb(&[("only", 5)]);
    for _ in 0..100 {
        assert_eq!(lb.select(), Ok("only".to_string()));
    }
}

#[test]
fn every_window_of_total_weight_is_fair() {
    // Weights 1, 2, 3: every window of 6 consecutive selections picks each
    // server exactly its weight's worth of times, wherever the window
    // starts.
    let servers = [("a", 1u64), ("b", 2u64), ("c", 3u64)];
    let mut lb = healthy_lb(&servers);
    let mut picks: Vec<String> = Vec::new();
    for _ in 0..18 {
        picks.push(lb.select().unwrap());
    }
    for start in 0..12 {
        let window = &picks[start..start + 6];
        for (addr, weight) in &servers {
            let count = window.iter().filter(|p| p.as_str() == *addr).count();
            assert_eq!(count as u64, *weight, "window at {start} for {addr}");
        }
    }
}

#[test]
fn failed_probe_excludes_until_recovery() {
    let mut lb = healthy_lb(&[("A", 1), ("B", 1)]);
    lb.set_health(&"A".to_string(), false);
    for _ in 0..10 {
        assert_eq!(lb.select(), Ok("B".to_string()));
    }
    lb.set_health(&"A".to_string(), true);
    let mut saw_a = false;
    for _ in 0..2 {
        if lb.select() == Ok("A".to_string()) {
            saw_a = true;
        }
    }
    assert!(saw_a);
}

#[test]
fn removed_server_is_not_selected() {
    let mut lb = healthy_lb(&[("A", 2), ("B", 1)]);
    lb.remove_server(&"A".to_string());
    for _ in 0..6 {
        assert_eq!(lb.select(), Ok("B".to_string()));
    }
}

#[test]
fn selection_survives_weight_changes_of_the_pool() {
    // The cursor re-reduces against the current wheel whenever the healthy
    // set shrinks, so selection keeps working instead of indexing out of
    // range.
    let mut lb = healthy_lb(&[("A", 3), ("B", 4)]);
    for _ in 0..5 {
        lb.select().unwrap();
    }
    lb.remove_server(&"B".to_string());
    for _ in 0..4 {
        assert_eq!(lb.select(), Ok("A".to_string()));
    }
}

#[test]
fn plan_request_forwards_to_the_pick() {
    let mut lb = healthy_lb(&[("A", 1)]);
    let plan = plan_request(&mut lb);
    assert!(matches!(plan, DispatchPlan::Forward(a) if a == "A"));
}

#[test]
fn plan_request_unavailable_without_healthy_servers() {
    let mut lb = LoadBalancer::new();
    assert!(matches!(plan_request(&mut lb), DispatchPlan::Unavailable));
    assert_eq!(lb.select(), Err(SelectError::NoHealthyServer));
}

#[test]
fn failure_statuses() {
    assert_eq!(failure_status(DispatchFailure::NoHealthyServer), 503);
    assert_eq!(failure_status(DispatchFailure::ForwardFailed), 502);
}
