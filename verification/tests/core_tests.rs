use load_balancer::Health;
use load_balancer::LoadBalancer;
use load_balancer::RegistryError;
use load_balancer::SelectError;

fn lb_with(servers: &[(&str, u64)]) -> LoadBalancer {
    let mut lb = LoadBalancer::new();
    for (a, w) in servers {
        lb.add_server(a.to_string(), *w).unwrap();
    }
    lb
}

fn mark_healthy(lb: &mut LoadBalancer, addrs: &[&str]) {
    for a in addrs {
        lb.set_health(&a.to_string(), true);
    }
}

#[test]
fn new_balancer_is_empty() {
    let lb = LoadBalancer::new();
    assert_eq!(lb.snapshot().len(), 0);
    assert_eq!(lb.probe_targets().len(), 0);
}

#[test]
fn add_records_unknown_health() {
    let lb = lb_with(&[("http://localhost:8001", 1), ("http://localhost:8002", 2)]);
    let snap = lb.snapshot();
    assert_eq!(snap.len(), 2);
    assert_eq!(snap[0].address, "http://localhost:8001");
    assert_eq!(snap[0].weight, 1);
    assert_eq!(snap[0].health, Health::Unknown);
    assert_eq!(snap[0].consecutive_failures, 0);
    assert_eq!(snap[1].address, "http://localhost:8002");
    assert_eq!(snap[1].weight, 2);
    assert_eq!(snap[1].health, Health::Unknown);
}

#[test]
fn duplicate_address_rejected() {
    let mut lb = lb_with(&[("a", 1)]);
    assert_eq!(
        lb.add_server("a".to_string(), 3),
        Err(RegistryError::DuplicateAddress)
    );
    let snap = lb.snapshot();
    assert_eq!(snap.len(), 1);
    assert_eq!(snap[0].weight, 1);
}

#[test]
fn zero_weight_rejected() {
    let mut lb = LoadBalancer::new();
    assert_eq!(
        lb.add_server("a".to_string(), 0),
        Err(RegistryError::InvalidWeight)
    );
    assert_eq!(lb.snapshot().len(), 0);
}

#[test]
fn duplicate_reported_before_invalid_weight() {
    let mut lb = lb_with(&[("a", 1)]);
    assert_eq!(
        lb.add_server("a".to_string(), 0),
        Err(RegistryError::DuplicateAddress)
    );
}

#[test]
fn remove_is_idempotent() {
    let mut lb = lb_with(&[("a", 1), ("b", 2)]);
    lb.remove_server(&"a".to_string());
    assert_eq!(lb.snapshot().len(), 1);
    lb.remove_server(&"a".to_string());
    assert_eq!(lb.snapshot().len(), 1);
    lb.remove_server(&"never-added".to_string());
    let snap = lb.snapshot();
    assert_eq!(snap.len(), 1);
    assert_eq!(snap[0].address, "b");
}

#[test]
fn set_health_on_absent_address_is_noop() {
    let mut lb = lb_with(&[("a", 1)]);
    lb.set_health(&"b".to_string(), true);
    let snap = lb.snapshot();
    assert_eq!(snap.len(), 1);
    assert_eq!(snap[0].health, Health::Unknown);
}

#[test]
fn probe_results_drive_health_state() {
    let mut lb = lb_with(&[("a", 1)]);
    lb.set_health(&"a".to_string(), false);
    let snap = lb.snapshot();
    assert_eq!(snap[0].health, Health::Unhealthy);
    assert_eq!(snap[0].consecutive_failures, 1);
    lb.set_health(&"a".to_string(), false);
    let snap = lb.snapshot();
    assert_eq!(snap[0].health, Health::Unhealthy);
    assert_eq!(snap[0].consecutive_failures, 2);
    lb.set_health(&"a".to_string(), true);
    let snap = lb.snapshot();
    assert_eq!(snap[0].health, Health::Healthy);
    assert_eq!(snap[0].consecutive_failures, 0);
}

#[test]
fn empty_pool_returns_no_healthy_server() {
    let mut lb = LoadBalancer::new();
    assert_eq!(lb.select(), Err(SelectError::NoHealthyServer));
}

#[test]
fn unknown_health_is_not_selected() {
    let mut lb = lb_with(&[("a", 1), ("b", 2)]);
    assert_eq!(lb.select(), Err(SelectError::NoHealthyServer));
}

#[test]
fn unhealthy_pool_returns_no_healthy_server() {
    let mut lb = lb_with(&[("a", 1)]);
    lb.set_health(&"a".to_string(), false);
    for _ in 0..5 {
        assert_eq!(lb.select(), Err(SelectError::NoHealthyServer));
    }
}

#[test]
fn probe_targets_lists_every_address() {
    let lb = lb_with(&[("a", 1), ("b", 2), ("c", 3)]);
    let targets = lb.probe_targets();
    assert_eq!(targets, vec!["a".to_string(), "b".to_string(), "c".to_string()]);
}
