use esnode_core::orchestrator::{requeue, pick_best, authorize, device_allowed, routes_mounted, submission_response, DeviceKind, OrchestratorConfig};

#[test]
fn bearer_token_is_required_when_configured() {
    assert!(!authorize(Some("s3cret"), None));
    assert!(authorize(Some("s3cret"), Some("Bearer s3cret")));
    assert!(!authorize(Some("s3cret"), Some("Bearer wrong")));
    assert!(!authorize(Some("s3cret"), Some("s3cret")));
    assert!(authorize(None, None));
}

#[test]
fn routes_mount_only_on_loopback_unless_public() {
    assert!(routes_mounted(true, true, false));
    assert!(!routes_mounted(true, false, false));
    assert!(routes_mounted(true, false, true));
    assert!(!routes_mounted(false, true, true));
}

#[test]
fn kind_preference_filters_devices() {
    assert!(device_allowed(&None, DeviceKind::Npu));
    let gpu_only = Some(vec![DeviceKind::Gpu]);
    assert!(device_allowed(&gpu_only, DeviceKind::Gpu));
    assert!(!device_allowed(&gpu_only, DeviceKind::Cpu));
}

#[test]
fn submission_reply_words() {
    let a = submission_response(Some(String::from("A")));
    assert_eq!(a.status, "Assigned");
    assert_eq!(a.assigned_device, Some(String::from("A")));
    let q = submission_response(None);
    assert_eq!(q.status, "Queued");
    assert_eq!(q.assigned_device, None);
}

#[test]
fn scheduler_defaults() {
    let c = OrchestratorConfig::default();
    assert!(!c.enabled && !c.allow_public && c.token.is_none() && c.enable_zombie_reaper);
}

#[test]
fn pick_best_returns_eligible_device_with_highest_score() {
    let scores = [-0.25f64, -0.5, -0.1];
    let eligible = vec![true, true, false];
    assert_eq!(pick_best(&eligible, |a, b| scores[a] > scores[b]), Some(0));
    let none = vec![false, false, false];
    assert_eq!(pick_best(&none, |a, b| scores[a] > scores[b]), None);
    let nan = [f64::NAN, 1.0];
    assert_eq!(pick_best(&vec![true, false], |a, b| nan[a] > nan[b]), Some(0));
    let ties = [1.0f64, 1.0];
    assert_eq!(pick_best(&vec![true, true], |a, b| ties[a] > ties[b]), Some(0));
}

#[test]
fn unplaced_tasks_go_back_in_order() {
    let q = requeue(vec!["a", "b", "c", "d"], &vec![false, true, false, true]);
    assert_eq!(q, vec!["a", "c"]);
    assert!(requeue(Vec::<u8>::new(), &Vec::new()).is_empty());
}
