use rustgames::vfx_system::VfxSystem;

#[test]
fn push_set_prune_clear() {
    let mut sys = VfxSystem::new();
    sys.push("flash");
    sys.push("sparks");
    sys.push("overlay");
    assert_eq!(sys.count(), 3);
    sys.set(1, "smoke");
    assert_eq!(sys.active_effects(), &["flash", "smoke", "overlay"]);
    sys.retain_where(&vec![false, true, true]);
    assert_eq!(sys.active_effects(), &["smoke", "overlay"]);
    sys.clear();
    assert_eq!(sys.count(), 0);
}
