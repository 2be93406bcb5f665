use rustgames::animation_system::AnimationSystem;
use rustgames::group::AnimationGroupID;

/// A minimal animation state: how long it runs and how far it got.
#[derive(Debug, Clone, PartialEq)]
struct Fade {
    duration: f32,
    elapsed: f32,
}

fn fade(duration: f32) -> Fade {
    Fade { duration, elapsed: 0.0 }
}

/// Advances the running (not paused) animations and drops the finished ones.
fn update(sys: &mut AnimationSystem<Fade>, dt: f32) {
    for i in 0..sys.count() {
        let t = sys.track(i);
        if !t.paused {
            let mut d = t.data.clone();
            d.elapsed = (d.elapsed + dt).clamp(0.0, d.duration);
            sys.set_data(i, d);
        }
    }
    let keep: Vec<bool> =
        sys.tracks().iter().map(|t| t.data.elapsed < t.data.duration).collect();
    sys.retain_where(&keep);
}

#[test]
fn start_stop() {
    let mut sys = AnimationSystem::new();
    let id = sys.start(fade(1.0));
    assert!(sys.is_playing_id(id));
    sys.stop(id);
    assert!(!sys.is_playing_id(id));
}

#[test]
fn auto_removes_finished() {
    let mut sys = AnimationSystem::new();
    sys.start(fade(0.5));
    assert_eq!(sys.count(), 1);
    update(&mut sys, 1.0);
    assert_eq!(sys.count(), 0);
}

#[test]
fn sequence_creates_group() {
    let mut sys = AnimationSystem::new();
    let group = sys.start_all(vec![fade(0.5), fade(0.5)]);
    assert_eq!(group.len(), 2);
}

#[test]
fn parallel_creates_group() {
    let mut sys = AnimationSystem::new();
    let group = sys.start_all(vec![fade(1.0), fade(1.0)]);
    assert_eq!(group.len(), 2);
}

#[test]
fn start_all_gives_consecutive_ids_in_order() {
    let mut sys = AnimationSystem::new();
    let first = sys.start(fade(1.0));
    assert_eq!(sys.next_id(), 1);
    let group = sys.start_all(vec![fade(2.0), fade(3.0), fade(4.0)]);
    assert_eq!(group.iter(), &[1, 2, 3]);
    assert_eq!(sys.next_id(), 4);
    let ids: Vec<usize> = sys.tracks().iter().map(|t| t.id).collect();
    assert_eq!(ids, vec![first, 1, 2, 3]);
    let durations: Vec<f32> = sys.tracks().iter().map(|t| t.data.duration).collect();
    assert_eq!(durations, vec![1.0, 2.0, 3.0, 4.0]);
    assert!(sys.tracks().iter().all(|t| !t.paused));
}

#[test]
fn start_all_of_nothing_is_an_empty_group() {
    let mut sys: AnimationSystem<Fade> = AnimationSystem::new();
    let group = sys.start_all(Vec::new());
    assert!(group.is_empty());
    assert_eq!(sys.next_id(), 0);
    assert_eq!(sys.count(), 0);
}

#[test]
fn clear_removes_all() {
    let mut sys = AnimationSystem::new();
    sys.start(fade(1.0));
    sys.start(fade(1.0));
    sys.clear();
    assert_eq!(sys.count(), 0);
}

#[test]
fn pause_resume() {
    let mut sys = AnimationSystem::new();
    let id = sys.start(fade(2.0));
    assert!(sys.pause(id));
    update(&mut sys, 1.0);
    assert!(sys.is_playing_id(id));
    assert!(sys.resume(id));
    update(&mut sys, 3.0);
    assert!(!sys.is_playing_id(id));
}

#[test]
fn replace_resets_animation() {
    let mut sys = AnimationSystem::new();
    let id = sys.start(fade(1.0));
    update(&mut sys, 0.5);
    assert!(sys.replace(id, fade(2.0)));
    assert!(sys.is_playing_id(id));
    let index = sys.index_of(id).expect("running");
    assert_eq!(sys.track(index).data, fade(2.0));
}

#[test]
fn replace_keeps_paused_flag_and_position() {
    let mut sys = AnimationSystem::new();
    let a = sys.start(fade(1.0));
    let b = sys.start(fade(1.0));
    assert!(sys.pause(a));
    assert!(sys.replace(a, fade(5.0)));
    assert_eq!(sys.track(0).id, a);
    assert!(sys.track(0).paused);
    assert_eq!(sys.track(0).data, fade(5.0));
    assert_eq!(sys.track(1).id, b);
    assert!(!sys.replace(7, fade(9.0)));
    assert_eq!(sys.count(), 2);
}

#[test]
fn ids_are_fresh_and_increasing() {
    let mut sys = AnimationSystem::new();
    let a = sys.start(fade(1.0));
    let b = sys.start(fade(1.0));
    sys.stop(a);
    let c = sys.start(fade(1.0));
    assert_eq!((a, b, c), (0, 1, 2));
    assert!(!sys.is_playing_id(a));
    assert!(sys.is_playing_id(b) && sys.is_playing_id(c));
}

#[test]
fn stop_keeps_other_tracks_in_order() {
    let mut sys = AnimationSystem::new();
    let ids: Vec<usize> = (0..4).map(|k| sys.start(fade(k as f32 + 1.0))).collect();
    sys.stop(ids[1]);
    let left: Vec<usize> = sys.tracks().iter().map(|t| t.id).collect();
    assert_eq!(left, vec![ids[0], ids[2], ids[3]]);
    // stopping an unknown id changes nothing
    sys.stop(99);
    assert_eq!(sys.count(), 3);
}

#[test]
fn pause_unknown_id_reports_false() {
    let mut sys: AnimationSystem<Fade> = AnimationSystem::new();
    assert!(!sys.pause(3));
    assert!(!sys.resume(3));
}

#[test]
fn stop_all_pauses_everything() {
    let mut sys = AnimationSystem::new();
    sys.start(fade(1.0));
    sys.start(fade(1.0));
    sys.stop_all();
    assert!(sys.tracks().iter().all(|t| t.paused));
    assert_eq!(sys.count(), 2);
    assert!(sys.is_playing());
}

#[test]
fn retain_where_keeps_marked() {
    let mut sys = AnimationSystem::new();
    for k in 0..5 {
        sys.start(fade(k as f32));
    }
    sys.retain_where(&vec![true, false, true, false, false]);
    let left: Vec<usize> = sys.tracks().iter().map(|t| t.id).collect();
    assert_eq!(left, vec![0, 2]);
}

#[test]
fn group_queries_and_stop() {
    let mut sys = AnimationSystem::new();
    let a = sys.start(fade(1.0));
    let b = sys.start(fade(1.0));
    let c = sys.start(fade(1.0));
    let group = AnimationGroupID::new(vec![a, c]);
    assert!(sys.is_group_playing_all(&group));
    assert!(sys.is_group_playing_any(&group));
    assert!(!sys.is_group_finished_any(&group));
    assert!(!sys.is_group_finished_all(&group));
    sys.stop(a);
    assert!(!sys.is_group_playing_all(&group));
    assert!(sys.is_group_playing_any(&group));
    assert!(sys.is_group_finished_any(&group));
    sys.stop_by_group(&group);
    assert!(sys.is_group_finished_all(&group));
    assert!(sys.is_playing_id(b));
    assert_eq!(sys.count(), 1);
}

#[test]
fn empty_group_is_all_playing_and_all_finished() {
    let sys: AnimationSystem<Fade> = AnimationSystem::new();
    let group = AnimationGroupID::empty();
    assert!(sys.is_group_playing_all(&group));
    assert!(sys.is_group_finished_all(&group));
    assert!(!sys.is_group_playing_any(&group));
    assert!(!sys.is_group_finished_any(&group));
}

#[test]
fn pause_and_resume_group() {
    let mut sys = AnimationSystem::new();
    let a = sys.start(fade(1.0));
    let b = sys.start(fade(1.0));
    let group = AnimationGroupID::new(vec![b]);
    sys.pause_group(&group);
    let paused: Vec<bool> = sys.tracks().iter().map(|t| t.paused).collect();
    assert_eq!(paused, vec![false, true]);
    update(&mut sys, 0.5);
    assert_eq!(sys.track(sys.index_of(a).unwrap()).data.elapsed, 0.5);
    assert_eq!(sys.track(sys.index_of(b).unwrap()).data.elapsed, 0.0);
    sys.resume_group(&group);
    assert!(sys.tracks().iter().all(|t| !t.paused));
}

#[test]
fn remove_from_group_stops_and_forgets() {
    let mut sys = AnimationSystem::new();
    let a = sys.start(fade(1.0));
    let b = sys.start(fade(1.0));
    let mut group = AnimationGroupID::new(vec![a, b]);
    sys.remove_from_group(&mut group, 0);
    assert_eq!(group.iter(), &[b]);
    assert!(!sys.is_playing_id(a));
    assert!(sys.is_playing_id(b));
}
