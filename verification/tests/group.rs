use rustgames::group::AnimationGroupID;

#[test]
fn group_basics() {
    let mut g = AnimationGroupID::new(vec![4, 7, 9]);
    assert_eq!(g.len(), 3);
    assert!(!g.is_empty());
    assert_eq!(g.get_id(1), Some(&7));
    assert_eq!(g.get_id(3), None);
    g.remove(1);
    assert_eq!(g.iter(), &[4, 9]);
    let e = AnimationGroupID::empty();
    assert!(e.is_empty());
    assert_eq!(e.len(), 0);
}
