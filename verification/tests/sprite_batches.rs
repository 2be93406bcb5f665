use rustgames::sprite_batches::SpriteBatches;

fn labels(b: &SpriteBatches<u32>) -> Vec<String> {
    (0..b.len()).map(|i| b.batch(i).label.clone()).collect()
}

#[test]
fn batches_keep_first_use_order() {
    let mut b = SpriteBatches::new();
    b.add_instance("hero", 1);
    b.add_instance("tree", 2);
    b.add_instance("hero", 3);
    assert_eq!(labels(&b), vec!["hero".to_string(), "tree".to_string()]);
    assert_eq!(b.batch(0).instances, vec![1, 3]);
    assert_eq!(b.batch(1).instances, vec![2]);
    assert_eq!(b.position("tree"), Some(1));
    assert_eq!(b.position("rock"), None);
}

#[test]
fn unload_and_clear() {
    let mut b = SpriteBatches::new();
    b.add_instance("a", 1);
    b.add_instance("b", 2);
    b.add_instance("c", 3);
    b.unload("b");
    assert_eq!(labels(&b), vec!["a".to_string(), "c".to_string()]);
    b.unload("zzz");
    assert_eq!(b.len(), 2);
    b.clear_instances();
    assert_eq!(b.len(), 0);
}
