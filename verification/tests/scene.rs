use snart_laser::canvas::scene::Scene;

fn scene_of(ids: &[u128]) -> Scene<&'static str> {
    let mut s = Scene::new();
    for &id in ids {
        assert_eq!(s.add_item(id, "item"), id);
    }
    s
}

fn ids(s: &Scene<&'static str>) -> Vec<u128> {
    s.items().iter().map(|i| i.id).collect()
}

#[test]
fn add_and_find_items() {
    let mut s = Scene::new();
    s.add_item(1, "a");
    s.add_item(2, "b");
    assert_eq!(s.item_count(), 2);
    assert_eq!(s.item(2), Some(&"b"));
    assert_eq!(s.item(3), None);
    assert_eq!(s.position(2), Some(1));
    *s.item_mut(1).unwrap() = "z";
    assert_eq!(s.item(1), Some(&"z"));
    assert!(s.item_mut(9).is_none());
}

#[test]
fn remove_item_drops_it_and_its_selection() {
    let mut s = scene_of(&[1, 2, 3, 2]);
    s.set_selection(vec![2, 3, 2]);
    s.remove_item(2);
    assert_eq!(ids(&s), vec![1, 3]);
    assert_eq!(s.selected_ids(), &[3]);
}

#[test]
fn remove_selected_items() {
    let mut s = scene_of(&[1, 2, 3, 4]);
    s.set_selection(vec![4, 2, 9]);
    s.remove_selected();
    assert_eq!(ids(&s), vec![1, 3]);
    assert!(s.selected_ids().is_empty());
}

#[test]
fn selection() {
    let mut s = scene_of(&[5, 6]);
    assert!(!s.is_selected(5));
    s.select_all();
    assert_eq!(s.selected_ids(), &[5, 6]);
    assert!(s.is_selected(6));
    s.deselect_all();
    assert!(s.selected_ids().is_empty());
    s.clear();
    assert_eq!(s.item_count(), 0);
}

#[test]
fn topmost_and_flagged() {
    let s = scene_of(&[1, 2, 3]);
    assert_eq!(s.topmost_flagged(&[true, true, false]), Some(2));
    assert_eq!(s.topmost_flagged(&[false, false, false]), None);
    assert_eq!(s.flagged(&[true, false, true]), vec![1, 3]);
}

#[test]
fn reorder_items() {
    let mut s = scene_of(&[1, 2, 3]);
    s.move_item_up(1);
    assert_eq!(ids(&s), vec![2, 1, 3]);
    s.move_item_down(1);
    assert_eq!(ids(&s), vec![1, 2, 3]);
    s.move_item_up(3);
    assert_eq!(ids(&s), vec![1, 2, 3]);
    s.move_item_down(1);
    assert_eq!(ids(&s), vec![1, 2, 3]);
    s.move_item_down(3);
    assert_eq!(ids(&s), vec![1, 3, 2]);
    s.move_item_up(9);
    assert_eq!(ids(&s), vec![1, 3, 2]);
}
