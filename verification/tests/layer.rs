use snart_laser::job::layer::{default_layer_color, default_layer_name, Layer, LayerList};

fn list(n: usize) -> LayerList<String> {
    let mut l = LayerList::new();
    for i in 0..n {
        assert_eq!(l.add(Layer::new(format!("L{i}"))), i);
    }
    l
}

fn names(l: &LayerList<String>) -> Vec<String> {
    l.iter().iter().map(|x| x.settings.clone()).collect()
}

#[test]
fn new_layer_defaults() {
    assert_eq!(default_layer_name(0), "Layer 1");
    assert_eq!(default_layer_name(41), "Layer 42");
    assert_eq!(default_layer_color(0), "#e74c3c");
    assert_eq!(default_layer_color(1), "#3498db");
    assert_eq!(default_layer_color(9), "#00bcd4");
    assert_eq!(default_layer_color(10), "#e74c3c");
    assert_eq!(default_layer_color(23), "#f39c12");
}

#[test]
fn layer_items() {
    let mut l = Layer::new(());
    l.add_item(7);
    l.add_item(7);
    l.add_item(8);
    assert_eq!(l.item_ids.len(), 2);
    l.remove_item(7);
    assert!(!l.item_ids.contains(&7));
    assert!(l.item_ids.contains(&8));
}

#[test]
fn list_basics() {
    let mut l = list(3);
    assert_eq!(l.len(), 3);
    assert!(!l.is_empty());
    assert_eq!(l.get(1).map(|x| x.settings.as_str()), Some("L1"));
    assert!(l.get(3).is_none());
    l.get_mut(2).unwrap().settings = "changed".to_owned();
    assert_eq!(names(&l), vec!["L0", "L1", "changed"]);
    l.remove(1);
    assert_eq!(names(&l), vec!["L0", "changed"]);
    l.remove(5);
    assert_eq!(l.len(), 2);
    assert!(LayerList::<String>::new().is_empty());
}

#[test]
fn move_layers() {
    let mut l = list(3);
    l.move_up(0);
    assert_eq!(names(&l), vec!["L1", "L0", "L2"]);
    l.move_down(1);
    assert_eq!(names(&l), vec!["L0", "L1", "L2"]);
    l.move_up(2);
    assert_eq!(names(&l), vec!["L0", "L1", "L2"]);
    l.move_down(0);
    assert_eq!(names(&l), vec!["L0", "L1", "L2"]);
}

#[test]
fn assign_items_moves_them() {
    let mut l = list(3);
    l.get_mut(0).unwrap().add_item(1);
    l.get_mut(0).unwrap().add_item(2);
    l.get_mut(1).unwrap().add_item(3);
    l.assign_items(2, &[1, 3]);
    assert_eq!(l.layer_for_item(1), Some(2));
    assert_eq!(l.layer_for_item(2), Some(0));
    assert_eq!(l.layer_for_item(3), Some(2));
    assert_eq!(l.layer_for_item(4), None);
    assert!(l.get(1).unwrap().item_ids.is_empty());
}

#[test]
fn assign_to_missing_layer_only_removes() {
    let mut l = list(2);
    l.get_mut(1).unwrap().add_item(5);
    l.assign_items(9, &[5]);
    assert_eq!(l.layer_for_item(5), None);
    assert_eq!(names(&l), vec!["L0", "L1"]);
}
