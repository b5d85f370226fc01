//! The call-graph snapshot: root marking, child insertion, clearing.

use triglyceride::Tree;

#[test]
fn set_root_creates_the_node() {
    let mut t = Tree::new();
    t.set_root("MAIN");
    assert_eq!(t.root, Some("MAIN"));
    assert_eq!(t.nodes.len(), 1);
    assert_eq!(t.nodes[0].name, "MAIN");
    assert_eq!(t.nodes[0].parent, None);
    assert!(t.nodes[0].children.is_empty());
}

#[test]
fn set_root_twice_never_duplicates() {
    let mut t = Tree::new();
    t.set_root("MAIN");
    t.set_root("MAIN");
    assert_eq!(t.nodes.len(), 1);
    assert_eq!(t.root, Some("MAIN"));
}

#[test]
fn set_root_matches_by_content_not_identity() {
    // The same name arriving as a different string object is still the
    // same node.
    let mut t = Tree::new();
    let first: &'static str = Box::leak(String::from("MAIN").into_boxed_str());
    let second: &'static str = Box::leak(String::from("MAIN").into_boxed_str());
    t.set_root(first);
    t.set_root(second);
    assert_eq!(t.nodes.len(), 1);
}

#[test]
fn add_child_creates_both_nodes() {
    let mut t = Tree::new();
    t.add_child("PARENT", "CHILD");
    assert_eq!(t.nodes.len(), 2);
    let parent = t.get_node("PARENT").unwrap();
    assert_eq!(parent.children, vec!["CHILD"]);
    assert_eq!(parent.parent, None);
    let child = t.get_node("CHILD").unwrap();
    assert_eq!(child.parent, Some("PARENT"));
    assert!(child.children.is_empty());
}

#[test]
fn children_keep_temporal_order() {
    let mut t = Tree::new();
    t.set_root("MAIN");
    t.add_child("MAIN", "PHYSICS");
    t.add_child("MAIN", "RENDER");
    t.add_child("MAIN", "AUDIO");
    let main = t.get_node("MAIN").unwrap();
    assert_eq!(main.children, vec!["PHYSICS", "RENDER", "AUDIO"]);
}

#[test]
fn repeated_child_is_appended_not_recreated() {
    let mut t = Tree::new();
    t.add_child("MAIN", "STEP");
    t.add_child("MAIN", "STEP");
    assert_eq!(t.nodes.len(), 2);
    let main = t.get_node("MAIN").unwrap();
    assert_eq!(main.children, vec!["STEP", "STEP"]);
}

#[test]
fn clear_empties_everything() {
    let mut t = Tree::new();
    t.set_root("MAIN");
    t.add_child("MAIN", "STEP");
    t.clear();
    assert_eq!(t.nodes.len(), 0);
    assert_eq!(t.root, None);
    assert!(t.get_node("MAIN").is_none());
}

#[test]
fn unknown_names_are_absent_not_errors() {
    let t = Tree::new();
    assert!(t.get_node("NOWHERE").is_none());
}
