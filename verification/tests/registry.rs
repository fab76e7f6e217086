use std::cmp::Ordering;

use require_graph::module::Module;
use require_graph::registry::Registry;
use require_graph::syntax::SyntaxTree;

fn module(id: usize, path: &str) -> Module {
    Module { id, path_name: path.to_string(), ast: Some(SyntaxTree { body: vec![] }) }
}

fn probe(path: &str) -> Module {
    Module { id: 0, path_name: path.to_string(), ast: None }
}

#[test]
fn a_new_registry_is_empty() {
    let registry = Registry::new();
    assert_eq!(registry.len(), 0);
    assert_eq!(registry.next_id(), 0);
    assert!(!registry.contains("/work/a.js"));
    assert!(registry.get(0).is_none());
}

#[test]
fn the_next_id_is_the_size() {
    let mut registry = Registry::new();
    for (id, path) in ["/a.js", "/b.js", "/c.js"].iter().enumerate() {
        assert_eq!(registry.next_id(), id);
        assert!(registry.insert(module(registry.next_id(), path)));
        assert_eq!(registry.len(), id + 1);
    }
    assert_eq!(registry.next_id(), 3);
}

#[test]
fn contains_goes_by_canonical_path_alone() {
    let mut registry = Registry::new();
    assert!(registry.insert(module(0, "/work/a.js")));
    assert!(registry.contains("/work/a.js"));
    assert!(!registry.contains("/work/a"));
    assert!(!registry.contains("/work/A.js"));
    assert!(!registry.contains("/work/a.js/"));
    assert!(!registry.contains(""));
}

#[test]
fn a_known_path_is_not_inserted_again() {
    let mut registry = Registry::new();
    assert!(registry.insert(module(0, "/work/a.js")));
    assert!(!registry.insert(module(1, "/work/a.js")));
    assert_eq!(registry.len(), 1);
    assert_eq!(registry.get(0).unwrap().id, 0);
}

#[test]
fn an_identifier_out_of_turn_is_not_inserted() {
    let mut registry = Registry::new();
    assert!(!registry.insert(module(1, "/work/a.js")));
    assert_eq!(registry.len(), 0);
    assert!(registry.insert(module(0, "/work/a.js")));
    assert!(!registry.insert(module(0, "/work/b.js")));
    assert!(!registry.insert(module(2, "/work/b.js")));
    assert!(registry.insert(module(1, "/work/b.js")));
    assert_eq!(registry.len(), 2);
}

#[test]
fn modules_are_found_by_identifier() {
    let mut registry = Registry::new();
    registry.insert(module(0, "/work/a.js"));
    registry.insert(module(1, "/work/b.js"));
    assert_eq!(registry.get(0).unwrap().path_name, "/work/a.js");
    assert_eq!(registry.get(1).unwrap().path_name, "/work/b.js");
    assert_eq!(registry.get(1).unwrap().id, 1);
    assert!(registry.get(2).is_none());
    assert_eq!(registry.get(0).unwrap().ast, Some(SyntaxTree { body: vec![] }));
}

#[test]
fn the_path_comes_back_as_a_string() {
    assert_eq!(module(3, "/work/a.js").path_name_as_str(), "/work/a.js");
    assert_eq!(probe("").path_name_as_str(), "");
}

#[test]
fn modules_are_equal_when_their_paths_are() {
    assert!(module(0, "/work/a.js") == module(7, "/work/a.js"));
    assert!(module(0, "/work/a.js") == probe("/work/a.js"));
    assert!(module(0, "/work/a.js") != module(0, "/work/b.js"));
}

#[test]
fn modules_are_ordered_by_identifier() {
    assert_eq!(module(0, "/z.js").partial_cmp(&module(1, "/a.js")), Some(Ordering::Less));
    assert_eq!(module(2, "/a.js").partial_cmp(&module(1, "/z.js")), Some(Ordering::Greater));
    assert_eq!(module(1, "/a.js").partial_cmp(&module(1, "/z.js")), Some(Ordering::Equal));
    assert!(module(0, "/z.js") < module(1, "/a.js"));
}
