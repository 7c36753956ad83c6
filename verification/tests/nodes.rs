use router_tree::DynamicTreeNode;
use router_tree::Params;
use router_tree::RouterTree;
use router_tree::StaticTreeNode;
use router_tree::TreeNode;
use router_tree::TreeNodeMut;

#[test]
fn setting_dynamic_child_discards_previous_subtree() {
    let mut node = StaticTreeNode::<&str>::new(None);
    node.set_dynamic_child("x", None);
    node.dynamic_child
        .as_mut()
        .expect("dynamic child was set")
        .node
        .add_static_child("b", Some("H1"));

    node.set_dynamic_child("y", None);

    let fresh = node.get_dynamic_child().expect("dynamic child was replaced");
    assert_eq!(fresh.param_name, "y");
    assert!(fresh.node.get_static_child("b").is_none());
}

#[test]
fn static_child_management() {
    let mut node = StaticTreeNode::<&str>::new(None);
    assert!(!node.has_static_child("a"));
    node.add_static_child("a", Some("A"));
    assert!(node.has_static_child("a"));
    assert_eq!(node.get_static_child("a").expect("child exists").handler, Some("A"));
    assert!(node.get_static_child("b").is_none());

    // Adding again replaces the child, and its subtree, with a fresh one.
    node.add_static_child("a", Some("A2"));
    assert_eq!(node.get_static_child("a").expect("child exists").handler, Some("A2"));
    assert_eq!(node.static_children.len(), 1);

    let removed = node.delete_static_child("a").expect("child removed");
    assert_eq!(removed.handler, Some("A2"));
    assert!(!node.has_static_child("a"));
    assert!(node.delete_static_child("a").is_none());
}

#[test]
fn dynamic_child_management() {
    let mut node = StaticTreeNode::<&str>::new(None);
    assert!(!node.has_dynamic_child());
    node.set_dynamic_child("id", Some("D"));
    assert!(node.has_dynamic_child());
    let child = node.get_dynamic_child().expect("dynamic child exists");
    assert_eq!(child.param_name, "id");
    assert_eq!(child.node.handler, Some("D"));

    node.delete_dynamic_child();
    assert!(!node.has_dynamic_child());
    assert!(node.get_dynamic_child().is_none());
}

#[test]
fn wildcard_slot_management() {
    let mut node = StaticTreeNode::<&str>::new(None);
    assert_eq!(node.wildcard_handler, None);
    node.set_wildcard_handler(Some("w"));
    assert_eq!(node.wildcard_handler, Some("w"));
    node.delete_wildcard_handler();
    assert_eq!(node.wildcard_handler, None);
}

#[test]
fn get_child_prefers_static_over_dynamic() {
    let mut node = StaticTreeNode::<&str>::new(None);
    node.add_static_child("a", Some("A"));
    node.set_dynamic_child("p", Some("D"));

    match node.get_child("a") {
        Some(TreeNode::Static(n)) => assert_eq!(n.handler, Some("A")),
        _ => panic!("expected the static child"),
    }
    match node.get_child("zzz") {
        Some(TreeNode::Dynamic(d)) => {
            assert_eq!(d.param_name, "p");
            assert_eq!(d.node.handler, Some("D"));
        },
        _ => panic!("expected the dynamic child"),
    }

    let mut bare = StaticTreeNode::<&str>::new(None);
    assert!(bare.get_child("a").is_none());
    bare.add_static_child("a", None);
    assert!(bare.get_child("b").is_none());
}

#[test]
fn extract_static_node_reaches_both_variants() {
    let stat = StaticTreeNode::<&str>::new(Some("S"));
    let child = TreeNode::Static(&stat);
    assert_eq!(child.extract_static_node().handler, Some("S"));

    let dynamic = DynamicTreeNode::<&str>::new(Some("D"), "name");
    assert_eq!(dynamic.param_name, "name");
    let child = TreeNode::Dynamic(&dynamic);
    assert_eq!(child.extract_static_node().handler, Some("D"));
}

#[test]
fn mutable_static_child_access() {
    let mut node = StaticTreeNode::<&str>::new(None);
    node.add_static_child("a", Some("A"));

    let child = node.get_static_child_mut("a").expect("static child exists");
    child.handler = Some("A2");
    assert_eq!(node.get_static_child("a").expect("child exists").handler, Some("A2"));
    assert!(node.get_static_child_mut("zzz").is_none());
}

#[test]
fn mutable_dynamic_child_access() {
    let mut node = StaticTreeNode::<&str>::new(None);
    assert!(node.get_dynamic_child_mut().is_none());
    node.set_dynamic_child("p", Some("D"));

    let child = node.get_dynamic_child_mut().expect("dynamic child exists");
    child.node.handler = Some("D2");
    assert_eq!(
        node.get_dynamic_child().expect("dynamic child exists").node.handler,
        Some("D2"),
    );
}

#[test]
fn mutable_child_lookup_prefers_static() {
    let mut node = StaticTreeNode::<&str>::new(None);
    node.add_static_child("a", Some("A"));
    node.set_dynamic_child("p", Some("D"));

    match node.get_child_mut("a") {
        Some(TreeNodeMut::Static(n)) => n.handler = Some("A3"),
        _ => panic!("expected the static child"),
    }
    assert_eq!(node.get_static_child("a").expect("child exists").handler, Some("A3"));

    match node.get_child_mut("other") {
        Some(child) => {
            assert!(matches!(child, TreeNodeMut::Dynamic(_)));
            child.extract_static_node().handler = Some("D3");
        },
        None => panic!("expected the dynamic child"),
    }
    assert_eq!(
        node.get_dynamic_child().expect("dynamic child exists").node.handler,
        Some("D3"),
    );

    let mut bare = StaticTreeNode::<&str>::new(None);
    assert!(bare.get_child_mut("x").is_none());
}

#[test]
fn root_node_is_reachable() {
    let router = RouterTree::<&str>::new(Some("root"), None, None, None);
    match router.get_root_node() {
        TreeNode::Static(n) => assert_eq!(n.handler, Some("root")),
        _ => panic!("expected the static root"),
    }
}

#[test]
fn dynamic_segments_and_their_names() {
    assert!(RouterTree::<i32>::is_dynamic_segment(":id", ":"));
    assert!(!RouterTree::<i32>::is_dynamic_segment("id", ":"));
    assert!(RouterTree::<i32>::is_dynamic_segment(":", ":"));
    assert!(RouterTree::<i32>::is_dynamic_segment("$x", "$"));

    assert_eq!(RouterTree::<i32>::strip_param_prefix(":id", ":"), "id");
    assert_eq!(RouterTree::<i32>::strip_param_prefix(":", ":"), "");
    assert_eq!(RouterTree::<i32>::strip_param_prefix("id", ":"), "");
}

#[test]
fn segment_with_bare_prefix_binds_empty_name() {
    let mut router = RouterTree::<&str>::new(None, None, None, None);
    router.add("/a/:".to_string(), Some("H"));

    let found = router.get("/a/value".to_string()).expect("should match");
    assert_eq!(found.params().get(""), Some(&"value".to_string()));
}

#[test]
fn parse_path_splits_on_the_separator() {
    let router = RouterTree::<i32>::new(None, None, None, None);
    assert_eq!(router.parse_path(&"/a/b".to_string()), vec!["a", "b"]);
    assert_eq!(router.parse_path(&"a/b".to_string()), vec!["a", "b"]);
    assert_eq!(router.parse_path(&"".to_string()), vec![""]);
    assert_eq!(router.parse_path(&"/".to_string()), vec![""]);
    assert_eq!(router.parse_path(&"//a".to_string()), vec!["", "a"]);
    assert_eq!(router.parse_path(&"/a//b/".to_string()), vec!["a", "", "b", ""]);
}

#[test]
fn params_read_as_a_mapping() {
    let mut params = Params::new();
    assert_eq!(params.len(), 0);
    assert_eq!(params.get("x"), None);

    params.push("x".to_string(), "1".to_string());
    params.push("y".to_string(), "2".to_string());
    params.push("x".to_string(), "3".to_string());

    assert_eq!(params.len(), 3);
    assert_eq!(params.get("x"), Some(&"3".to_string()));
    assert_eq!(params.get("y"), Some(&"2".to_string()));
    assert_eq!(params.get("z"), None);

    let copy = params.duplicate();
    assert_eq!(copy.len(), 3);
    assert_eq!(copy.get("x"), Some(&"3".to_string()));
    assert_eq!(copy.pairs, params.pairs);
}

#[test]
fn handler_and_params_getters() {
    let mut router = RouterTree::<u64>::new(None, None, None, None);
    router.add("/n/:k".to_string(), Some(7));

    let found = router.get("/n/9".to_string()).expect("should match");
    assert_eq!(*found.handler(), 7);
    assert_eq!(found.params().get("k"), Some(&"9".to_string()));
}
