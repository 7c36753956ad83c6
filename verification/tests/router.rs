use router_tree::RouterTree;

#[test]
fn it_works() {
    let mut router = RouterTree::<i32>::new(None, None, None, None);

    router.add("/user/:id".to_string(), None);

    let _result = router.get("/user/123".to_string());

    println!("I am here!!!");

    assert_eq!(1, 1)
}

#[test]
fn exact_match_binds_parameter() {
    let mut router = RouterTree::<&str>::new(None, None, None, None);
    router.add("/user/:id".to_string(), Some("H"));

    let found = router.get("/user/123".to_string()).expect("should match");
    assert_eq!(*found.handler(), "H");
    assert_eq!(found.params().get("id"), Some(&"123".to_string()));
    assert_eq!(found.params().len(), 1);
}

#[test]
fn no_match_on_structural_mismatch() {
    let mut router = RouterTree::<&str>::new(None, None, None, None);
    router.add("/user/:id".to_string(), Some("H"));

    assert!(router.get("/user".to_string()).is_none());
    assert!(router.get("/user/123/extra".to_string()).is_none());
}

#[test]
fn static_wins_over_dynamic_at_same_level() {
    let mut router = RouterTree::<&str>::new(None, None, None, None);
    router.add("/user/:id".to_string(), Some("H1"));
    router.add("/user/admin".to_string(), Some("H2"));

    let admin = router.get("/user/admin".to_string()).expect("should match");
    assert_eq!(*admin.handler(), "H2");
    assert_eq!(admin.params().len(), 0);

    let other = router.get("/user/42".to_string()).expect("should match");
    assert_eq!(*other.handler(), "H1");
    assert_eq!(other.params().get("id"), Some(&"42".to_string()));
}

#[test]
fn second_insertion_overwrites_handler() {
    let mut router = RouterTree::<&str>::new(None, None, None, None);
    router.add("/a".to_string(), Some("H1"));
    router.add("/a".to_string(), Some("H2"));

    let found = router.get("/a".to_string()).expect("should match");
    assert_eq!(*found.handler(), "H2");
}

#[test]
fn inserting_no_handler_clears_the_slot() {
    let mut router = RouterTree::<&str>::new(None, None, None, None);
    router.add("/a".to_string(), Some("H1"));
    router.add("/a".to_string(), None);

    assert!(router.get("/a".to_string()).is_none());
}

#[test]
fn dynamic_child_is_reused_with_its_first_name() {
    let mut router = RouterTree::<&str>::new(None, None, None, None);
    router.add("/a/:x/b".to_string(), Some("H1"));
    router.add("/a/:y/c".to_string(), Some("H2"));

    // The second pattern reuses the dynamic child created by the first, so
    // the earlier subtree survives and the parameter keeps its first name.
    let first = router.get("/a/1/b".to_string()).expect("should match");
    assert_eq!(*first.handler(), "H1");
    assert_eq!(first.params().get("x"), Some(&"1".to_string()));

    let second = router.get("/a/1/c".to_string()).expect("should match");
    assert_eq!(*second.handler(), "H2");
    assert_eq!(second.params().get("x"), Some(&"1".to_string()));
    assert_eq!(second.params().get("y"), None);
}

#[test]
fn lookup_is_idempotent() {
    let mut router = RouterTree::<&str>::new(None, None, None, None);
    router.add("/user/:id".to_string(), Some("H"));

    let first = router.get("/user/7".to_string()).expect("should match");
    let second = router.get("/user/7".to_string()).expect("should match");
    assert_eq!(*first.handler(), *second.handler());
    assert_eq!(first.params().get("id"), second.params().get("id"));
    assert_eq!(first.params().len(), second.params().len());

    assert!(router.get("/missing".to_string()).is_none());
    assert!(router.get("/missing".to_string()).is_none());
}

#[test]
fn one_leading_separator_is_stripped() {
    let mut router = RouterTree::<&str>::new(None, None, None, None);
    router.add("a/b".to_string(), Some("H1"));
    router.add("/c/d".to_string(), Some("H2"));

    // A pattern and a path split the same way whether or not exactly one
    // of them carries the leading separator.
    assert_eq!(*router.get("/a/b".to_string()).expect("should match").handler(), "H1");
    assert_eq!(*router.get("a/b".to_string()).expect("should match").handler(), "H1");
    assert_eq!(*router.get("/c/d".to_string()).expect("should match").handler(), "H2");
    assert_eq!(*router.get("c/d".to_string()).expect("should match").handler(), "H2");
}

#[test]
fn only_one_leading_separator_is_stripped() {
    let mut router = RouterTree::<&str>::new(None, None, None, None);
    router.add("//a".to_string(), Some("H"));

    // "//a" strips to "/a", which splits into an empty segment and "a".
    assert_eq!(*router.get("//a".to_string()).expect("should match").handler(), "H");
    assert!(router.get("/a".to_string()).is_none());
}

#[test]
fn empty_pattern_is_an_empty_static_segment() {
    let mut router = RouterTree::<&str>::new(Some("root"), None, None, None);
    router.add("".to_string(), Some("E"));

    // Both "" and "/" parse to the single empty segment, not to the root.
    assert_eq!(*router.get("".to_string()).expect("should match").handler(), "E");
    assert_eq!(*router.get("/".to_string()).expect("should match").handler(), "E");
}

#[test]
fn intermediate_node_without_handler_is_no_match() {
    let mut router = RouterTree::<&str>::new(None, None, None, None);
    router.add("/a/b".to_string(), Some("H"));

    assert!(router.get("/a".to_string()).is_none());
    let walked = router.traverse_path(&"/a".to_string());
    assert!(walked.is_some());
    assert!(walked.unwrap().extract_handler().is_none());
}

#[test]
fn deeper_binding_of_a_name_wins() {
    let mut router = RouterTree::<&str>::new(None, None, None, None);
    router.add("/:x/:x".to_string(), Some("H"));

    let found = router.get("/a/b".to_string()).expect("should match");
    assert_eq!(found.params().len(), 2);
    assert_eq!(found.params().get("x"), Some(&"b".to_string()));
}

#[test]
fn custom_separator_and_prefix() {
    let mut router = RouterTree::<&str>::new(
        None,
        Some("$".to_string()),
        Some(".".to_string()),
        None,
    );
    router.add("a.$id".to_string(), Some("H"));

    let found = router.get("a.42".to_string()).expect("should match");
    assert_eq!(*found.handler(), "H");
    assert_eq!(found.params().get("id"), Some(&"42".to_string()));
}

#[test]
fn multi_character_separator() {
    let mut router = RouterTree::<&str>::new(None, None, Some("::".to_string()), None);
    router.add("a::b".to_string(), Some("H"));

    assert_eq!(*router.get("::a::b".to_string()).expect("should match").handler(), "H");
    assert_eq!(*router.get("a::b".to_string()).expect("should match").handler(), "H");
    assert!(router.get("a::b::c".to_string()).is_none());
}

#[test]
fn empty_separator_keeps_path_whole() {
    let mut router = RouterTree::<&str>::new(None, None, Some("".to_string()), None);
    router.add("abc".to_string(), Some("H"));

    assert_eq!(*router.get("abc".to_string()).expect("should match").handler(), "H");
    assert!(router.get("ab".to_string()).is_none());
}

#[test]
fn wildcard_on_root_stops_descent() {
    let mut router = RouterTree::<&str>::new(Some("root"), None, None, None);
    router.root.set_wildcard_handler(Some("w"));

    // The wildcard gate stops the walk before the first segment is
    // consumed; what is returned is the node's own handler.
    let found = router.get("/anything/at/all".to_string()).expect("should match");
    assert_eq!(*found.handler(), "root");
    assert_eq!(found.params().len(), 0);
}

#[test]
fn wildcard_node_without_handler_is_no_match() {
    let mut router = RouterTree::<&str>::new(None, None, None, None);
    router.root.set_wildcard_handler(Some("w"));

    assert!(router.get("/anything".to_string()).is_none());
}

#[test]
fn wildcard_below_root_shadows_deeper_matches() {
    let mut router = RouterTree::<&str>::new(None, None, None, None);
    router.add("/a".to_string(), Some("A"));
    router.add("/a/b".to_string(), Some("B"));
    router.root.static_children[0].1.set_wildcard_handler(Some("w"));

    // The ancestor's wildcard wins over the deeper exact match.
    let found = router.get("/a/b".to_string()).expect("should match");
    assert_eq!(*found.handler(), "A");
    assert_eq!(*router.get("/a".to_string()).expect("should match").handler(), "A");
}
