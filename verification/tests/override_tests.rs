use goombuild::node::{node_eq, Node};
use goombuild::override_yaml::{override_property, Overrides};
use goombuild::read_yaml::ContextfulErrorType;

fn map(entries: Vec<(&str, Node)>) -> Node {
    Node::Mapping(entries.into_iter().map(|(k, v)| (k.to_string(), v)).collect())
}

fn s(text: &str) -> Node {
    Node::Str(text.to_string())
}

#[test]
fn apply_no_overrides_is_identity() {
    let mut doc = map(vec![("kind", s("cpp")), ("obj_dir", s("build"))]);
    let expected = map(vec![("kind", s("cpp")), ("obj_dir", s("build"))]);
    let ovs = Overrides::new();
    let r = ovs.apply(&mut doc);
    assert!(r.is_ok());
    assert!(node_eq(&doc, &expected));
}

#[test]
fn override_creates_missing_sources_path() {
    let mut doc = map(vec![]);
    let r = override_property(&mut doc, "sources.0.dir", "lib");
    assert!(r.is_ok());
    let expected = map(vec![(
        "sources",
        Node::Sequence(vec![map(vec![("dir", s("lib"))])]),
    )]);
    assert!(node_eq(&doc, &expected));
}

#[test]
fn override_appends_to_empty_targets() {
    let mut doc = map(vec![("targets", Node::Sequence(vec![]))]);
    let mut ovs = Overrides::new();
    ovs.add("targets.+.name=release".to_string());
    let r = ovs.apply(&mut doc);
    assert!(r.is_ok());
    let expected = map(vec![(
        "targets",
        Node::Sequence(vec![map(vec![("name", s("release"))])]),
    )]);
    assert!(node_eq(&doc, &expected));
}

#[test]
fn override_replaces_sequence_element() {
    let mut doc = map(vec![("xs", Node::Sequence(vec![s("a"), s("b")]))]);
    let r = override_property(&mut doc, "xs.1", "c");
    assert!(r.is_ok());
    let expected = map(vec![("xs", Node::Sequence(vec![s("a"), s("c")]))]);
    assert!(node_eq(&doc, &expected));
}

#[test]
fn override_appends_with_plus() {
    let mut doc = map(vec![("xs", Node::Sequence(vec![s("a")]))]);
    let r = override_property(&mut doc, "xs.+", "b");
    assert!(r.is_ok());
    let expected = map(vec![("xs", Node::Sequence(vec![s("a"), s("b")]))]);
    assert!(node_eq(&doc, &expected));
}

#[test]
fn override_index_one_past_end_appends() {
    let mut doc = map(vec![("xs", Node::Sequence(vec![s("a")]))]);
    let r = override_property(&mut doc, "xs.1", "b");
    assert!(r.is_ok());
    let expected = map(vec![("xs", Node::Sequence(vec![s("a"), s("b")]))]);
    assert!(node_eq(&doc, &expected));
}

#[test]
fn override_index_out_of_range_is_error() {
    let mut doc = map(vec![("xs", Node::Sequence(vec![s("a")]))]);
    let r = override_property(&mut doc, "xs.5", "b");
    assert!(matches!(
        r,
        Err(e) if matches!(e.err, ContextfulErrorType::IndexOutOfRange)
    ));
    let expected = map(vec![("xs", Node::Sequence(vec![s("a")]))]);
    assert!(node_eq(&doc, &expected));
}

#[test]
fn override_inner_index_out_of_range_is_error() {
    let mut doc = map(vec![("xs", Node::Sequence(vec![s("a")]))]);
    let r = override_property(&mut doc, "xs.3.k", "v");
    assert!(matches!(
        r,
        Err(e) if matches!(e.err, ContextfulErrorType::IndexOutOfRange)
    ));
}

#[test]
fn override_type_conflict_is_error() {
    let mut doc = map(vec![("k", s("scalar"))]);
    let r = override_property(&mut doc, "k.sub", "v");
    assert!(matches!(
        r,
        Err(e) if matches!(e.err, ContextfulErrorType::TypeConflict(_, _))
    ));
    let expected = map(vec![("k", s("scalar"))]);
    assert!(node_eq(&doc, &expected));
}

#[test]
fn override_empty_segment_is_error() {
    let mut doc = map(vec![]);
    let r = override_property(&mut doc, "a..b", "v");
    assert!(matches!(
        r,
        Err(e) if matches!(e.err, ContextfulErrorType::EmptyPathSegment)
    ));
}

#[test]
fn override_malformed_index_is_error() {
    let mut doc = map(vec![("xs", Node::Sequence(vec![s("a")]))]);
    let r = override_property(&mut doc, "xs.1x", "v");
    assert!(matches!(
        r,
        Err(e) if matches!(e.err, ContextfulErrorType::MalformedIndex)
    ));
}

#[test]
fn override_without_equals_is_error() {
    let mut doc = map(vec![]);
    let mut ovs = Overrides::new();
    ovs.add("noequalshere".to_string());
    let r = ovs.apply(&mut doc);
    match r {
        Err(e) => {
            let msg = e.message();
            assert!(msg.contains("Config override syntax is `path=value`"));
            assert!(msg.contains("In property override noequalshere"));
        }
        Ok(_) => panic!("an override without `=` must be rejected"),
    }
}

#[test]
fn override_value_stays_a_plain_string() {
    let mut doc = map(vec![]);
    let r = override_property(&mut doc, "n", "3");
    assert!(r.is_ok());
    let expected = map(vec![("n", s("3"))]);
    assert!(node_eq(&doc, &expected));
}

#[test]
fn override_synthesizes_nested_mappings() {
    let mut doc = map(vec![]);
    let r = override_property(&mut doc, "a.b.c", "v");
    assert!(r.is_ok());
    let expected = map(vec![("a", map(vec![("b", map(vec![("c", s("v"))]))]))]);
    assert!(node_eq(&doc, &expected));
}

#[test]
fn override_replaces_existing_key_in_place() {
    let mut doc = map(vec![("a", s("old")), ("b", s("keep"))]);
    let r = override_property(&mut doc, "a", "new");
    assert!(r.is_ok());
    let expected = map(vec![("a", s("new")), ("b", s("keep"))]);
    assert!(node_eq(&doc, &expected));
}

#[test]
fn failing_override_stops_after_earlier_ones() {
    let mut doc = map(vec![("xs", Node::Sequence(vec![]))]);
    let mut ovs = Overrides::new();
    ovs.add("a=1".to_string());
    ovs.add("xs.9=v".to_string());
    ovs.add("b=2".to_string());
    let r = ovs.apply(&mut doc);
    assert!(r.is_err());
    let expected = map(vec![("xs", Node::Sequence(vec![])), ("a", s("1"))]);
    assert!(node_eq(&doc, &expected));
}

#[test]
fn override_huge_index_is_out_of_range() {
    let mut doc = map(vec![("xs", Node::Sequence(vec![s("a")]))]);
    let r = override_property(&mut doc, "xs.99999999999999999999999999", "v");
    assert!(matches!(
        r,
        Err(e) if matches!(e.err, ContextfulErrorType::IndexOutOfRange)
    ));
}

#[test]
fn synthesized_index_segment_wraps_in_one_element_sequence() {
    let mut doc = map(vec![]);
    let r = override_property(&mut doc, "xs.3", "v");
    assert!(r.is_ok());
    let expected = map(vec![("xs", Node::Sequence(vec![s("v")]))]);
    assert!(node_eq(&doc, &expected));
}

#[test]
fn append_to_non_sequence_is_type_conflict() {
    let mut doc = map(vec![("k", map(vec![]))]);
    let r = override_property(&mut doc, "k.+", "v");
    assert!(matches!(
        r,
        Err(e) if matches!(e.err, ContextfulErrorType::TypeConflict(_, _))
    ));
}
