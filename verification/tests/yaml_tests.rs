use goombuild::node::{get_data, node_eq, Node};
use goombuild::read_yaml::{
    array_or_string_into_vec, get_bool, get_doc, get_int, get_str, handle_wrong_type,
    read_yaml_str, try_map_option, yaml_type_name, ContextfulError, ContextfulMaybe,
    _to_unsinged,
};

fn map(entries: Vec<(&str, Node)>) -> Node {
    Node::Mapping(entries.into_iter().map(|(k, v)| (k.to_string(), v)).collect())
}

fn s(text: &str) -> Node {
    Node::Str(text.to_string())
}

#[test]
fn yaml_text_parses_to_a_document_tree() {
    let docs = read_yaml_str("kind: cpp\nsources:\n  - src\n  - vendor\ndepth: 3\nflag: true\n")
        .unwrap();
    assert_eq!(docs.len(), 1);
    let expected = map(vec![
        ("kind", s("cpp")),
        ("sources", Node::Sequence(vec![s("src"), s("vendor")])),
        ("depth", Node::Int(3)),
        ("flag", Node::Bool(true)),
    ]);
    assert!(node_eq(&docs[0], &expected));
}

#[test]
fn invalid_yaml_text_is_an_error() {
    let r = read_yaml_str("kind: [unclosed\n  - oops: [\n");
    assert!(r.is_err());
}

#[test]
fn get_doc_takes_the_single_document() {
    let docs = vec![s("only")];
    let doc = get_doc(docs).unwrap();
    assert!(node_eq(&doc, &s("only")));
}

#[test]
fn get_doc_rejects_multiple_documents() {
    let docs = vec![s("a"), s("b")];
    assert_eq!(
        get_doc(docs).unwrap_err(),
        "Config file somehow contains multiple YAML documents"
    );
}

#[test]
fn get_doc_rejects_empty_stream() {
    assert_eq!(get_doc(vec![]).unwrap_err(), "Empty config");
}

#[test]
fn type_names_are_human_readable() {
    assert_eq!(yaml_type_name(&Node::Int(1)), "integer");
    assert_eq!(yaml_type_name(&s("x")), "string");
    assert_eq!(yaml_type_name(&Node::Bool(true)), "boolean");
    assert_eq!(yaml_type_name(&Node::Sequence(vec![])), "list (aka array)");
    assert_eq!(yaml_type_name(&map(vec![])), "table (aka hash)");
    assert_eq!(yaml_type_name(&Node::Null), "null");
    assert_eq!(yaml_type_name(&Node::Bad), "error value");
}

#[test]
fn bad_value_gets_its_own_message() {
    let e = handle_wrong_type(&Node::Bad, "string");
    assert_eq!(e.message(), " : Invalid YAML value");
    let e2 = handle_wrong_type(&Node::Int(1), "string");
    assert_eq!(e2.message(), "should be a string (got integer)");
}

#[test]
fn scalar_extraction_checks_kinds() {
    let data = vec![
        ("a".to_string(), s("text")),
        ("b".to_string(), Node::Int(7)),
        ("c".to_string(), Node::Bool(false)),
    ];
    assert_eq!(get_str(&data, "a").unwrap(), Some("text".to_string()));
    assert_eq!(get_int(&data, "b").unwrap(), Some(7));
    assert_eq!(get_bool(&data, "c").unwrap(), Some(false));
    assert_eq!(get_str(&data, "missing").unwrap(), None);
    let e = get_str(&data, "b").unwrap_err();
    assert_eq!(e.message(), "b should be a string (got integer)");
}

#[test]
fn get_data_finds_first_match() {
    let data = vec![
        ("k".to_string(), s("first")),
        ("k".to_string(), s("second")),
    ];
    let found = get_data(&data, "k").unwrap();
    assert!(node_eq(found, &s("first")));
    assert!(get_data(&data, "absent").is_none());
}

#[test]
fn strings_come_from_string_or_array() {
    let one = array_or_string_into_vec(&s("single")).unwrap();
    assert_eq!(one, vec!["single".to_string()]);
    let many = array_or_string_into_vec(&Node::Sequence(vec![s("a"), s("b")])).unwrap();
    assert_eq!(many, vec!["a".to_string(), "b".to_string()]);
    let bad = array_or_string_into_vec(&Node::Sequence(vec![s("a"), Node::Int(1)]));
    assert_eq!(
        bad.unwrap_err().message(),
        "should be a string (got integer)"
    );
    let worse = array_or_string_into_vec(&Node::Int(1));
    assert_eq!(
        worse.unwrap_err().message(),
        "should be a string or array thereof (got integer)"
    );
}

#[test]
fn to_unsigned_rejects_negatives() {
    assert_eq!(_to_unsinged(7).unwrap(), 7);
    let e = _to_unsinged(-1).unwrap_err();
    assert_eq!(e.message(), "should be a positive integer");
}

#[test]
fn try_map_option_passes_values_through() {
    let data = vec![("libs".to_string(), Node::Sequence(vec![s("m")]))];
    let r = try_map_option(get_data(&data, "libs"), array_or_string_into_vec).unwrap();
    assert_eq!(r, Some(vec!["m".to_string()]));
    let none = try_map_option(get_data(&data, "absent"), array_or_string_into_vec).unwrap();
    assert_eq!(none, None);
}

#[test]
fn context_accumulates_outward() {
    let e = ContextfulError::wrong_type("string", &Node::Int(3));
    let e = e.add_context("dir".to_string());
    let e = e.add_context("in target release".to_string());
    assert_eq!(
        e.message(),
        "in target release dir should be a string (got integer)"
    );
}

#[test]
fn results_take_context_through_the_trait() {
    let bad: Result<(), ContextfulError> =
        Err(ContextfulError::wrong_type("string", &Node::Null));
    let wrapped = bad.add_context("somewhere".to_string());
    assert_eq!(
        wrapped.unwrap_err().message(),
        "somewhere should be a string (got null)"
    );
    let good: Result<u8, ContextfulError> = Ok(1);
    assert_eq!(good.add_context("ctx".to_string()).unwrap(), 1);
}

#[test]
fn node_eq_is_deep() {
    let a = map(vec![("xs", Node::Sequence(vec![s("a"), Node::Int(1)]))]);
    let b = map(vec![("xs", Node::Sequence(vec![s("a"), Node::Int(1)]))]);
    let c = map(vec![("xs", Node::Sequence(vec![s("a"), Node::Int(2)]))]);
    assert!(node_eq(&a, &b));
    assert!(!node_eq(&a, &c));
    assert!(!node_eq(&a, &s("xs")));
}

#[test]
fn parsed_documents_feed_the_whole_pipeline() {
    let text = "kind: cpp\nsources:\n  - dir: src\n  - dir: vendor\n    ext: c\ninclude:\n  - include\ntargets:\n  - name: debug\n    compile_options: -g\n";
    let docs = read_yaml_str(text).unwrap();
    let doc = get_doc(docs).unwrap();
    let config = goombuild::config::Config::read(&doc).unwrap();
    let out = config.write();
    assert!(out.contains("CC=g++\n"));
    assert!(out.contains("vpath %.c vendor\n"));
    assert!(out.contains("\ndebug: CFLAGS=-g\n"));
    assert!(out.contains("\ndebug: all\n"));
}

#[test]
fn computed_and_fixed_messages_render_as_given() {
    let e = ContextfulError {
        err: goombuild::read_yaml::ContextfulErrorType::Other("computed text".to_string()),
        context: String::new(),
    };
    assert_eq!(e.message(), "computed text");
    let e2 = ContextfulError::_with_context(
        goombuild::read_yaml::ContextfulErrorType::Message("fixed text"),
        "here ".to_string(),
    );
    assert_eq!(e2.message(), "here fixed text");
    let c = goombuild::read_yaml::ContentError::Other("bare");
    assert_eq!(c.message(), "bare");
}
