use goombuild::config::Config;
use goombuild::node::Node;
use goombuild::read_yaml::{ContentError, ContextfulErrorType};

fn map(entries: Vec<(&str, Node)>) -> Node {
    Node::Mapping(entries.into_iter().map(|(k, v)| (k.to_string(), v)).collect())
}

fn s(text: &str) -> Node {
    Node::Str(text.to_string())
}

#[test]
fn kind_cpp_sets_compiler_and_extension() {
    let doc = map(vec![("kind", s("cpp"))]);
    let config = Config::read(&doc).unwrap();
    assert_eq!(config.default_config.compiler.as_deref(), Some("g++"));
    assert_eq!(config.default_ext, "cpp");
}

#[test]
fn kind_c_sets_compiler_and_extension() {
    let doc = map(vec![("kind", s("c"))]);
    let config = Config::read(&doc).unwrap();
    assert_eq!(config.default_config.compiler.as_deref(), Some("gcc"));
    assert_eq!(config.default_ext, "c");
}

#[test]
fn kind_other_value_is_rejected() {
    let doc = map(vec![("kind", s("java"))]);
    let r = Config::read(&doc);
    assert!(matches!(
        r,
        Err(ContentError::Contextful(e))
            if matches!(e.err, ContextfulErrorType::InvalidEnumValue(_))
    ));
}

#[test]
fn explicit_compiler_wins_over_kind() {
    let doc = map(vec![("kind", s("cpp")), ("compiler", s("clang++"))]);
    let config = Config::read(&doc).unwrap();
    assert_eq!(config.default_config.compiler.as_deref(), Some("clang++"));
}

#[test]
fn source_missing_dir_is_missing_required_field() {
    let doc = map(vec![(
        "sources",
        Node::Sequence(vec![map(vec![("ext", s("c"))])]),
    )]);
    let r = Config::read(&doc);
    match r {
        Err(ContentError::Contextful(e)) => {
            assert!(matches!(e.err, ContextfulErrorType::MissingRequiredField(_)));
            assert!(e.message().contains("In source directory"));
        }
        _ => panic!("a mapping-form source without dir must be rejected"),
    }
}

#[test]
fn obj_dir_empty_resolves_to_dot() {
    let doc = map(vec![("obj_dir", s(""))]);
    let config = Config::read(&doc).unwrap();
    assert_eq!(config.obj_dir, ".");
}

#[test]
fn bin_dir_empty_resolves_to_dot() {
    let doc = map(vec![("bin_dir", s(""))]);
    let config = Config::read(&doc).unwrap();
    assert_eq!(config.bin_dir, ".");
}

#[test]
fn default_source_is_src() {
    let doc = map(vec![]);
    let config = Config::read(&doc).unwrap();
    assert_eq!(config.source.len(), 1);
    assert_eq!(config.source[0].dir, "src");
}

#[test]
fn sources_string_form_names_a_directory() {
    let doc = map(vec![("sources", Node::Sequence(vec![s("lib"), s("vendor")]))]);
    let config = Config::read(&doc).unwrap();
    assert_eq!(config.source.len(), 2);
    assert_eq!(config.source[0].dir, "lib");
    assert_eq!(config.source[1].dir, "vendor");
}

#[test]
fn sources_single_mapping_form() {
    let doc = map(vec![(
        "sources",
        map(vec![("dir", s("lib")), ("ext", s("c")), ("depth", Node::Int(2))]),
    )]);
    let config = Config::read(&doc).unwrap();
    assert_eq!(config.source.len(), 1);
    assert_eq!(config.source[0].dir, "lib");
    assert_eq!(config.source[0].ext.as_deref(), Some("c"));
    assert_eq!(config.source[0].depth, Some(2));
}

#[test]
fn legacy_shorthand_mutates_default_source() {
    let doc = map(vec![
        ("src_dir", s("code")),
        ("src_depth", Node::Int(1)),
        ("src_ext", s("cc")),
    ]);
    let config = Config::read(&doc).unwrap();
    assert_eq!(config.source.len(), 1);
    assert_eq!(config.source[0].dir, "code");
    assert_eq!(config.source[0].depth, Some(1));
    assert_eq!(config.source[0].ext.as_deref(), Some("cc"));
}

#[test]
fn src_ext_beside_sources_sets_default_extension() {
    let doc = map(vec![
        ("sources", Node::Sequence(vec![s("lib")])),
        ("src_ext", s("cc")),
    ]);
    let config = Config::read(&doc).unwrap();
    assert_eq!(config.default_ext, "cc");
}

#[test]
fn include_single_string_coerces_to_list() {
    let doc = map(vec![("include", s("inc"))]);
    let config = Config::read(&doc).unwrap();
    assert_eq!(config.include_dir, vec!["inc".to_string()]);
}

#[test]
fn included_source_joins_include_path_after_explicit_entries() {
    let doc = map(vec![
        ("sources", Node::Sequence(vec![map(vec![
            ("dir", s("lib")),
            ("included", Node::Bool(true)),
        ])])),
        ("include", Node::Sequence(vec![s("inc")])),
    ]);
    let config = Config::read(&doc).unwrap();
    assert_eq!(config.include_dir, vec!["inc".to_string(), "lib".to_string()]);
}

#[test]
fn keep_source_dir_names_true_preserves_per_directory_layout() {
    let doc = map(vec![("keep_source_dir_names", Node::Bool(true))]);
    let config = Config::read(&doc).unwrap();
    assert!(!config.flatten_output_layout);
}

#[test]
fn keep_source_dir_names_false_flattens_layout() {
    let doc = map(vec![("keep_source_dir_names", Node::Bool(false))]);
    let config = Config::read(&doc).unwrap();
    assert!(config.flatten_output_layout);
}

#[test]
fn wrong_type_error_carries_field_breadcrumb() {
    let doc = map(vec![("obj_dir", Node::Int(3))]);
    let r = Config::read(&doc);
    match r {
        Err(e) => assert_eq!(e.message(), "obj_dir should be a string (got integer)"),
        Ok(_) => panic!("an integer obj_dir must be rejected"),
    }
}

#[test]
fn target_without_name_is_rejected() {
    let doc = map(vec![("targets", Node::Sequence(vec![map(vec![("exec", s("x"))])]))]);
    let r = Config::read(&doc);
    assert!(matches!(
        r,
        Err(ContentError::Contextful(e))
            if matches!(e.err, ContextfulErrorType::MissingRequiredField(_))
    ));
}

#[test]
fn target_field_error_names_the_target() {
    let doc = map(vec![(
        "targets",
        Node::Sequence(vec![map(vec![("name", s("release")), ("compiler", Node::Int(1))])]),
    )]);
    let r = Config::read(&doc);
    match r {
        Err(e) => assert_eq!(
            e.message(),
            "in target release compiler should be a string (got integer)"
        ),
        Ok(_) => panic!("an integer compiler must be rejected"),
    }
}

#[test]
fn targets_are_read_in_order() {
    let doc = map(vec![(
        "targets",
        Node::Sequence(vec![
            map(vec![("name", s("debug")), ("compile_options", s("-g"))]),
            map(vec![("name", s("release")), ("exec", s("fast"))]),
        ]),
    )]);
    let config = Config::read(&doc).unwrap();
    assert_eq!(config.alt_targets.len(), 2);
    assert_eq!(config.alt_targets[0].name, "debug");
    assert_eq!(config.alt_targets[0].config.cflags.as_deref(), Some("-g"));
    assert_eq!(config.alt_targets[1].name, "release");
    assert_eq!(config.alt_targets[1].config.exec_name.as_deref(), Some("fast"));
}

#[test]
fn libs_string_or_array() {
    let doc = map(vec![("libs", s("m"))]);
    let config = Config::read(&doc).unwrap();
    assert_eq!(config.default_config.libs, Some(vec!["m".to_string()]));

    let doc2 = map(vec![("libs", Node::Sequence(vec![s("m"), s("pthread")]))]);
    let config2 = Config::read(&doc2).unwrap();
    assert_eq!(
        config2.default_config.libs,
        Some(vec!["m".to_string(), "pthread".to_string()])
    );
}

#[test]
fn link_options_wins_over_ldflags() {
    let doc = map(vec![("link_options", s("-static")), ("ldflags", s("-s"))]);
    let config = Config::read(&doc).unwrap();
    assert_eq!(config.default_config.ldflags.as_deref(), Some("-static"));
}

#[test]
fn output_file_dashed_spelling_wins() {
    let doc = map(vec![("output-file", s("A")), ("output_file", s("B"))]);
    let config = Config::read(&doc).unwrap();
    assert_eq!(config.output_file.as_deref(), Some("A"));

    let doc2 = map(vec![("output_file", s("B"))]);
    let config2 = Config::read(&doc2).unwrap();
    assert_eq!(config2.output_file.as_deref(), Some("B"));
}

#[test]
fn non_mapping_root_is_rejected() {
    let doc = s("just a string");
    let r = Config::read(&doc);
    match r {
        Err(e) => assert_eq!(
            e.message(),
            "Config file should be a property list (got string)"
        ),
        Ok(_) => panic!("a non-mapping root must be rejected"),
    }
}

#[test]
fn empty_sources_list_keeps_default_source() {
    let doc = map(vec![("sources", Node::Sequence(vec![]))]);
    let config = Config::read(&doc).unwrap();
    assert_eq!(config.source.len(), 1);
    assert_eq!(config.source[0].dir, "src");
}
