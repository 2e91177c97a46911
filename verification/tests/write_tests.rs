use goombuild::config::Config;
use goombuild::node::Node;
use goombuild::override_yaml::Overrides;

fn map(entries: Vec<(&str, Node)>) -> Node {
    Node::Mapping(entries.into_iter().map(|(k, v)| (k.to_string(), v)).collect())
}

fn s(text: &str) -> Node {
    Node::Str(text.to_string())
}

#[test]
fn per_directory_layout_keeps_colliding_objects_apart() {
    let doc = map(vec![
        ("kind", s("cpp")),
        ("sources", Node::Sequence(vec![s("a"), s("b")])),
    ]);
    let config = Config::read(&doc).unwrap();
    assert!(!config.flatten_output_layout);
    let text = config.write();
    assert!(text.contains("$(patsubst a/%,$(OBJ_DIR)/a/%,$(_OBJS))"));
    assert!(text.contains("$(patsubst b/%,$(OBJ_DIR)/b/%,$(_OBJS))"));
    assert!(text.contains("$(OBJ_DIR)/a/%.o: a/%.cpp"));
    assert!(text.contains("$(OBJ_DIR)/b/%.o: b/%.cpp"));
}

#[test]
fn flat_layout_emits_one_rule_per_extension() {
    let doc = map(vec![
        ("kind", s("cpp")),
        ("sources", Node::Sequence(vec![s("a"), s("b"), s("c")])),
        ("keep_source_dir_names", Node::Bool(false)),
    ]);
    let config = Config::read(&doc).unwrap();
    assert!(config.flatten_output_layout);
    let text = config.write();
    assert_eq!(text.matches("$(OBJ_DIR)/%.o: %.cpp\n").count(), 1);
}

#[test]
fn flat_layout_emits_one_rule_per_distinct_extension() {
    let doc = map(vec![
        ("kind", s("cpp")),
        ("sources", Node::Sequence(vec![
            s("a"),
            map(vec![("dir", s("vendor")), ("ext", s("c"))]),
            s("b"),
        ])),
        ("keep_source_dir_names", Node::Bool(false)),
    ]);
    let config = Config::read(&doc).unwrap();
    let text = config.write();
    assert_eq!(text.matches("$(OBJ_DIR)/%.o: %.cpp\n").count(), 1);
    assert_eq!(text.matches("$(OBJ_DIR)/%.o: %.c\n").count(), 1);
}

#[test]
fn target_without_overrides_depends_on_default_goal() {
    let doc = map(vec![(
        "targets",
        Node::Sequence(vec![map(vec![("name", s("quick"))])]),
    )]);
    let config = Config::read(&doc).unwrap();
    let text = config.write();
    assert!(text.contains("\nquick: all\n"));
    assert!(!text.contains("$(BIN_DIR)/quick"));
    assert!(!text.contains("quick: CC="));
}

#[test]
fn target_with_exec_gets_dedicated_link_rule() {
    let doc = map(vec![(
        "targets",
        Node::Sequence(vec![map(vec![("name", s("release")), ("exec", s("fast"))])]),
    )]);
    let config = Config::read(&doc).unwrap();
    let text = config.write();
    assert!(text.contains("$(BIN_DIR)/fast: $(OBJS)"));
    assert!(text.contains("\nrelease: fast\n"));
}

#[test]
fn end_to_end_document_synthesizes_expected_rules() {
    let doc = map(vec![
        ("kind", s("cpp")),
        ("sources", Node::Sequence(vec![
            map(vec![("dir", s("src"))]),
            map(vec![("dir", s("vendor")), ("ext", s("c"))]),
        ])),
        ("include", Node::Sequence(vec![s("include")])),
        ("targets", Node::Sequence(vec![map(vec![
            ("name", s("debug")),
            ("compile_options", s("-g")),
        ])])),
    ]);
    let config = Config::read(&doc).unwrap();
    let text = config.write();
    assert!(text.contains("CC=g++\n"));
    assert!(text.contains("_SRC= $(shell find src -name \"*.cpp\")"));
    assert!(text.contains("_SRC= $(shell find vendor -name \"*.c\")"));
    assert!(text.contains("INCLUDE=-Iinclude \n"));
    assert!(text.contains("\ndebug: CFLAGS=-g\n"));
    assert!(text.contains("\ndebug: all\n"));
    assert!(text.contains("vpath %.cpp src\n"));
    assert!(text.contains("vpath %.c vendor\n"));
}

#[test]
fn resolving_twice_gives_byte_identical_output() {
    let build = || {
        let mut doc = map(vec![
            ("kind", s("cpp")),
            ("sources", Node::Sequence(vec![s("src"), s("vendor")])),
            ("targets", Node::Sequence(vec![map(vec![("name", s("debug"))])])),
        ]);
        let mut ovs = Overrides::new();
        ovs.add("obj_dir=build".to_string());
        ovs.add("targets.+.name=release".to_string());
        ovs.apply(&mut doc).unwrap();
        Config::read(&doc).unwrap().write()
    };
    let first = build();
    let second = build();
    assert_eq!(first, second);
}

#[test]
fn depth_bound_appears_as_maxdepth() {
    let doc = map(vec![(
        "sources",
        Node::Sequence(vec![map(vec![("dir", s("src")), ("depth", Node::Int(3))])]),
    )]);
    let config = Config::read(&doc).unwrap();
    let text = config.write();
    assert!(text.contains("$(shell find src -maxdepth 3 -name"));
}

#[test]
fn zero_depth_means_unbounded() {
    let doc = map(vec![(
        "sources",
        Node::Sequence(vec![map(vec![("dir", s("src")), ("depth", Node::Int(0))])]),
    )]);
    let config = Config::read(&doc).unwrap();
    let text = config.write();
    assert!(!text.contains("-maxdepth"));
}

#[test]
fn large_depth_is_formatted_in_decimal() {
    let doc = map(vec![(
        "sources",
        Node::Sequence(vec![map(vec![("dir", s("src")), ("depth", Node::Int(12045))])]),
    )]);
    let config = Config::read(&doc).unwrap();
    let text = config.write();
    assert!(text.contains(" -maxdepth 12045 "));
}

#[test]
fn libs_become_linker_flags() {
    let doc = map(vec![("libs", Node::Sequence(vec![s("m"), s("pthread")]))]);
    let config = Config::read(&doc).unwrap();
    let text = config.write();
    assert!(text.contains("LIBS=-lm -lpthread \n"));
}

#[test]
fn variables_resolve_against_builtin_fallbacks() {
    let doc = map(vec![]);
    let config = Config::read(&doc).unwrap();
    let text = config.write();
    assert!(text.starts_with("CC=gcc\nEXEC=main\nOBJ_DIR=obj\nBIN_DIR=.\nCFLAGS=\nLDFLAGS=\n"));
    assert!(text.contains("all: start $(EXEC)"));
    assert!(text.contains("$(BIN_DIR)/$(EXEC): $(OBJS)"));
    assert!(text.contains("mkdir -p $(OBJ_DIR)"));
}

#[test]
fn target_variable_assignments_only_for_overridden_fields() {
    let doc = map(vec![(
        "targets",
        Node::Sequence(vec![map(vec![
            ("name", s("fast")),
            ("link_options", s("-O3")),
            ("libs", Node::Sequence(vec![s("m")])),
        ])]),
    )]);
    let config = Config::read(&doc).unwrap();
    let text = config.write();
    assert!(text.contains("\nfast: LDFLAGS=-O3\n"));
    assert!(text.contains("\nfast: LIBS=-lm \n"));
    assert!(!text.contains("fast: CC="));
    assert!(!text.contains("fast: CFLAGS="));
    assert!(text.contains("\nfast: all\n"));
}
