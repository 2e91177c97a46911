//! The configuration reader: walks the overridden document tree and
//! populates a `Config`, applying precedence rules in a fixed order.

use vstd::prelude::*;

use crate::config::{
    default_config_v, default_source_dir_v, deep_sources, deep_targets, empty_build_config_v,
    BuildConfig, BuildConfigV, Config, ConfigV, SourceDir, SourceDirV, Target, TargetV,
};
use crate::node::{
    deep_entries, deep_list, deep_strs, lemma_deep_entries, lemma_deep_list, lookup_v, str_eq,
    Node, NodeV,
};
use crate::read_yaml::{
    add_context_v, array_or_string_into_vec, get_array, get_array_v, get_bool, get_bool_v,
    get_int, get_int_v, get_str, get_str_v, handle_wrong_type, handle_wrong_type_v, strings_v,
    try_map_option, ContentError, ContentErrorV, ContextfulError, ContextfulErrorType,
    ContextfulErrorTypeV, ContextfulErrorV,
};

verus! {

broadcast use vstd::std_specs::vec::group_vec_axioms, vstd::seq::group_seq_axioms;

/// The entries of a mapping node, viewed.
pub type EntriesV = Seq<(Seq<char>, NodeV)>;

/// An error kind with an empty breadcrumb, as the reader raises it.
pub open spec fn reader_err_v(kind: ContextfulErrorTypeV) -> ContextfulErrorV {
    ContextfulErrorV { err: kind, context: Seq::empty() }
}

/// A directory name under `key`: the empty string normalizes to `"."`.
pub open spec fn get_dir_name_v(h: EntriesV, key: Seq<char>) -> Result<
    Option<Seq<char>>,
    ContextfulErrorV,
> {
    match get_str_v(h, key) {
        Err(e) => Err(e),
        Ok(None) => Ok(None),
        Ok(Some(s)) => Ok(Some(if s.len() == 0 { "."@ } else { s })),
    }
}

/// A directory name under `key`: the empty string normalizes to `"."`.
pub fn get_dir_name(data: &Vec<(String, Node)>, key: &'static str) -> (r: Result<
    Option<String>,
    ContextfulError,
>)
    ensures
        match r {
            Ok(Some(s)) => get_dir_name_v(deep_entries(data@), key@) == Ok::<_, ContextfulErrorV>(
                Some(s@),
            ),
            Ok(None) => get_dir_name_v(deep_entries(data@), key@) == Ok::<
                Option<Seq<char>>,
                ContextfulErrorV,
            >(None),
            Err(e) => get_dir_name_v(deep_entries(data@), key@) == Err::<
                Option<Seq<char>>,
                ContextfulErrorV,
            >(e.deep()),
        },
{
    match get_str(data, key) {
        Err(e) => Err(e),
        Ok(None) => Ok(None),
        Ok(Some(s)) => {
            if s.as_str().unicode_len() == 0 {
                Ok(Some(".".to_owned()))
            } else {
                Ok(Some(s))
            }
        },
    }
}

/// Read the optional fields of a source-directory mapping over `base`:
/// `dir` is required, `ext` and `depth` overwrite, `exclude` and
/// `included` apply only when present.
pub open spec fn read_source_hash_v(base: SourceDirV, h: EntriesV) -> Result<
    SourceDirV,
    ContextfulErrorV,
> {
    match get_str_v(h, "dir"@) {
        Err(e) => Err(e),
        Ok(None) => Err(
            add_context_v(
                reader_err_v(ContextfulErrorTypeV::MissingRequiredField("dir"@)),
                "In source directory"@,
            ),
        ),
        Ok(Some(d)) => match get_str_v(h, "ext"@) {
            Err(e) => Err(e),
            Ok(ext) => match get_int_v(h, "depth"@) {
                Err(e) => Err(e),
                Ok(depth) => match (match lookup_v(h, "exclude"@) {
                    Some(y) => match strings_v(y) {
                        Err(e) => Err(e),
                        Ok(xs) => Ok(xs),
                    },
                    None => Ok(base.exclude),
                }) {
                    Err(e) => Err(e),
                    Ok(excl) => match get_bool_v(h, "included"@) {
                        Err(e) => Err(e),
                        Ok(inc) => Ok(
                            SourceDirV {
                                dir: d,
                                ext,
                                depth,
                                exclude: excl,
                                included: match inc {
                                    Some(b) => b,
                                    None => base.included,
                                },
                            },
                        ),
                    },
                },
            },
        },
    }
}

/// Read one `sources` entry: a string names a directory, a mapping
/// supplies the fields, anything else is an error.
pub open spec fn read_source_v(n: NodeV) -> Result<SourceDirV, ContextfulErrorV> {
    match n {
        NodeV::Str(s) => Ok(SourceDirV { dir: s, ..default_source_dir_v() }),
        NodeV::Mapping(h) => read_source_hash_v(default_source_dir_v(), h),
        _ => Err(handle_wrong_type_v(n, "string or object"@)),
    }
}

/// Read a list of `sources` entries, element by element: the first bad
/// element is the error.
pub open spec fn read_sources_list_v(items: Seq<NodeV>) -> Result<Seq<SourceDirV>, ContextfulErrorV>
    decreases items.len(),
{
    if items.len() == 0 {
        Ok(Seq::empty())
    } else {
        match read_source_v(items[0]) {
            Err(e) => Err(e),
            Ok(sd) => match read_sources_list_v(items.drop_first()) {
                Err(e) => Err(e),
                Ok(rest) => Ok(seq![sd] + rest),
            },
        }
    }
}

/// A forward scan settles `read_sources_list_v`.
pub proof fn lemma_read_sources_at(items: Seq<NodeV>, i: int)
    requires
        0 <= i <= items.len(),
        forall|j: int| 0 <= j < i ==> read_source_v(#[trigger] items[j]) is Ok,
    ensures
        i == items.len() ==> read_sources_list_v(items) == Ok::<_, ContextfulErrorV>(
            Seq::new(items.len(), |j: int| read_source_v(items[j])->Ok_0),
        ),
        i < items.len() && read_source_v(items[i]) is Err ==> read_sources_list_v(items) == Err::<
            Seq<SourceDirV>,
            _,
        >(read_source_v(items[i])->Err_0),
    decreases i,
{
    if items.len() == 0 {
        assert(Seq::new(items.len(), |j: int| read_source_v(items[j])->Ok_0) =~= Seq::empty());
    } else if i == 0 {
    } else {
        lemma_read_sources_at(items.drop_first(), i - 1);
        if i == items.len() {
            assert(seq![read_source_v(items[0])->Ok_0] + Seq::new(
                items.drop_first().len(),
                |j: int| read_source_v(items.drop_first()[j])->Ok_0,
            ) =~= Seq::new(items.len(), |j: int| read_source_v(items[j])->Ok_0));
        }
    }
}

/// Helper for `Option` layering: a present value wins over the base.
pub open spec fn or_keep(cur: Option<Seq<char>>, new: Option<Seq<char>>) -> Option<Seq<char>> {
    match new {
        Some(s) => Some(s),
        None => cur,
    }
}

/// The first present value of two options.
pub open spec fn or_opt(a: Option<Seq<char>>, b: Option<Seq<char>>) -> Option<Seq<char>> {
    match a {
        Some(s) => Some(s),
        None => b,
    }
}

/// Read one configuration layer over `base`: each field is set only
/// when its key is present; for the flags the `*_options` spelling wins
/// over the short one.
pub open spec fn read_build_config_v(base: BuildConfigV, h: EntriesV) -> Result<
    BuildConfigV,
    ContextfulErrorV,
> {
    match get_str_v(h, "exec"@) {
        Err(e) => Err(e),
        Ok(exec0) => match (match lookup_v(h, "libs"@) {
            Some(y) => match strings_v(y) {
                Err(e) => Err(e),
                Ok(xs) => Ok(Some(xs)),
            },
            None => Ok(None),
        }) {
            Err(e) => Err(e),
            Ok(libs0) => match get_str_v(h, "link_options"@) {
                Err(e) => Err(e),
                Ok(lo) => match get_str_v(h, "ldflags"@) {
                    Err(e) => Err(e),
                    Ok(ld) => match get_str_v(h, "compile_options"@) {
                        Err(e) => Err(e),
                        Ok(co) => match get_str_v(h, "cflags"@) {
                            Err(e) => Err(e),
                            Ok(cf) => match get_str_v(h, "compiler"@) {
                                Err(e) => Err(e),
                                Ok(cp) => Ok(
                                    BuildConfigV {
                                        exec_name: or_keep(base.exec_name, exec0),
                                        libs: match libs0 {
                                            Some(xs) => Some(xs),
                                            None => base.libs,
                                        },
                                        ldflags: or_keep(base.ldflags, or_opt(lo, ld)),
                                        cflags: or_keep(base.cflags, or_opt(co, cf)),
                                        compiler: or_keep(base.compiler, cp),
                                    },
                                ),
                            },
                        },
                    },
                },
            },
        },
    }
}

/// Read one target: `name` is required, the layer fields are read over
/// an empty layer, and errors carry the target's name as context.
pub open spec fn read_target_v(h: EntriesV) -> Result<TargetV, ContentErrorV> {
    match get_str_v(h, "name"@) {
        Err(e) => Err(ContentErrorV::Contextful(e)),
        Ok(None) => Err(
            ContentErrorV::Contextful(
                reader_err_v(ContextfulErrorTypeV::MissingRequiredField("name"@)),
            ),
        ),
        Ok(Some(name)) => match read_build_config_v(empty_build_config_v(), h) {
            Err(e) => Err(ContentErrorV::Contextful(add_context_v(e, "in target "@ + name))),
            Ok(bc) => Ok(TargetV { name, config: bc }),
        },
    }
}

/// Read one element of the `targets` list: it must be a mapping.
pub open spec fn read_target_item_v(n: NodeV) -> Result<TargetV, ContentErrorV> {
    match n {
        NodeV::Mapping(h) => read_target_v(h),
        _ => Err(
            ContentErrorV::Contextful(
                add_context_v(handle_wrong_type_v(n, "table"@), "targets property"@),
            ),
        ),
    }
}

/// Read the `targets` list, element by element.
pub open spec fn read_targets_list_v(items: Seq<NodeV>) -> Result<Seq<TargetV>, ContentErrorV>
    decreases items.len(),
{
    if items.len() == 0 {
        Ok(Seq::empty())
    } else {
        match read_target_item_v(items[0]) {
            Err(e) => Err(e),
            Ok(t) => match read_targets_list_v(items.drop_first()) {
                Err(e) => Err(e),
                Ok(rest) => Ok(seq![t] + rest),
            },
        }
    }
}

/// A forward scan settles `read_targets_list_v`.
pub proof fn lemma_read_targets_at(items: Seq<NodeV>, i: int)
    requires
        0 <= i <= items.len(),
        forall|j: int| 0 <= j < i ==> read_target_item_v(#[trigger] items[j]) is Ok,
    ensures
        i == items.len() ==> read_targets_list_v(items) == Ok::<_, ContentErrorV>(
            Seq::new(items.len(), |j: int| read_target_item_v(items[j])->Ok_0),
        ),
        i < items.len() && read_target_item_v(items[i]) is Err ==> read_targets_list_v(items)
            == Err::<Seq<TargetV>, _>(read_target_item_v(items[i])->Err_0),
    decreases i,
{
    if items.len() == 0 {
        assert(Seq::new(items.len(), |j: int| read_target_item_v(items[j])->Ok_0)
            =~= Seq::empty());
    } else if i == 0 {
    } else {
        lemma_read_targets_at(items.drop_first(), i - 1);
        if i == items.len() {
            assert(seq![read_target_item_v(items[0])->Ok_0] + Seq::new(
                items.drop_first().len(),
                |j: int| read_target_item_v(items.drop_first()[j])->Ok_0,
            ) =~= Seq::new(items.len(), |j: int| read_target_item_v(items[j])->Ok_0));
        }
    }
}

/// The paths of the source directories marked as contributing to the
/// include path, in list order.
pub open spec fn included_dirs_v(srcs: Seq<SourceDirV>) -> Seq<Seq<char>>
    decreases srcs.len(),
{
    if srcs.len() == 0 {
        Seq::empty()
    } else {
        (if srcs[0].included {
            seq![srcs[0].dir]
        } else {
            Seq::empty()
        }) + included_dirs_v(srcs.drop_first())
    }
}

/// `included_dirs_v` distributes over concatenation.
pub proof fn lemma_included_dirs_append(a: Seq<SourceDirV>, b: Seq<SourceDirV>)
    ensures
        included_dirs_v(a + b) == included_dirs_v(a) + included_dirs_v(b),
    decreases a.len(),
{
    if a.len() == 0 {
        assert(a + b =~= b);
        assert(included_dirs_v(a) + included_dirs_v(b) =~= included_dirs_v(b));
    } else {
        lemma_included_dirs_append(a.drop_first(), b);
        assert((a + b).drop_first() =~= a.drop_first() + b);
        assert((if a[0].included {
            seq![a[0].dir]
        } else {
            Seq::<Seq<char>>::empty()
        }) + (included_dirs_v(a.drop_first()) + included_dirs_v(b)) =~= ((if a[0].included {
            seq![a[0].dir]
        } else {
            Seq::<Seq<char>>::empty()
        }) + included_dirs_v(a.drop_first())) + included_dirs_v(b));
    }
}


/// Step 1: `kind` sets the default extension and the default layer's
/// compiler to fixed per-kind values; any other value is an error.
pub open spec fn step_kind_v(c: ConfigV, h: EntriesV) -> Result<ConfigV, ContentErrorV> {
    match get_str_v(h, "kind"@) {
        Err(e) => Err(ContentErrorV::Contextful(e)),
        Ok(None) => Ok(c),
        Ok(Some(s)) => if s == "cpp"@ {
            Ok(
                ConfigV {
                    default_ext: "cpp"@,
                    default_config: BuildConfigV { compiler: Some("g++"@), ..c.default_config },
                    ..c
                },
            )
        } else if s == "c"@ {
            Ok(
                ConfigV {
                    default_ext: "c"@,
                    default_config: BuildConfigV { compiler: Some("gcc"@), ..c.default_config },
                    ..c
                },
            )
        } else {
            Err(
                ContentErrorV::Contextful(
                    reader_err_v(ContextfulErrorTypeV::InvalidEnumValue("kind"@)),
                ),
            )
        },
    }
}

/// Step 2 without a `sources` key: the legacy single-source shorthand
/// mutates the synthetic default entry in place.
pub open spec fn step_legacy_source_v(c: ConfigV, h: EntriesV) -> Result<ConfigV, ContentErrorV> {
    match get_dir_name_v(h, "src_dir"@) {
        Err(e) => Err(ContentErrorV::Contextful(e)),
        Ok(dopt) => {
            let s1 = match dopt {
                Some(d) => SourceDirV { dir: d, ..c.source[0] },
                None => c.source[0],
            };
            match (match lookup_v(h, "src_exclude"@) {
                Some(y) => match strings_v(y) {
                    Err(e) => Err(e),
                    Ok(xs) => Ok(SourceDirV { exclude: xs, ..s1 }),
                },
                None => Ok(s1),
            }) {
                Err(e) => Err(ContentErrorV::Contextful(e)),
                Ok(s2) => match get_int_v(h, "src_depth"@) {
                    Err(e) => Err(ContentErrorV::Contextful(e)),
                    Ok(dep) => match get_str_v(h, "src_ext"@) {
                        Err(e) => Err(ContentErrorV::Contextful(e)),
                        Ok(ext) => Ok(
                            ConfigV {
                                source: c.source.update(
                                    0,
                                    SourceDirV { depth: dep, ext, ..s2 },
                                ),
                                ..c
                            },
                        ),
                    },
                },
            }
        },
    }
}

/// Step 2 with a `sources` key: the entries replace the synthetic
/// default list entirely (an empty list keeps the default), and the
/// top-level `src_ext` and `src_exclude` keys then apply config-wide.
pub open spec fn step_sources_present_v(c: ConfigV, h: EntriesV, y: NodeV) -> Result<
    ConfigV,
    ContentErrorV,
> {
    match (match y {
        NodeV::Sequence(items) => if items.len() == 0 {
            Ok(seq![default_source_dir_v()])
        } else {
            read_sources_list_v(items)
        },
        _ => match read_source_v(y) {
            Err(e) => Err(e),
            Ok(sd) => Ok(seq![sd]),
        },
    }) {
        Err(e) => Err(ContentErrorV::Contextful(e)),
        Ok(srcs) => match get_str_v(h, "src_ext"@) {
            Err(e) => Err(ContentErrorV::Contextful(e)),
            Ok(eopt) => match (match lookup_v(h, "src_exclude"@) {
                Some(y2) => match strings_v(y2) {
                    Err(e) => Err(e),
                    Ok(xs) => Ok(xs),
                },
                None => Ok(c.exclude_dir),
            }) {
                Err(e) => Err(ContentErrorV::Contextful(e)),
                Ok(excl) => Ok(
                    ConfigV {
                        source: srcs,
                        default_ext: match eopt {
                            Some(e) => e,
                            None => c.default_ext,
                        },
                        exclude_dir: excl,
                        ..c
                    },
                ),
            },
        },
    }
}

/// Step 2: the source list.
pub open spec fn step_sources_v(c: ConfigV, h: EntriesV) -> Result<ConfigV, ContentErrorV> {
    match lookup_v(h, "sources"@) {
        None => step_legacy_source_v(c, h),
        Some(y) => step_sources_present_v(c, h, y),
    }
}

/// Step 3: `include` replaces the include path.
pub open spec fn step_include_v(c: ConfigV, h: EntriesV) -> Result<ConfigV, ContentErrorV> {
    match lookup_v(h, "include"@) {
        None => Ok(c),
        Some(y) => match strings_v(y) {
            Err(e) => Err(ContentErrorV::Contextful(e)),
            Ok(xs) => Ok(ConfigV { include_dir: xs, ..c }),
        },
    }
}

/// Step 4: source directories marked as included join the include path,
/// after the explicit entries.
pub open spec fn step_included_v(c: ConfigV) -> ConfigV {
    ConfigV { include_dir: c.include_dir + included_dirs_v(c.source), ..c }
}

/// Step 5: `keep_source_dir_names` sets the output layout; the naming
/// is inverted, `true` preserves the per-directory layout.
pub open spec fn step_flatten_v(c: ConfigV, h: EntriesV) -> Result<ConfigV, ContentErrorV> {
    match get_bool_v(h, "keep_source_dir_names"@) {
        Err(e) => Err(ContentErrorV::Contextful(e)),
        Ok(None) => Ok(c),
        Ok(Some(b)) => Ok(ConfigV { flatten_output_layout: !b, ..c }),
    }
}

/// Step 6: the object and binary directories, empty normalized to `"."`.
pub open spec fn step_dirs_v(c: ConfigV, h: EntriesV) -> Result<ConfigV, ContentErrorV> {
    match get_dir_name_v(h, "obj_dir"@) {
        Err(e) => Err(ContentErrorV::Contextful(e)),
        Ok(o) => match get_dir_name_v(h, "bin_dir"@) {
            Err(e) => Err(ContentErrorV::Contextful(e)),
            Ok(b) => Ok(
                ConfigV {
                    obj_dir: match o {
                        Some(d) => d,
                        None => c.obj_dir,
                    },
                    bin_dir: match b {
                        Some(d) => d,
                        None => c.bin_dir,
                    },
                    ..c
                },
            ),
        },
    }
}

/// Step 7: the default layer's own fields.
pub open spec fn step_defaults_v(c: ConfigV, h: EntriesV) -> Result<ConfigV, ContentErrorV> {
    match read_build_config_v(c.default_config, h) {
        Err(e) => Err(ContentErrorV::Contextful(add_context_v(e, "In default config"@))),
        Ok(bc) => Ok(ConfigV { default_config: bc, ..c }),
    }
}

/// Step 8: the targets.
pub open spec fn step_targets_v(c: ConfigV, h: EntriesV) -> Result<ConfigV, ContentErrorV> {
    match get_array_v(h, "targets"@) {
        Err(e) => Err(ContentErrorV::Contextful(e)),
        Ok(None) => Ok(c),
        Ok(Some(items)) => match read_targets_list_v(items) {
            Err(e) => Err(e),
            Ok(ts) => Ok(ConfigV { alt_targets: c.alt_targets + ts, ..c }),
        },
    }
}

/// Step 9: the output path, `output-file` winning over `output_file`.
pub open spec fn step_output_v(c: ConfigV, h: EntriesV) -> Result<ConfigV, ContentErrorV> {
    match get_str_v(h, "output-file"@) {
        Err(e) => Err(ContentErrorV::Contextful(e)),
        Ok(a) => match get_str_v(h, "output_file"@) {
            Err(e) => Err(ContentErrorV::Contextful(e)),
            Ok(b) => Ok(ConfigV { output_file: or_opt(a, b), ..c }),
        },
    }
}

/// Read a whole configuration from the entries of the root mapping, in
/// the fixed precedence order.
pub open spec fn read_config_hash_v(h: EntriesV) -> Result<ConfigV, ContentErrorV> {
    match step_kind_v(default_config_v(), h) {
        Err(e) => Err(e),
        Ok(c) => match step_sources_v(c, h) {
            Err(e) => Err(e),
            Ok(c) => match step_include_v(c, h) {
                Err(e) => Err(e),
                Ok(c) => match step_flatten_v(step_included_v(c), h) {
                    Err(e) => Err(e),
                    Ok(c) => match step_dirs_v(c, h) {
                        Err(e) => Err(e),
                        Ok(c) => match step_defaults_v(c, h) {
                            Err(e) => Err(e),
                            Ok(c) => match step_targets_v(c, h) {
                                Err(e) => Err(e),
                                Ok(c) => step_output_v(c, h),
                            },
                        },
                    },
                },
            },
        },
    }
}

/// Read a whole configuration from a document tree, which must be a
/// mapping at its root.
pub open spec fn read_config_v(doc: NodeV) -> Result<ConfigV, ContentErrorV> {
    match doc {
        NodeV::Mapping(h) => read_config_hash_v(h),
        _ => Err(
            ContentErrorV::Contextful(
                add_context_v(handle_wrong_type_v(doc, "property list"@), "Config file"@),
            ),
        ),
    }
}


impl SourceDir {
    /// A string entry names the directory and nothing else.
    pub fn read_from_str(&mut self, s: &str)
        ensures
            final(self).deep() == (SourceDirV { dir: s@, ..old(self).deep() }),
    {
        self.dir = s.to_owned();
    }

    /// Read the mapping form of a source entry over `self`.
    pub fn read_from_hash(&mut self, hash: &Vec<(String, Node)>) -> (r: Result<
        (),
        ContextfulError,
    >)
        ensures
            match read_source_hash_v(old(self).deep(), deep_entries(hash@)) {
                Ok(sd) => r is Ok && final(self).deep() == sd,
                Err(e) => r matches Err(err) && err.deep() == e,
            },
    {
        match get_str(hash, "dir") {
            Err(e) => {
                return Err(e);
            },
            Ok(None) => {
                return Err(
                    ContextfulError::_with_context(
                        ContextfulErrorType::MissingRequiredField("dir"),
                        String::new(),
                    ).add_context("In source directory".to_owned()),
                );
            },
            Ok(Some(d)) => {
                self.dir = d;
            },
        }
        match get_str(hash, "ext") {
            Err(e) => {
                return Err(e);
            },
            Ok(v) => {
                self.ext = v;
            },
        }
        match get_int(hash, "depth") {
            Err(e) => {
                return Err(e);
            },
            Ok(v) => {
                self.depth = v;
            },
        }
        match crate::node::get_data(hash, "exclude") {
            Some(y) => match array_or_string_into_vec(y) {
                Ok(xs) => {
                    self.exclude = xs;
                },
                Err(e) => {
                    return Err(e);
                },
            },
            None => {},
        }
        match get_bool(hash, "included") {
            Err(e) => {
                return Err(e);
            },
            Ok(Some(b)) => {
                self.included = b;
            },
            Ok(None) => {},
        }
        Ok(())
    }

    /// Read one `sources` entry in either of its two forms.
    pub fn read_from_hash_or_string(yaml: &Node) -> (r: Result<SourceDir, ContextfulError>)
        ensures
            match read_source_v(yaml.deep()) {
                Ok(sd) => r matches Ok(src) && src.deep() == sd,
                Err(e) => r matches Err(err) && err.deep() == e,
            },
    {
        let mut source = SourceDir::new();
        match yaml {
            Node::Str(s) => {
                source.read_from_str(s.as_str());
                Ok(source)
            },
            Node::Mapping(h) => match source.read_from_hash(h) {
                Ok(_) => Ok(source),
                Err(e) => Err(e),
            },
            val => Err(handle_wrong_type(val, "string or object")),
        }
    }
}

impl BuildConfig {
    /// Read the layer's fields over `self`: only present keys change a
    /// field, and the `*_options` spelling wins over the short one.
    pub fn read(&mut self, data: &Vec<(String, Node)>) -> (r: Result<(), ContextfulError>)
        ensures
            match read_build_config_v(old(self).deep(), deep_entries(data@)) {
                Ok(bc) => r is Ok && final(self).deep() == bc,
                Err(e) => r matches Err(err) && err.deep() == e,
            },
    {
        match get_str(data, "exec") {
            Err(e) => {
                return Err(e);
            },
            Ok(Some(s)) => {
                self.exec_name = Some(s);
            },
            Ok(None) => {},
        }
        match try_map_option(crate::node::get_data(data, "libs"), array_or_string_into_vec) {
            Err(e) => {
                return Err(e);
            },
            Ok(Some(v)) => {
                self.libs = Some(v);
            },
            Ok(None) => {},
        }
        match get_str(data, "link_options") {
            Err(e) => {
                return Err(e);
            },
            Ok(lo) => match get_str(data, "ldflags") {
                Err(e) => {
                    return Err(e);
                },
                Ok(ld) => match (match lo {
                    Some(x) => Some(x),
                    None => ld,
                }) {
                    Some(x) => {
                        self.ldflags = Some(x);
                    },
                    None => {},
                },
            },
        }
        match get_str(data, "compile_options") {
            Err(e) => {
                return Err(e);
            },
            Ok(co) => match get_str(data, "cflags") {
                Err(e) => {
                    return Err(e);
                },
                Ok(cf) => match (match co {
                    Some(x) => Some(x),
                    None => cf,
                }) {
                    Some(x) => {
                        self.cflags = Some(x);
                    },
                    None => {},
                },
            },
        }
        match get_str(data, "compiler") {
            Err(e) => {
                return Err(e);
            },
            Ok(Some(s)) => {
                self.compiler = Some(s);
            },
            Ok(None) => {},
        }
        Ok(())
    }
}

impl Target {
    /// Read one target from its mapping: `name` is required, the layer
    /// fields are optional, and errors name the target.
    pub fn read(data: &Vec<(String, Node)>) -> (r: Result<Target, ContentError>)
        ensures
            match read_target_v(deep_entries(data@)) {
                Ok(tv) => r matches Ok(t) && t.deep() == tv,
                Err(e) => r matches Err(err) && err.deep() == e,
            },
    {
        let name = match get_str(data, "name") {
            Err(e) => {
                return Err(ContentError::Contextful(e));
            },
            Ok(None) => {
                return Err(
                    ContentError::Contextful(
                        ContextfulError::_with_context(
                            ContextfulErrorType::MissingRequiredField("name"),
                            String::new(),
                        ),
                    ),
                );
            },
            Ok(Some(s)) => s,
        };
        let mut target = Target::new(name.clone());
        match target.config.read(data) {
            Ok(_) => Ok(target),
            Err(e) => {
                let mut ctx = "in target ".to_owned();
                ctx.append(name.as_str());
                Err(ContentError::Contextful(e.add_context(ctx)))
            },
        }
    }
}


/// Step 1 of the read: `kind`.
fn apply_step_kind(config: Config, hash: &Vec<(String, Node)>) -> (r: Result<Config, ContentError>)
    ensures
        match step_kind_v(config.deep(), deep_entries(hash@)) {
            Ok(cv) => (r matches Ok(c) && c.deep() == cv && c.source@ == config.source@),
            Err(e) => r matches Err(err) && err.deep() == e,
        },
{
    let mut config = config;
    match get_str(hash, "kind") {
        Err(e) => {
            return Err(ContentError::Contextful(e));
        },
        Ok(Some(s)) => {
            if str_eq(s.as_str(), "cpp") {
                config.default_config.compiler = Some("g++".to_owned());
                config.default_ext = "cpp".to_owned();
            } else if str_eq(s.as_str(), "c") {
                config.default_config.compiler = Some("gcc".to_owned());
                config.default_ext = "c".to_owned();
            } else {
                return Err(
                    ContentError::Contextful(
                        ContextfulError::_with_context(
                            ContextfulErrorType::InvalidEnumValue("kind"),
                            String::new(),
                        ),
                    ),
                );
            }
        },
        Ok(None) => {},
    }
    Ok(config)
}

/// Step 2 of the read: the source list, in either form.
#[verifier::loop_isolation(false)]
fn apply_step_sources(config: Config, hash: &Vec<(String, Node)>) -> (r: Result<
    Config,
    ContentError,
>)
    requires
        config.source@.len() >= 1,
    ensures
        match step_sources_v(config.deep(), deep_entries(hash@)) {
            Ok(cv) => (r matches Ok(c) && c.deep() == cv && c.source@.len() >= 1),
            Err(e) => r matches Err(err) && err.deep() == e,
        },
{
    let ghost c1 = config.deep();
    let ghost hv = deep_entries(hash@);
    let mut config = config;
    match crate::node::get_data(hash, "sources") {
        Some(y) => {
            let mut new_sources: Vec<SourceDir> = Vec::new();
            match y {
                Node::Sequence(arr) => {
                    let ghost dl = deep_list(arr@);
                    proof {
                        lemma_deep_list(arr@);
                    }
                    if arr.len() == 0 {
                        new_sources.push(SourceDir::new());
                        proof {
                            assert(deep_sources(new_sources@) =~= seq![default_source_dir_v()]);
                        }
                    } else {
                        let mut i: usize = 0;
                        while i < arr.len()
                            invariant
                                i <= arr@.len(),
                                new_sources@.len() == i,
                                forall|j: int|
                                    0 <= j < i ==> read_source_v(#[trigger] dl[j]) is Ok
                                        && new_sources@[j].deep() == read_source_v(dl[j])->Ok_0,
                            decreases arr@.len() - i,
                        {
                            match SourceDir::read_from_hash_or_string(&arr[i]) {
                                Ok(sd) => new_sources.push(sd),
                                Err(e) => {
                                    proof {
                                        lemma_read_sources_at(dl, i as int);
                                    }
                                    return Err(ContentError::Contextful(e));
                                },
                            }
                            i = i + 1;
                        }
                        proof {
                            lemma_read_sources_at(dl, dl.len() as int);
                            assert(deep_sources(new_sources@) =~= Seq::new(
                                dl.len(),
                                |j: int| read_source_v(dl[j])->Ok_0,
                            ));
                        }
                    }
                },
                val => match SourceDir::read_from_hash_or_string(val) {
                    Ok(sd) => {
                        let ghost sdv = sd.deep();
                        new_sources.push(sd);
                        proof {
                            assert(deep_sources(new_sources@) =~= seq![sdv]);
                        }
                    },
                    Err(e) => {
                        return Err(ContentError::Contextful(e));
                    },
                },
            }
            config.source = new_sources;
            match get_str(hash, "src_ext") {
                Err(e) => {
                    return Err(ContentError::Contextful(e));
                },
                Ok(Some(se)) => config.default_ext = se,
                Ok(None) => {},
            }
            match crate::node::get_data(hash, "src_exclude") {
                Some(y2) => match array_or_string_into_vec(y2) {
                    Ok(xs) => config.exclude_dir = xs,
                    Err(e) => {
                        return Err(ContentError::Contextful(e));
                    },
                },
                None => {},
            }
        },
        None => {
            let mut s0 = config.source.remove(0);
            match get_dir_name(hash, "src_dir") {
                Err(e) => {
                    return Err(ContentError::Contextful(e));
                },
                Ok(Some(d)) => s0.dir = d,
                Ok(None) => {},
            }
            match crate::node::get_data(hash, "src_exclude") {
                Some(y2) => match array_or_string_into_vec(y2) {
                    Ok(xs) => s0.exclude = xs,
                    Err(e) => {
                        return Err(ContentError::Contextful(e));
                    },
                },
                None => {},
            }
            match get_int(hash, "src_depth") {
                Err(e) => {
                    return Err(ContentError::Contextful(e));
                },
                Ok(v) => s0.depth = v,
            }
            match get_str(hash, "src_ext") {
                Err(e) => {
                    return Err(ContentError::Contextful(e));
                },
                Ok(v) => s0.ext = v,
            }
            config.source.insert(0, s0);
            proof {
                assert(deep_sources(config.source@) =~= c1.source.update(
                    0,
                    config.source@[0].deep(),
                ));
            }
        },
    }
    Ok(config)
}

/// Step 3 of the read: the include path.
fn apply_step_include(config: Config, hash: &Vec<(String, Node)>) -> (r: Result<
    Config,
    ContentError,
>)
    ensures
        match step_include_v(config.deep(), deep_entries(hash@)) {
            Ok(cv) => (r matches Ok(c) && c.deep() == cv && c.source@ == config.source@),
            Err(e) => r matches Err(err) && err.deep() == e,
        },
{
    let mut config = config;
    match crate::node::get_data(hash, "include") {
        Some(y) => match array_or_string_into_vec(y) {
            Ok(xs) => config.include_dir = xs,
            Err(e) => {
                return Err(ContentError::Contextful(e));
            },
        },
        None => {},
    }
    Ok(config)
}

/// Step 4 of the read: included source directories join the include path.
#[verifier::loop_isolation(false)]
fn apply_step_included(config: Config) -> (r: Config)
    ensures
        r.deep() == step_included_v(config.deep()),
        r.source@ == config.source@,
{
    let ghost c3 = config.deep();
    let ghost srcs_v = deep_sources(config.source@);
    let ghost orig_source = config.source@;
    let mut config = config;
    let mut k: usize = 0;
    while k < config.source.len()
        invariant
            k <= config.source@.len(),
            config.source@ == orig_source,
            config.deep() == (ConfigV {
                include_dir: c3.include_dir + included_dirs_v(srcs_v.take(k as int)),
                ..c3
            }),
        decreases config.source@.len() - k,
    {
        let ghost old_inc = crate::node::deep_strs(config.include_dir@);
        if config.source[k].included {
            let d = config.source[k].dir.clone();
            config.include_dir.push(d);
            proof {
                assert(crate::node::deep_strs(config.include_dir@) =~= old_inc.push(
                    srcs_v[k as int].dir,
                ));
            }
        }
        proof {
            assert(srcs_v.take(k + 1) =~= srcs_v.take(k as int) + seq![srcs_v[k as int]]);
            lemma_included_dirs_append(srcs_v.take(k as int), seq![srcs_v[k as int]]);
            assert(included_dirs_v(seq![srcs_v[k as int]].drop_first())
                =~= Seq::<Seq<char>>::empty());
            if srcs_v[k as int].included {
                assert(included_dirs_v(seq![srcs_v[k as int]]) =~= seq![srcs_v[k as int].dir]);
                assert(c3.include_dir + included_dirs_v(srcs_v.take(k + 1)) =~= (c3.include_dir
                    + included_dirs_v(srcs_v.take(k as int))).push(srcs_v[k as int].dir));
            } else {
                assert(included_dirs_v(seq![srcs_v[k as int]]) =~= Seq::<Seq<char>>::empty());
                assert(c3.include_dir + included_dirs_v(srcs_v.take(k + 1)) =~= c3.include_dir
                    + included_dirs_v(srcs_v.take(k as int)));
            }
        }
        k = k + 1;
    }
    proof {
        assert(srcs_v.take(config.source@.len() as int) =~= srcs_v);
    }
    config
}

/// Step 5 of the read: the output layout flag.
fn apply_step_flatten(config: Config, hash: &Vec<(String, Node)>) -> (r: Result<
    Config,
    ContentError,
>)
    ensures
        match step_flatten_v(config.deep(), deep_entries(hash@)) {
            Ok(cv) => (r matches Ok(c) && c.deep() == cv && c.source@ == config.source@),
            Err(e) => r matches Err(err) && err.deep() == e,
        },
{
    let mut config = config;
    match get_bool(hash, "keep_source_dir_names") {
        Err(e) => {
            return Err(ContentError::Contextful(e));
        },
        Ok(Some(b)) => config.flatten_output_layout = !b,
        Ok(None) => {},
    }
    Ok(config)
}

/// Step 6 of the read: the object and binary directories.
fn apply_step_dirs(config: Config, hash: &Vec<(String, Node)>) -> (r: Result<Config, ContentError>)
    ensures
        match step_dirs_v(config.deep(), deep_entries(hash@)) {
            Ok(cv) => (r matches Ok(c) && c.deep() == cv && c.source@ == config.source@),
            Err(e) => r matches Err(err) && err.deep() == e,
        },
{
    let mut config = config;
    match get_dir_name(hash, "obj_dir") {
        Err(e) => {
            return Err(ContentError::Contextful(e));
        },
        Ok(Some(d)) => config.obj_dir = d,
        Ok(None) => {},
    }
    match get_dir_name(hash, "bin_dir") {
        Err(e) => {
            return Err(ContentError::Contextful(e));
        },
        Ok(Some(d)) => config.bin_dir = d,
        Ok(None) => {},
    }
    Ok(config)
}

/// Step 7 of the read: the default layer's fields.
fn apply_step_defaults(config: Config, hash: &Vec<(String, Node)>) -> (r: Result<
    Config,
    ContentError,
>)
    ensures
        match step_defaults_v(config.deep(), deep_entries(hash@)) {
            Ok(cv) => (r matches Ok(c) && c.deep() == cv && c.source@ == config.source@),
            Err(e) => r matches Err(err) && err.deep() == e,
        },
{
    let mut config = config;
    match config.default_config.read(hash) {
        Ok(_) => Ok(config),
        Err(e) => Err(ContentError::Contextful(e.add_context("In default config".to_owned()))),
    }
}

/// Step 8 of the read: the targets.
#[verifier::loop_isolation(false)]
fn apply_step_targets(config: Config, hash: &Vec<(String, Node)>) -> (r: Result<
    Config,
    ContentError,
>)
    ensures
        match step_targets_v(config.deep(), deep_entries(hash@)) {
            Ok(cv) => (r matches Ok(c) && c.deep() == cv && c.source@ == config.source@),
            Err(e) => r matches Err(err) && err.deep() == e,
        },
{
    let ghost c7 = config.deep();
    let ghost orig_source = config.source@;
    let mut config = config;
    match get_array(hash, "targets") {
        Err(e) => {
            return Err(ContentError::Contextful(e));
        },
        Ok(None) => {},
        Ok(Some(arr)) => {
            let ghost dl = deep_list(arr@);
            proof {
                lemma_deep_list(arr@);
            }
            let ghost base_len = config.alt_targets@.len();
            let mut i: usize = 0;
            while i < arr.len()
                invariant
                    i <= arr@.len(),
                    config.source@ == orig_source,
                    config.alt_targets@.len() == base_len + i,
                    forall|j: int|
                        0 <= j < i ==> read_target_item_v(#[trigger] dl[j]) is Ok
                            && config.alt_targets@[base_len + j].deep() == read_target_item_v(
                            dl[j],
                        )->Ok_0,
                    deep_targets(config.alt_targets@).take(base_len as int) == c7.alt_targets,
                    config.deep() == (ConfigV {
                        alt_targets: deep_targets(config.alt_targets@),
                        ..c7
                    }),
                decreases arr@.len() - i,
            {
                match &arr[i] {
                    Node::Mapping(th) => match Target::read(th) {
                        Ok(t) => {
                            config.alt_targets.push(t);
                            proof {
                                assert(deep_targets(config.alt_targets@).take(base_len as int)
                                    =~= c7.alt_targets);
                            }
                        },
                        Err(ce) => {
                            proof {
                                lemma_read_targets_at(dl, i as int);
                            }
                            return Err(ce);
                        },
                    },
                    val => {
                        proof {
                            lemma_read_targets_at(dl, i as int);
                        }
                        return Err(
                            ContentError::Contextful(
                                handle_wrong_type(val, "table").add_context(
                                    "targets property".to_owned(),
                                ),
                            ),
                        );
                    },
                }
                i = i + 1;
            }
            proof {
                lemma_read_targets_at(dl, dl.len() as int);
                assert(deep_targets(config.alt_targets@) =~= c7.alt_targets + Seq::new(
                    dl.len(),
                    |j: int| read_target_item_v(dl[j])->Ok_0,
                ));
            }
        },
    }
    Ok(config)
}

/// Step 9 of the read: the output path.
fn apply_step_output(config: Config, hash: &Vec<(String, Node)>) -> (r: Result<
    Config,
    ContentError,
>)
    ensures
        match step_output_v(config.deep(), deep_entries(hash@)) {
            Ok(cv) => (r matches Ok(c) && c.deep() == cv && c.source@ == config.source@),
            Err(e) => r matches Err(err) && err.deep() == e,
        },
{
    let mut config = config;
    match get_str(hash, "output-file") {
        Err(e) => {
            return Err(ContentError::Contextful(e));
        },
        Ok(a) => match get_str(hash, "output_file") {
            Err(e) => {
                return Err(ContentError::Contextful(e));
            },
            Ok(b) => {
                config.output_file = match a {
                    Some(x) => Some(x),
                    None => b,
                };
            },
        },
    }
    Ok(config)
}

impl Config {
    /// Populate a configuration from a mapping-rooted document tree,
    /// after overrides have been applied: the nine precedence steps run
    /// in their fixed order, and the first error aborts the read. The
    /// source list of a successful read is never empty.
    pub fn read(data: &Node) -> (r: Result<Config, ContentError>)
        ensures
            match read_config_v(data.deep()) {
                Ok(cv) => (r matches Ok(c) && c.deep() == cv && cv.wf()),
                Err(e) => (r matches Err(err) && err.deep() == e),
            },
    {
        let hash = match data {
            Node::Mapping(h) => h,
            val => {
                return Err(
                    ContentError::Contextful(
                        handle_wrong_type(val, "property list").add_context(
                            "Config file".to_owned(),
                        ),
                    ),
                );
            },
        };
        let config = Config::new();
        proof {
            assert(deep_sources(config.source@).len() == 1);
        }
        let config = match apply_step_kind(config, hash) {
            Ok(c) => c,
            Err(e) => {
                return Err(e);
            },
        };
        let config = match apply_step_sources(config, hash) {
            Ok(c) => c,
            Err(e) => {
                return Err(e);
            },
        };
        let config = match apply_step_include(config, hash) {
            Ok(c) => c,
            Err(e) => {
                return Err(e);
            },
        };
        let config = apply_step_included(config);
        let config = match apply_step_flatten(config, hash) {
            Ok(c) => c,
            Err(e) => {
                return Err(e);
            },
        };
        let config = match apply_step_dirs(config, hash) {
            Ok(c) => c,
            Err(e) => {
                return Err(e);
            },
        };
        let config = match apply_step_defaults(config, hash) {
            Ok(c) => c,
            Err(e) => {
                return Err(e);
            },
        };
        let config = match apply_step_targets(config, hash) {
            Ok(c) => c,
            Err(e) => {
                return Err(e);
            },
        };
        let config = match apply_step_output(config, hash) {
            Ok(c) => c,
            Err(e) => {
                return Err(e);
            },
        };
        proof {
            assert(config.source@.len() >= 1);
            assert(deep_sources(config.source@).len() >= 1);
        }
        Ok(config)
    }
}


/// With `kind: cpp` and no explicit `compiler` or `src_ext`, a
/// successful read resolves the default layer's compiler to `g++` and
/// the default extension to `cpp`.
pub proof fn lemma_kind_cpp_defaults(h: EntriesV)
    requires
        lookup_v(h, "kind"@) == Some(NodeV::Str("cpp"@)),
        lookup_v(h, "compiler"@) is None,
        lookup_v(h, "src_ext"@) is None,
        read_config_hash_v(h) is Ok,
    ensures
        (read_config_hash_v(h)->Ok_0).default_config.compiler == Some("g++"@),
        (read_config_hash_v(h)->Ok_0).default_ext == "cpp"@,
{
    lemma_kind_defaults_chain(h);
}

/// With `kind: c` and no explicit `compiler` or `src_ext`, a successful
/// read resolves the default layer's compiler to `gcc` and the default
/// extension to `c`.
pub proof fn lemma_kind_c_defaults(h: EntriesV)
    requires
        lookup_v(h, "kind"@) == Some(NodeV::Str("c"@)),
        lookup_v(h, "compiler"@) is None,
        lookup_v(h, "src_ext"@) is None,
        read_config_hash_v(h) is Ok,
    ensures
        (read_config_hash_v(h)->Ok_0).default_config.compiler == Some("gcc"@),
        (read_config_hash_v(h)->Ok_0).default_ext == "c"@,
{
    reveal_strlit("c");
    reveal_strlit("cpp");
    assert("c"@.len() == 1);
    assert("cpp"@.len() == 3);
    lemma_kind_defaults_chain(h);
}

/// The steps after `kind` never change the compiler or the default
/// extension that `kind` set, as long as the document has no `compiler`
/// and no `src_ext` key.
proof fn lemma_kind_defaults_chain(h: EntriesV)
    requires
        lookup_v(h, "compiler"@) is None,
        lookup_v(h, "src_ext"@) is None,
        step_kind_v(default_config_v(), h) is Ok,
        read_config_hash_v(h) is Ok,
    ensures
        (read_config_hash_v(h)->Ok_0).default_config.compiler == (step_kind_v(
            default_config_v(),
            h,
        )->Ok_0).default_config.compiler,
        (read_config_hash_v(h)->Ok_0).default_ext == (step_kind_v(
            default_config_v(),
            h,
        )->Ok_0).default_ext,
{
    let c1 = step_kind_v(default_config_v(), h)->Ok_0;
    let c2 = step_sources_v(c1, h)->Ok_0;
    assert(step_sources_v(c1, h) is Ok);
    assert(c2.default_ext == c1.default_ext && c2.default_config == c1.default_config);
    let c3 = step_include_v(c2, h)->Ok_0;
    assert(step_include_v(c2, h) is Ok);
    let c4 = step_included_v(c3);
    let c5 = step_flatten_v(c4, h)->Ok_0;
    assert(step_flatten_v(c4, h) is Ok);
    let c6 = step_dirs_v(c5, h)->Ok_0;
    assert(step_dirs_v(c5, h) is Ok);
    let c7 = step_defaults_v(c6, h)->Ok_0;
    assert(step_defaults_v(c6, h) is Ok);
    assert(c7.default_config.compiler == c6.default_config.compiler);
    let c8 = step_targets_v(c7, h)->Ok_0;
    assert(step_targets_v(c7, h) is Ok);
    let c9 = step_output_v(c8, h)->Ok_0;
    assert(step_output_v(c8, h) is Ok);
    assert(read_config_hash_v(h) == Ok::<ConfigV, ContentErrorV>(c9));
}

/// A `sources` entry in mapping form with no `dir` key reads to a
/// missing-required-field error, never a panic.
pub proof fn lemma_source_missing_dir(base: SourceDirV, h: EntriesV)
    requires
        lookup_v(h, "dir"@) is None,
    ensures
        read_source_hash_v(base, h) matches Err(e) && e.err
            == ContextfulErrorTypeV::MissingRequiredField("dir"@),
{
}

/// A directory field declared as the empty string is normalized to `.`
/// while reading, never left empty.
pub proof fn lemma_empty_dir_normalized(h: EntriesV, key: Seq<char>)
    requires
        lookup_v(h, key) == Some(NodeV::Str(Seq::empty())),
    ensures
        get_dir_name_v(h, key) == Ok::<Option<Seq<char>>, ContextfulErrorV>(Some("."@)),
{
}

/// A document whose `obj_dir` is the empty string reads, when it reads
/// at all, to an object directory of `.`, never the empty string.
pub proof fn lemma_obj_dir_empty(h: EntriesV)
    requires
        lookup_v(h, "obj_dir"@) == Some(NodeV::Str(Seq::empty())),
        read_config_hash_v(h) is Ok,
    ensures
        (read_config_hash_v(h)->Ok_0).obj_dir == "."@,
{
    let c1 = step_kind_v(default_config_v(), h)->Ok_0;
    assert(step_kind_v(default_config_v(), h) is Ok);
    let c2 = step_sources_v(c1, h)->Ok_0;
    assert(step_sources_v(c1, h) is Ok);
    let c3 = step_include_v(c2, h)->Ok_0;
    assert(step_include_v(c2, h) is Ok);
    let c4 = step_included_v(c3);
    let c5 = step_flatten_v(c4, h)->Ok_0;
    assert(step_flatten_v(c4, h) is Ok);
    let c6 = step_dirs_v(c5, h)->Ok_0;
    assert(step_dirs_v(c5, h) is Ok);
    assert(c6.obj_dir == "."@);
    let c7 = step_defaults_v(c6, h)->Ok_0;
    assert(step_defaults_v(c6, h) is Ok);
    let c8 = step_targets_v(c7, h)->Ok_0;
    assert(step_targets_v(c7, h) is Ok);
    let c9 = step_output_v(c8, h)->Ok_0;
    assert(step_output_v(c8, h) is Ok);
    assert(read_config_hash_v(h) == Ok::<ConfigV, ContentErrorV>(c9));
}

} // verus!
