//! The configuration model: typed entities populated from the document
//! tree, with their mathematical views and defaulting rules.

use vstd::prelude::*;

verus! {

broadcast use vstd::std_specs::vec::group_vec_axioms, vstd::seq::group_seq_axioms;

/// One directory tree to scan for source files.
#[derive(Debug, Clone)]
pub struct SourceDir {
    /// Path of the directory; never empty.
    pub dir: String,
    /// Extension filter; falls back to the config-wide default.
    pub ext: Option<String>,
    /// Recursion bound; 0 or absent means unbounded.
    pub depth: Option<i64>,
    /// Whether the path joins the include path during resolution.
    pub included: bool,
    /// Patterns excluded from the scan, in order.
    pub exclude: Vec<String>,
}

/// Mathematical view of a source directory.
pub struct SourceDirV {
    pub dir: Seq<char>,
    pub ext: Option<Seq<char>>,
    pub depth: Option<int>,
    pub included: bool,
    pub exclude: Seq<Seq<char>>,
}

/// The synthetic default source directory: `src`, everything else unset.
pub open spec fn default_source_dir_v() -> SourceDirV {
    SourceDirV {
        dir: "src"@,
        ext: None,
        depth: None,
        included: false,
        exclude: Seq::empty(),
    }
}

impl SourceDir {
    /// The mathematical value of this source directory.
    pub open spec fn deep(self) -> SourceDirV {
        SourceDirV {
            dir: self.dir@,
            ext: match self.ext {
                Some(e) => Some(e@),
                None => None,
            },
            depth: match self.depth {
                Some(d) => Some(d as int),
                None => None,
            },
            included: self.included,
            exclude: crate::node::deep_strs(self.exclude@),
        }
    }

    /// The synthetic default source directory.
    pub fn new() -> (r: SourceDir)
        ensures
            r.deep() == default_source_dir_v(),
    {
        let r = SourceDir {
            dir: "src".to_owned(),
            ext: None,
            depth: None,
            included: false,
            exclude: Vec::new(),
        };
        proof {
            assert(crate::node::deep_strs(r.exclude@) =~= Seq::<Seq<char>>::empty());
        }
        r
    }
}

/// The mathematical values of a list of source directories.
pub open spec fn deep_sources(s: Seq<SourceDir>) -> Seq<SourceDirV> {
    Seq::new(s.len(), |i: int| s[i].deep())
}

/// One configuration layer: every field optional, absence meaning
/// "inherit from the layer below".
#[derive(Debug, Clone)]
pub struct BuildConfig {
    pub exec_name: Option<String>,
    pub compiler: Option<String>,
    pub cflags: Option<String>,
    pub ldflags: Option<String>,
    pub libs: Option<Vec<String>>,
}

/// Mathematical view of a configuration layer.
pub struct BuildConfigV {
    pub exec_name: Option<Seq<char>>,
    pub compiler: Option<Seq<char>>,
    pub cflags: Option<Seq<char>>,
    pub ldflags: Option<Seq<char>>,
    pub libs: Option<Seq<Seq<char>>>,
}

/// The layer that sets nothing.
pub open spec fn empty_build_config_v() -> BuildConfigV {
    BuildConfigV { exec_name: None, compiler: None, cflags: None, ldflags: None, libs: None }
}

impl BuildConfig {
    /// The mathematical value of this layer.
    pub open spec fn deep(self) -> BuildConfigV {
        BuildConfigV {
            exec_name: match self.exec_name {
                Some(s) => Some(s@),
                None => None,
            },
            compiler: match self.compiler {
                Some(s) => Some(s@),
                None => None,
            },
            cflags: match self.cflags {
                Some(s) => Some(s@),
                None => None,
            },
            ldflags: match self.ldflags {
                Some(s) => Some(s@),
                None => None,
            },
            libs: match self.libs {
                Some(v) => Some(crate::node::deep_strs(v@)),
                None => None,
            },
        }
    }
}

impl Default for BuildConfig {
    /// The layer that sets nothing.
    fn default() -> (r: BuildConfig)
        ensures
            r.deep() == empty_build_config_v(),
    {
        BuildConfig { exec_name: None, compiler: None, cflags: None, ldflags: None, libs: None }
    }
}

/// A named alternate build sharing the object list but able to override
/// fields of the default layer.
#[derive(Debug, Clone)]
pub struct Target {
    pub name: String,
    pub config: BuildConfig,
}

/// Mathematical view of a target.
pub struct TargetV {
    pub name: Seq<char>,
    pub config: BuildConfigV,
}

impl Target {
    /// The mathematical value of this target.
    pub open spec fn deep(self) -> TargetV {
        TargetV { name: self.name@, config: self.config.deep() }
    }

    /// A target that overrides nothing.
    pub fn new(name: String) -> (r: Target)
        ensures
            r.deep() == (TargetV { name: name@, config: empty_build_config_v() }),
    {
        Target { name, config: BuildConfig::default() }
    }
}

/// The mathematical values of a list of targets.
pub open spec fn deep_targets(s: Seq<Target>) -> Seq<TargetV> {
    Seq::new(s.len(), |i: int| s[i].deep())
}

/// The built-in fallbacks under every layer.
pub struct DefaultConfig {
    pub exec_name: &'static str,
    pub compiler: &'static str,
    pub cflags: &'static str,
    pub ldflags: &'static str,
    pub libs: Vec<&'static str>,
}

/// The built-in fallbacks: executable `main`, compiler `gcc`, empty
/// flags, no libraries.
pub fn init_default() -> (r: DefaultConfig)
    ensures
        r.exec_name@ == "main"@,
        r.compiler@ == "gcc"@,
        r.cflags@ == ""@,
        r.ldflags@ == ""@,
        r.libs@.len() == 0,
{
    DefaultConfig { exec_name: "main", compiler: "gcc", cflags: "", ldflags: "", libs: Vec::new() }
}

/// How the generated script reports each compiled file.
pub enum CompileMsgType {
    /// Echo the compiler command.
    Command,
    /// Say nothing.
    Silent,
    /// One summary line per file.
    Summary,
    /// A custom line; the text should contain `{file}`.
    Custom(String),
}

/// What the generated script prints while it runs.
pub struct DisplayConfig {
    pub compile_msg: CompileMsgType,
    pub start_msg: bool,
    pub link_msg: bool,
    pub end_msg: bool,
}

/// The root aggregate: everything synthesis needs, resolved.
#[derive(Debug, Clone)]
pub struct Config {
    /// `true` collapses all object paths under the object directory;
    /// `false` (the default) keys them by source-directory name.
    pub flatten_output_layout: bool,
    pub source: Vec<SourceDir>,
    pub default_ext: String,
    pub exclude_dir: Vec<String>,
    pub include_dir: Vec<String>,
    pub obj_dir: String,
    pub bin_dir: String,
    pub default_config: BuildConfig,
    pub alt_targets: Vec<Target>,
    pub output_file: Option<String>,
}

/// Mathematical view of a resolved configuration.
pub struct ConfigV {
    pub flatten_output_layout: bool,
    pub source: Seq<SourceDirV>,
    pub default_ext: Seq<char>,
    pub exclude_dir: Seq<Seq<char>>,
    pub include_dir: Seq<Seq<char>>,
    pub obj_dir: Seq<char>,
    pub bin_dir: Seq<char>,
    pub default_config: BuildConfigV,
    pub alt_targets: Seq<TargetV>,
    pub output_file: Option<Seq<char>>,
}

impl ConfigV {
    /// The source list is never empty.
    pub open spec fn wf(self) -> bool {
        self.source.len() >= 1
    }
}

/// The configuration before any document field is read.
pub open spec fn default_config_v() -> ConfigV {
    ConfigV {
        flatten_output_layout: false,
        source: seq![default_source_dir_v()],
        default_ext: "cpp"@,
        exclude_dir: Seq::empty(),
        include_dir: Seq::empty(),
        obj_dir: "obj"@,
        bin_dir: "."@,
        default_config: empty_build_config_v(),
        alt_targets: Seq::empty(),
        output_file: None,
    }
}

impl Config {
    /// The mathematical value of this configuration.
    pub open spec fn deep(self) -> ConfigV {
        ConfigV {
            flatten_output_layout: self.flatten_output_layout,
            source: deep_sources(self.source@),
            default_ext: self.default_ext@,
            exclude_dir: crate::node::deep_strs(self.exclude_dir@),
            include_dir: crate::node::deep_strs(self.include_dir@),
            obj_dir: self.obj_dir@,
            bin_dir: self.bin_dir@,
            default_config: self.default_config.deep(),
            alt_targets: deep_targets(self.alt_targets@),
            output_file: match self.output_file {
                Some(s) => Some(s@),
                None => None,
            },
        }
    }

    /// The configuration before any document field is read.
    pub fn new() -> (r: Config)
        ensures
            r.deep() == default_config_v(),
    {
        let mut source: Vec<SourceDir> = Vec::new();
        source.push(SourceDir::new());
        let r = Config {
            flatten_output_layout: false,
            source,
            default_ext: "cpp".to_owned(),
            exclude_dir: Vec::new(),
            include_dir: Vec::new(),
            obj_dir: "obj".to_owned(),
            bin_dir: ".".to_owned(),
            default_config: BuildConfig::default(),
            alt_targets: Vec::new(),
            output_file: None,
        };
        proof {
            assert(deep_sources(r.source@) =~= seq![default_source_dir_v()]);
            assert(crate::node::deep_strs(r.exclude_dir@) =~= Seq::<Seq<char>>::empty());
            assert(crate::node::deep_strs(r.include_dir@) =~= Seq::<Seq<char>>::empty());
            assert(deep_targets(r.alt_targets@) =~= Seq::<TargetV>::empty());
        }
        r
    }
}

} // verus!

mod read;
mod write;
