//! The build-rule synthesizer: the deterministic mapping from a resolved
//! configuration to the text of the generated build script.

use vstd::prelude::*;

use crate::config::{BuildConfigV, Config, ConfigV, SourceDirV, Target, TargetV};
use crate::node::{deep_strs, str_eq};

verus! {

broadcast use vstd::std_specs::vec::group_vec_axioms, vstd::seq::group_seq_axioms;

/// The concatenation of a list of text fragments, in order.
pub open spec fn concat_texts(parts: Seq<Seq<char>>) -> Seq<char>
    decreases parts.len(),
{
    if parts.len() == 0 {
        Seq::empty()
    } else {
        parts[0] + concat_texts(parts.drop_first())
    }
}

/// `concat_texts` distributes over concatenation of the part lists.
pub proof fn lemma_concat_texts_append(a: Seq<Seq<char>>, b: Seq<Seq<char>>)
    ensures
        concat_texts(a + b) == concat_texts(a) + concat_texts(b),
    decreases a.len(),
{
    if a.len() == 0 {
        assert(a + b =~= b);
        assert(concat_texts(a) + concat_texts(b) =~= concat_texts(b));
    } else {
        lemma_concat_texts_append(a.drop_first(), b);
        assert((a + b).drop_first() =~= a.drop_first() + b);
        assert(a[0] + (concat_texts(a.drop_first()) + concat_texts(b)) =~= (a[0] + concat_texts(
            a.drop_first(),
        )) + concat_texts(b));
    }
}

/// One more part extends the concatenation of a prefix.
pub proof fn lemma_concat_texts_take(parts: Seq<Seq<char>>, i: int)
    requires
        0 <= i < parts.len(),
    ensures
        concat_texts(parts.take(i + 1)) == concat_texts(parts.take(i)) + parts[i],
{
    assert(parts.take(i + 1) =~= parts.take(i) + seq![parts[i]]);
    lemma_concat_texts_append(parts.take(i), seq![parts[i]]);
    assert(seq![parts[i]].drop_first() =~= Seq::<Seq<char>>::empty());
    assert(concat_texts(Seq::<Seq<char>>::empty()) =~= Seq::<char>::empty());
    assert(concat_texts(seq![parts[i]]) =~= parts[i]);
}

/// Concatenation of texts is associative.
pub proof fn lemma_text_assoc(a: Seq<char>, b: Seq<char>, c: Seq<char>)
    ensures
        (a + b) + c == a + (b + c),
{
    assert((a + b) + c =~= a + (b + c));
}

/// The decimal digits of a non-negative integer.
pub open spec fn dec_str(n: int) -> Seq<char>
    recommends
        n >= 0,
    decreases n,
{
    if n < 10 {
        seq![digit_char_v(n)]
    } else {
        dec_str(n / 10) + seq![digit_char_v(n % 10)]
    }
}

/// The character of one decimal digit.
pub open spec fn digit_char_v(d: int) -> char {
    if d == 0 {
        '0'
    } else if d == 1 {
        '1'
    } else if d == 2 {
        '2'
    } else if d == 3 {
        '3'
    } else if d == 4 {
        '4'
    } else if d == 5 {
        '5'
    } else if d == 6 {
        '6'
    } else if d == 7 {
        '7'
    } else if d == 8 {
        '8'
    } else {
        '9'
    }
}

/// The text of one decimal digit.
fn digit_str(d: i64) -> (r: &'static str)
    requires
        0 <= d <= 9,
    ensures
        r@ == seq![digit_char_v(d as int)],
{
    proof {
        reveal_strlit("0");
        reveal_strlit("1");
        reveal_strlit("2");
        reveal_strlit("3");
        reveal_strlit("4");
        reveal_strlit("5");
        reveal_strlit("6");
        reveal_strlit("7");
        reveal_strlit("8");
        reveal_strlit("9");
    }
    let r: &'static str = if d == 0 {
        "0"
    } else if d == 1 {
        "1"
    } else if d == 2 {
        "2"
    } else if d == 3 {
        "3"
    } else if d == 4 {
        "4"
    } else if d == 5 {
        "5"
    } else if d == 6 {
        "6"
    } else if d == 7 {
        "7"
    } else if d == 8 {
        "8"
    } else {
        "9"
    };
    proof {
        assert(r@ =~= seq![digit_char_v(d as int)]);
    }
    r
}

/// A non-negative integer in decimal.
fn dec_of(n: i64) -> (s: String)
    requires
        n >= 0,
    ensures
        s@ == dec_str(n as int),
    decreases n,
{
    if n < 10 {
        digit_str(n).to_owned()
    } else {
        let mut s = dec_of(n / 10);
        s.append(digit_str(n % 10));
        s
    }
}

/// A layered string field resolved against its built-in fallback.
pub open spec fn or_default_v(opt: Option<Seq<char>>, dflt: Seq<char>) -> Seq<char> {
    match opt {
        Some(s) => s,
        None => dflt,
    }
}

/// The extension a source directory is scanned for.
pub open spec fn eff_ext_v(sd: SourceDirV, dflt: Seq<char>) -> Seq<char> {
    match sd.ext {
        Some(e) => e,
        None => dflt,
    }
}

/// The `LIBS` value: each library as a `-l` flag.
pub open spec fn libs_text_v(libs: Seq<Seq<char>>) -> Seq<char> {
    concat_texts(Seq::new(libs.len(), |i: int| "-l"@ + libs[i] + " "@))
}

/// The `INCLUDE` value: each directory as a `-I` flag.
pub open spec fn include_text_v(dirs: Seq<Seq<char>>) -> Seq<char> {
    concat_texts(Seq::new(dirs.len(), |i: int| "-I"@ + dirs[i] + " "@))
}

/// Append a newline.
fn nl(out: &mut String)
    ensures
        final(out)@ == old(out)@ + "\n"@,
{
    out.append("\n");
}

/// One `NAME=value` line.
pub open spec fn var_line_v(name: Seq<char>, val: Seq<char>) -> Seq<char> {
    name + "="@ + val + "\n"@
}

/// Append one `NAME=value` line.
fn write_var(out: &mut String, varname: &str, val: &str)
    ensures
        final(out)@ == old(out)@ + var_line_v(varname@, val@),
{
    out.append(varname);
    out.append("=");
    out.append(val);
    nl(out);
    proof {
        assert(out@ =~= old(out)@ + var_line_v(varname@, val@));
    }
}

/// Whether a string is in the list.
fn contains_str(v: &Vec<String>, s: &str) -> (r: bool)
    ensures
        r == deep_strs(v@).contains(s@),
{
    let mut j: usize = 0;
    while j < v.len()
        invariant
            j <= v@.len(),
            forall|t: int| 0 <= t < j ==> v@[t]@ != s@,
        decreases v@.len() - j,
    {
        if str_eq(v[j].as_str(), s) {
            proof {
                assert(deep_strs(v@)[j as int] == s@);
            }
            return true;
        }
        j = j + 1;
    }
    proof {
        assert(forall|t: int| 0 <= t < v@.len() ==> deep_strs(v@)[t] != s@);
    }
    false
}

/// Append the `-l` flags of a library list.
fn push_libs(out: &mut String, libs: &Vec<String>)
    ensures
        final(out)@ == old(out)@ + libs_text_v(deep_strs(libs@)),
{
    let ghost parts = Seq::new(libs@.len(), |i: int| "-l"@ + deep_strs(libs@)[i] + " "@);
    let mut i: usize = 0;
    proof {
        assert(parts.take(0) =~= Seq::<Seq<char>>::empty());
    }
    while i < libs.len()
        invariant
            i <= libs@.len(),
            parts == Seq::new(libs@.len(), |k: int| "-l"@ + deep_strs(libs@)[k] + " "@),
            out@ == old(out)@ + concat_texts(parts.take(i as int)),
        decreases libs@.len() - i,
    {
        out.append("-l");
        out.append(libs[i].as_str());
        out.append(" ");
        proof {
            lemma_concat_texts_take(parts, i as int);
            assert(out@ =~= old(out)@ + concat_texts(parts.take(i + 1)));
        }
        i = i + 1;
    }
    proof {
        assert(parts.take(libs@.len() as int) =~= parts);
    }
}

/// Append the `-I` flags of the include path.
fn push_includes(out: &mut String, dirs: &Vec<String>)
    ensures
        final(out)@ == old(out)@ + include_text_v(deep_strs(dirs@)),
{
    let ghost parts = Seq::new(dirs@.len(), |i: int| "-I"@ + deep_strs(dirs@)[i] + " "@);
    let mut i: usize = 0;
    proof {
        assert(parts.take(0) =~= Seq::<Seq<char>>::empty());
    }
    while i < dirs.len()
        invariant
            i <= dirs@.len(),
            parts == Seq::new(dirs@.len(), |k: int| "-I"@ + deep_strs(dirs@)[k] + " "@),
            out@ == old(out)@ + concat_texts(parts.take(i as int)),
        decreases dirs@.len() - i,
    {
        out.append("-I");
        out.append(dirs[i].as_str());
        out.append(" ");
        proof {
            lemma_concat_texts_take(parts, i as int);
            assert(out@ =~= old(out)@ + concat_texts(parts.take(i + 1)));
        }
        i = i + 1;
    }
    proof {
        assert(parts.take(dirs@.len() as int) =~= parts);
    }
}


/// The default layer's libraries, resolved against the built-in
/// fallback of no libraries.
pub open spec fn resolved_libs_v(bc: BuildConfigV) -> Seq<Seq<char>> {
    match bc.libs {
        Some(ls) => ls,
        None => Seq::empty(),
    }
}

/// The variable block: compiler, executable, directories, flags,
/// libraries and include path, each resolved against its built-in
/// fallback.
pub open spec fn vars_text_v(c: ConfigV) -> Seq<char> {
    var_line_v("CC"@, or_default_v(c.default_config.compiler, "gcc"@)) + var_line_v(
        "EXEC"@,
        or_default_v(c.default_config.exec_name, "main"@),
    ) + var_line_v("OBJ_DIR"@, c.obj_dir) + var_line_v("BIN_DIR"@, c.bin_dir) + var_line_v(
        "CFLAGS"@,
        or_default_v(c.default_config.cflags, ""@),
    ) + var_line_v("LDFLAGS"@, or_default_v(c.default_config.ldflags, ""@)) + "LIBS="@
        + libs_text_v(resolved_libs_v(c.default_config)) + "\n"@ + "INCLUDE="@ + include_text_v(
        c.include_dir,
    ) + "\n"@ + "\n"@
}

/// Append the variable block.
fn push_vars(out: &mut String, config: &Config)
    ensures
        final(out)@ == old(out)@ + vars_text_v(config.deep()),
{
    let ghost c = config.deep();
    let cc: &str = match &config.default_config.compiler {
        Some(s) => s.as_str(),
        None => "gcc",
    };
    write_var(out, "CC", cc);
    let ghost mut acc = var_line_v("CC"@, or_default_v(c.default_config.compiler, "gcc"@));
    proof {
        assert(out@ == old(out)@ + acc);
    }
    let exec: &str = match &config.default_config.exec_name {
        Some(s) => s.as_str(),
        None => "main",
    };
    write_var(out, "EXEC", exec);
    proof {
        let chunk = var_line_v("EXEC"@, or_default_v(c.default_config.exec_name, "main"@));
        lemma_text_assoc(old(out)@, acc, chunk);
        acc = acc + chunk;
        assert(out@ == old(out)@ + acc);
    }
    write_var(out, "OBJ_DIR", config.obj_dir.as_str());
    proof {
        let chunk = var_line_v("OBJ_DIR"@, c.obj_dir);
        lemma_text_assoc(old(out)@, acc, chunk);
        acc = acc + chunk;
        assert(out@ == old(out)@ + acc);
    }
    write_var(out, "BIN_DIR", config.bin_dir.as_str());
    proof {
        let chunk = var_line_v("BIN_DIR"@, c.bin_dir);
        lemma_text_assoc(old(out)@, acc, chunk);
        acc = acc + chunk;
        assert(out@ == old(out)@ + acc);
    }
    let cf: &str = match &config.default_config.cflags {
        Some(s) => s.as_str(),
        None => "",
    };
    write_var(out, "CFLAGS", cf);
    proof {
        let chunk = var_line_v("CFLAGS"@, or_default_v(c.default_config.cflags, ""@));
        lemma_text_assoc(old(out)@, acc, chunk);
        acc = acc + chunk;
        assert(out@ == old(out)@ + acc);
    }
    let ld: &str = match &config.default_config.ldflags {
        Some(s) => s.as_str(),
        None => "",
    };
    write_var(out, "LDFLAGS", ld);
    proof {
        let chunk = var_line_v("LDFLAGS"@, or_default_v(c.default_config.ldflags, ""@));
        lemma_text_assoc(old(out)@, acc, chunk);
        acc = acc + chunk;
        assert(out@ == old(out)@ + acc);
    }
    out.append("LIBS=");
    proof {
        lemma_text_assoc(old(out)@, acc, "LIBS="@);
        acc = acc + "LIBS="@;
        assert(out@ == old(out)@ + acc);
    }
    match &config.default_config.libs {
        Some(v) => push_libs(out, v),
        None => {
            proof {
                assert(libs_text_v(resolved_libs_v(c.default_config)) =~= Seq::<char>::empty());
                assert(out@ =~= out@ + libs_text_v(resolved_libs_v(c.default_config)));
            }
        },
    }
    proof {
        let chunk = libs_text_v(resolved_libs_v(c.default_config));
        lemma_text_assoc(old(out)@, acc, chunk);
        acc = acc + chunk;
        assert(out@ == old(out)@ + acc);
    }
    nl(out);
    proof {
        lemma_text_assoc(old(out)@, acc, "\n"@);
        acc = acc + "\n"@;
    }
    out.append("INCLUDE=");
    proof {
        lemma_text_assoc(old(out)@, acc, "INCLUDE="@);
        acc = acc + "INCLUDE="@;
    }
    push_includes(out, &config.include_dir);
    proof {
        let chunk = include_text_v(c.include_dir);
        lemma_text_assoc(old(out)@, acc, chunk);
        acc = acc + chunk;
    }
    nl(out);
    proof {
        lemma_text_assoc(old(out)@, acc, "\n"@);
        acc = acc + "\n"@;
    }
    nl(out);
    proof {
        lemma_text_assoc(old(out)@, acc, "\n"@);
        acc = acc + "\n"@;
        assert(acc == vars_text_v(c));
    }
}

/// The `find -maxdepth` clause of a bounded source directory: absent or
/// non-positive bounds add nothing.
pub open spec fn depth_text_v(depth: Option<int>) -> Seq<char> {
    match depth {
        Some(d) => if d > 0 {
            " -maxdepth "@ + dec_str(d)
        } else {
            Seq::empty()
        },
        None => Seq::empty(),
    }
}

/// The object-path prefix that keys objects by source directory; the
/// flat layout adds nothing.
pub open spec fn obj_prefix_v(sd: SourceDirV, flatten: bool) -> Seq<char> {
    if flatten {
        Seq::empty()
    } else {
        sd.dir + "/"@
    }
}

/// The object-list fragment of one source directory: find the sources,
/// turn them into object paths, accumulate.
pub open spec fn source_objs_text_v(sd: SourceDirV, c: ConfigV) -> Seq<char> {
    "\n_SRC= $(shell find "@ + sd.dir + depth_text_v(sd.depth) + " -name \"*."@ + eff_ext_v(
        sd,
        c.default_ext,
    ) + "\")\n_OBJS= $(_SRC:."@ + eff_ext_v(sd, c.default_ext)
        + "=.o)\nOBJS := $(OBJS) $(patsubst "@ + sd.dir + "/%,$(OBJ_DIR)/"@ + obj_prefix_v(
        sd,
        c.flatten_output_layout,
    ) + "%,$(_OBJS))\n"@
}

/// The object-list block.
pub open spec fn objs_text_v(c: ConfigV) -> Seq<char> {
    "OBJS="@ + concat_texts(Seq::new(c.source.len(), |i: int| source_objs_text_v(c.source[i], c)))
        + "\n"@
}

/// Append the object-list block.
#[verifier::loop_isolation(false)]
fn push_objs(out: &mut String, config: &Config)
    ensures
        final(out)@ == old(out)@ + objs_text_v(config.deep()),
{
    let ghost c = config.deep();
    let ghost parts = Seq::new(c.source.len(), |i: int| source_objs_text_v(c.source[i], c));
    out.append("OBJS=");
    let ghost base = out@;
    let mut i: usize = 0;
    proof {
        assert(parts.take(0) =~= Seq::<Seq<char>>::empty());
    }
    while i < config.source.len()
        invariant
            i <= config.source@.len(),
            out@ == base + concat_texts(parts.take(i as int)),
        decreases config.source@.len() - i,
    {
        let ghost entry = out@;
        let sd = &config.source[i];
        let ghost sdv = c.source[i as int];
        let eff: &str = match &sd.ext {
            Some(e) => e.as_str(),
            None => config.default_ext.as_str(),
        };
        out.append("\n_SRC= $(shell find ");
        let ghost mut frag = "\n_SRC= $(shell find "@;
        proof {
            assert(out@ == entry + frag);
        }
        out.append(sd.dir.as_str());
        proof {
            lemma_text_assoc(entry, frag, sdv.dir);
            frag = frag + sdv.dir;
        }
        match sd.depth {
            Some(d) => {
                if d > 0 {
                    out.append(" -maxdepth ");
                    let ds = dec_of(d);
                    out.append(ds.as_str());
                    proof {
                        lemma_text_assoc(entry + frag, " -maxdepth "@, dec_str(d as int));
                        lemma_text_assoc(entry, frag, depth_text_v(sdv.depth));
                        frag = frag + depth_text_v(sdv.depth);
                    }
                } else {
                    proof {
                        assert(frag + depth_text_v(sdv.depth) =~= frag);
                        frag = frag + depth_text_v(sdv.depth);
                    }
                }
            },
            None => {
                proof {
                    assert(frag + depth_text_v(sdv.depth) =~= frag);
                    frag = frag + depth_text_v(sdv.depth);
                }
            },
        }
        out.append(" -name \"*.");
        proof {
            lemma_text_assoc(entry, frag, " -name \"*."@);
            frag = frag + " -name \"*."@;
        }
        out.append(eff);
        proof {
            lemma_text_assoc(entry, frag, eff_ext_v(sdv, c.default_ext));
            frag = frag + eff_ext_v(sdv, c.default_ext);
        }
        out.append("\")\n_OBJS= $(_SRC:.");
        proof {
            lemma_text_assoc(entry, frag, "\")\n_OBJS= $(_SRC:."@);
            frag = frag + "\")\n_OBJS= $(_SRC:."@;
        }
        out.append(eff);
        proof {
            lemma_text_assoc(entry, frag, eff_ext_v(sdv, c.default_ext));
            frag = frag + eff_ext_v(sdv, c.default_ext);
        }
        out.append("=.o)\nOBJS := $(OBJS) $(patsubst ");
        proof {
            lemma_text_assoc(entry, frag, "=.o)\nOBJS := $(OBJS) $(patsubst "@);
            frag = frag + "=.o)\nOBJS := $(OBJS) $(patsubst "@;
        }
        out.append(sd.dir.as_str());
        proof {
            lemma_text_assoc(entry, frag, sdv.dir);
            frag = frag + sdv.dir;
        }
        out.append("/%,$(OBJ_DIR)/");
        proof {
            lemma_text_assoc(entry, frag, "/%,$(OBJ_DIR)/"@);
            frag = frag + "/%,$(OBJ_DIR)/"@;
        }
        if !config.flatten_output_layout {
            out.append(sd.dir.as_str());
            out.append("/");
            proof {
                lemma_text_assoc(entry + frag, sdv.dir, "/"@);
                lemma_text_assoc(entry, frag, obj_prefix_v(sdv, c.flatten_output_layout));
                frag = frag + obj_prefix_v(sdv, c.flatten_output_layout);
            }
        } else {
            proof {
                assert(frag + obj_prefix_v(sdv, c.flatten_output_layout) =~= frag);
                frag = frag + obj_prefix_v(sdv, c.flatten_output_layout);
            }
        }
        out.append("%,$(_OBJS))\n");
        proof {
            lemma_text_assoc(entry, frag, "%,$(_OBJS))\n"@);
            frag = frag + "%,$(_OBJS))\n"@;
            assert(frag == source_objs_text_v(sdv, c));
            lemma_concat_texts_take(parts, i as int);
            lemma_text_assoc(base, concat_texts(parts.take(i as int)), frag);
        }
        i = i + 1;
    }
    nl(out);
    proof {
        assert(parts.take(config.source@.len() as int) =~= parts);
        lemma_text_assoc(old(out)@, "OBJS="@, concat_texts(parts));
        lemma_text_assoc(old(out)@, "OBJS="@ + concat_texts(parts), "\n"@);
        assert(out@ == old(out)@ + objs_text_v(c));
    }
}

/// The search-path block: one `vpath` declaration per source directory,
/// mapping its extension to its path.
pub open spec fn vpath_text_v(c: ConfigV) -> Seq<char> {
    concat_texts(
        Seq::new(
            c.source.len(),
            |i: int| "vpath %."@ + eff_ext_v(c.source[i], c.default_ext) + " "@ + c.source[i].dir
                + "\n"@,
        ),
    ) + "\n"@
}

/// Append the search-path block.
#[verifier::loop_isolation(false)]
fn push_vpath(out: &mut String, config: &Config)
    ensures
        final(out)@ == old(out)@ + vpath_text_v(config.deep()),
{
    let ghost c = config.deep();
    let ghost parts = Seq::new(
        c.source.len(),
        |i: int| "vpath %."@ + eff_ext_v(c.source[i], c.default_ext) + " "@ + c.source[i].dir
            + "\n"@,
    );
    let ghost base = out@;
    let mut i: usize = 0;
    proof {
        assert(parts.take(0) =~= Seq::<Seq<char>>::empty());
    }
    while i < config.source.len()
        invariant
            i <= config.source@.len(),
            out@ == base + concat_texts(parts.take(i as int)),
        decreases config.source@.len() - i,
    {
        let sd = &config.source[i];
        let eff: &str = match &sd.ext {
            Some(e) => e.as_str(),
            None => config.default_ext.as_str(),
        };
        out.append("vpath %.");
        out.append(eff);
        out.append(" ");
        out.append(sd.dir.as_str());
        out.append("\n");
        proof {
            lemma_concat_texts_take(parts, i as int);
            assert(out@ =~= base + concat_texts(parts.take(i + 1)));
        }
        i = i + 1;
    }
    nl(out);
    proof {
        assert(parts.take(config.source@.len() as int) =~= parts);
        assert(out@ =~= old(out)@ + vpath_text_v(c));
    }
}

/// The fixed top-level rules: the phony start rule that prepares the
/// object directory, the default build goal, the link rule, and the
/// cleanup goal.
pub open spec fn boilerplate_text_v() -> Seq<char> {
    "\n.PHONY: start\n\nall: start $(EXEC)\n\nstart:\n\tmkdir -p $(OBJ_DIR)\n\n$(BIN_DIR)/$(EXEC): $(OBJS)\n\t$(CC) $^ -o $@ $(LDFLAGS) $(LIBS)\n\nclear:\n\t-@rm -f $(BIN_DIR)/$(EXEC) 2> /dev/null\n\t-@rm -fr $(OBJ_DIR)/* 2> /dev/null\n\n"@
}

/// Append the fixed top-level rules.
fn push_boilerplate(out: &mut String)
    ensures
        final(out)@ == old(out)@ + boilerplate_text_v(),
{
    out.append(
        "\n.PHONY: start\n\nall: start $(EXEC)\n\nstart:\n\tmkdir -p $(OBJ_DIR)\n\n$(BIN_DIR)/$(EXEC): $(OBJS)\n\t$(CC) $^ -o $@ $(LDFLAGS) $(LIBS)\n\nclear:\n\t-@rm -f $(BIN_DIR)/$(EXEC) 2> /dev/null\n\t-@rm -fr $(OBJ_DIR)/* 2> /dev/null\n\n",
    );
}


/// One compile rule of the flat layout: shared per extension.
pub open spec fn rule_flat_text_v(ext: Seq<char>) -> Seq<char> {
    "$(OBJ_DIR)/%.o: %."@ + ext + "\n\t@mkdir -p $(dir $@)\n\t$(CC) $(INCLUDE) -c $< -o $@\n\n"@
}

/// One compile rule of the per-directory layout.
pub open spec fn rule_dir_text_v(dir: Seq<char>, ext: Seq<char>) -> Seq<char> {
    "$(OBJ_DIR)/"@ + dir + "/%.o: "@ + dir + "/%."@ + ext
        + "\n\t@mkdir -p $(dir $@)\n\t$(CC) $(INCLUDE) -c $< -o $@\n\n"@
}

/// The extensions that get a compile rule in the flat layout, walking
/// the sources from `i` on: each extension once, in first-use order,
/// skipping those already in `seen`.
pub open spec fn emitted_exts_v(
    srcs: Seq<SourceDirV>,
    dflt: Seq<char>,
    seen: Seq<Seq<char>>,
    i: int,
) -> Seq<Seq<char>>
    decreases srcs.len() - i,
{
    if i < 0 || i >= srcs.len() {
        Seq::empty()
    } else {
        let e = eff_ext_v(srcs[i], dflt);
        if seen.contains(e) {
            emitted_exts_v(srcs, dflt, seen, i + 1)
        } else {
            seq![e] + emitted_exts_v(srcs, dflt, seen.push(e), i + 1)
        }
    }
}

/// The compile rules of the flat layout: one rule per distinct
/// extension in use, deduplicated in first-use order.
pub open spec fn flat_rules_text_v(c: ConfigV) -> Seq<char> {
    rules_of_exts_v(emitted_exts_v(c.source, c.default_ext, Seq::empty(), 0))
}

/// The compile rules of the per-directory layout: one rule per source
/// directory, in list order.
pub open spec fn dir_rules_text_v(c: ConfigV) -> Seq<char> {
    concat_texts(
        Seq::new(
            c.source.len(),
            |i: int| rule_dir_text_v(c.source[i].dir, eff_ext_v(c.source[i], c.default_ext)),
        ),
    )
}

/// The compile-rule block, by layout.
pub open spec fn rules_text_v(c: ConfigV) -> Seq<char> {
    if c.flatten_output_layout {
        flat_rules_text_v(c)
    } else {
        dir_rules_text_v(c)
    }
}

/// The rule list of the flat layout never repeats an extension, never
/// repeats one already seen, and holds exactly the extensions that some
/// source directory from `i` on uses and `seen` does not hold.
pub proof fn lemma_emitted_exts(srcs: Seq<SourceDirV>, dflt: Seq<char>, seen: Seq<Seq<char>>, i: int)
    requires
        0 <= i <= srcs.len(),
    ensures
        forall|a: int, b: int|
            0 <= a < b < emitted_exts_v(srcs, dflt, seen, i).len() ==> emitted_exts_v(
                srcs,
                dflt,
                seen,
                i,
            )[a] != emitted_exts_v(srcs, dflt, seen, i)[b],
        forall|a: int|
            0 <= a < emitted_exts_v(srcs, dflt, seen, i).len() ==> !seen.contains(
                emitted_exts_v(srcs, dflt, seen, i)[a],
            ),
        forall|a: int|
            0 <= a < emitted_exts_v(srcs, dflt, seen, i).len() ==> exists|j: int|
                i <= j < srcs.len() && eff_ext_v(#[trigger] srcs[j], dflt) == #[trigger] emitted_exts_v(
                    srcs,
                    dflt,
                    seen,
                    i,
                )[a],
        forall|j: int|
            i <= j < srcs.len() && !seen.contains(eff_ext_v(#[trigger] srcs[j], dflt))
                ==> emitted_exts_v(srcs, dflt, seen, i).contains(eff_ext_v(srcs[j], dflt)),
    decreases srcs.len() - i,
{
    if i == srcs.len() {
    } else {
        let e = eff_ext_v(srcs[i], dflt);
        let r = emitted_exts_v(srcs, dflt, seen, i);
        if seen.contains(e) {
            lemma_emitted_exts(srcs, dflt, seen, i + 1);
            assert(r == emitted_exts_v(srcs, dflt, seen, i + 1));
            assert(forall|a: int, b: int|
                0 <= a < b < r.len() ==> #[trigger] r[a] != #[trigger] r[b]);
            assert(forall|a: int| 0 <= a < r.len() ==> !seen.contains(#[trigger] r[a]));
        } else {
            lemma_emitted_exts(srcs, dflt, seen.push(e), i + 1);
            let rest = emitted_exts_v(srcs, dflt, seen.push(e), i + 1);
            assert(r == seq![e] + rest);
            assert(r[0] == e);
            assert(forall|a: int| 0 <= a < rest.len() ==> r[a + 1] == #[trigger] rest[a]);
            assert(seen.push(e).contains(e)) by {
                assert(seen.push(e)[seen.len() as int] == e);
            }
            assert forall|x: Seq<char>| seen.contains(x) implies #[trigger] seen.push(e).contains(
                x,
            ) by {
                let t = choose|t: int| 0 <= t < seen.len() && seen[t] == x;
                assert(seen.push(e)[t] == x);
            }
            assert forall|a: int, b: int| 0 <= a < b < r.len() implies r[a] != r[b] by {
                assert(r[b] == rest[b - 1]);
                assert(!seen.push(e).contains(rest[b - 1]));
                if a == 0 {
                    if r[b] == e {
                        assert(seen.push(e).contains(rest[b - 1]));
                    }
                } else {
                    assert(r[a] == rest[a - 1]);
                }
            }
            assert forall|a: int| 0 <= a < r.len() implies !seen.contains(r[a]) by {
                if a == 0 {
                } else {
                    assert(r[a] == rest[a - 1]);
                    assert(!seen.push(e).contains(rest[a - 1]));
                }
            }
            assert forall|a: int| 0 <= a < r.len() implies exists|j: int|
                i <= j < srcs.len() && eff_ext_v(#[trigger] srcs[j], dflt) == #[trigger] r[a] by {
                if a == 0 {
                    assert(eff_ext_v(srcs[i], dflt) == r[0]);
                } else {
                    assert(r[a] == rest[a - 1]);
                    let j = choose|j: int|
                        i + 1 <= j < srcs.len() && eff_ext_v(#[trigger] srcs[j], dflt) == rest[a
                            - 1];
                    assert(eff_ext_v(srcs[j], dflt) == r[a]);
                }
            }
            assert forall|j: int|
                i <= j < srcs.len() && !seen.contains(
                    eff_ext_v(#[trigger] srcs[j], dflt),
                ) implies r.contains(eff_ext_v(srcs[j], dflt)) by {
                let x = eff_ext_v(srcs[j], dflt);
                if x == e {
                    assert(r[0] == x);
                } else if j > i {
                    assert(!seen.push(e).contains(x)) by {
                        if seen.push(e).contains(x) {
                            let t = choose|t: int|
                                0 <= t < seen.push(e).len() && seen.push(e)[t] == x;
                            if t < seen.len() {
                                assert(seen[t] == x);
                            }
                        }
                    }
                    assert(rest.contains(x));
                    let a = choose|a: int| 0 <= a < rest.len() && rest[a] == x;
                    assert(r[a + 1] == x);
                }
            }
        }
    }
}

/// In the flat layout the synthesizer emits exactly one compile rule
/// per extension: the emitted extension list has no repeats, and it
/// holds an extension exactly when some source directory resolves to
/// it, however many do.
pub proof fn lemma_one_rule_per_extension(c: ConfigV)
    requires
        c.flatten_output_layout,
    ensures
        forall|a: int, b: int|
            0 <= a < b < emitted_exts_v(c.source, c.default_ext, Seq::empty(), 0).len()
                ==> emitted_exts_v(c.source, c.default_ext, Seq::empty(), 0)[a] != emitted_exts_v(
                c.source,
                c.default_ext,
                Seq::empty(),
                0,
            )[b],
        forall|j: int|
            0 <= j < c.source.len() ==> emitted_exts_v(
                c.source,
                c.default_ext,
                Seq::empty(),
                0,
            ).contains(eff_ext_v(#[trigger] c.source[j], c.default_ext)),
        forall|a: int|
            0 <= a < emitted_exts_v(c.source, c.default_ext, Seq::empty(), 0).len() ==> exists|
                j: int,
            |
                0 <= j < c.source.len() && eff_ext_v(#[trigger] c.source[j], c.default_ext)
                    == #[trigger] emitted_exts_v(c.source, c.default_ext, Seq::empty(), 0)[a],
{
    lemma_emitted_exts(c.source, c.default_ext, Seq::empty(), 0);
}

/// The rules for an emission-ordered extension list.
pub open spec fn rules_of_exts_v(exts: Seq<Seq<char>>) -> Seq<char> {
    concat_texts(Seq::new(exts.len(), |i: int| rule_flat_text_v(exts[i])))
}

/// Append the compile rules of the flat layout: one rule per distinct
/// extension, tracked in first-use order.
#[verifier::loop_isolation(false)]
fn push_flat_rules(out: &mut String, config: &Config)
    ensures
        final(out)@ == old(out)@ + flat_rules_text_v(config.deep()),
{
    let ghost c = config.deep();
    let mut seen: Vec<String> = Vec::new();
    let mut i: usize = 0;
    proof {
        assert(deep_strs(seen@) =~= Seq::<Seq<char>>::empty());
    }
    while i < config.source.len()
        invariant
            i <= config.source@.len(),
            old(out)@ + rules_of_exts_v(emitted_exts_v(c.source, c.default_ext, Seq::empty(), 0))
                == out@ + rules_of_exts_v(
                emitted_exts_v(c.source, c.default_ext, deep_strs(seen@), i as int),
            ),
        decreases config.source@.len() - i,
    {
        let sd = &config.source[i];
        let ghost sdv = c.source[i as int];
        let ghost seen_v = deep_strs(seen@);
        let eff: &str = match &sd.ext {
            Some(e) => e.as_str(),
            None => config.default_ext.as_str(),
        };
        let ghost e = eff_ext_v(sdv, c.default_ext);
        if !contains_str(&seen, eff) {
            let ghost entry = out@;
            out.append("$(OBJ_DIR)/%.o: %.");
            out.append(eff);
            out.append("\n\t@mkdir -p $(dir $@)\n\t$(CC) $(INCLUDE) -c $< -o $@\n\n");
            seen.push(eff.to_owned());
            proof {
                lemma_text_assoc(entry, "$(OBJ_DIR)/%.o: %."@, e);
                lemma_text_assoc(
                    entry,
                    "$(OBJ_DIR)/%.o: %."@ + e,
                    "\n\t@mkdir -p $(dir $@)\n\t$(CC) $(INCLUDE) -c $< -o $@\n\n"@,
                );
                assert(out@ == entry + rule_flat_text_v(e));
                assert(deep_strs(seen@) =~= seen_v.push(e));
                let rest = emitted_exts_v(c.source, c.default_ext, seen_v.push(e), i + 1);
                assert(emitted_exts_v(c.source, c.default_ext, seen_v, i as int) == seq![e] + rest);
                assert(Seq::new(
                    (seq![e] + rest).len(),
                    |k: int| rule_flat_text_v((seq![e] + rest)[k]),
                ) =~= seq![rule_flat_text_v(e)] + Seq::new(
                    rest.len(),
                    |k: int| rule_flat_text_v(rest[k]),
                ));
                assert((seq![rule_flat_text_v(e)] + Seq::new(
                    rest.len(),
                    |k: int| rule_flat_text_v(rest[k]),
                )).drop_first() =~= Seq::new(rest.len(), |k: int| rule_flat_text_v(rest[k])));
                assert(rules_of_exts_v(seq![e] + rest) == rule_flat_text_v(e) + rules_of_exts_v(
                    rest,
                ));
                lemma_text_assoc(entry, rule_flat_text_v(e), rules_of_exts_v(rest));
            }
        } else {
            proof {
                assert(emitted_exts_v(c.source, c.default_ext, seen_v, i as int)
                    == emitted_exts_v(c.source, c.default_ext, seen_v, i + 1));
            }
        }
        i = i + 1;
    }
    proof {
        let ghost left = emitted_exts_v(
            c.source,
            c.default_ext,
            deep_strs(seen@),
            config.source@.len() as int,
        );
        assert(left =~= Seq::<Seq<char>>::empty());
        assert(Seq::new(left.len(), |k: int| rule_flat_text_v(left[k])) =~= Seq::<
            Seq<char>,
        >::empty());
        assert(out@ + rules_of_exts_v(left) =~= out@);
    }
}

/// Append the compile rules of the per-directory layout.
#[verifier::loop_isolation(false)]
fn push_dir_rules(out: &mut String, config: &Config)
    ensures
        final(out)@ == old(out)@ + dir_rules_text_v(config.deep()),
{
    let ghost c = config.deep();
    let ghost parts = Seq::new(
        c.source.len(),
        |i: int| rule_dir_text_v(c.source[i].dir, eff_ext_v(c.source[i], c.default_ext)),
    );
    let mut i: usize = 0;
    proof {
        assert(parts.take(0) =~= Seq::<Seq<char>>::empty());
        assert(out@ =~= old(out)@ + concat_texts(parts.take(0)));
    }
    while i < config.source.len()
        invariant
            i <= config.source@.len(),
            out@ == old(out)@ + concat_texts(parts.take(i as int)),
        decreases config.source@.len() - i,
    {
        let ghost entry = out@;
        let sd = &config.source[i];
        let ghost sdv = c.source[i as int];
        let eff: &str = match &sd.ext {
            Some(e) => e.as_str(),
            None => config.default_ext.as_str(),
        };
        out.append("$(OBJ_DIR)/");
        let ghost mut frag = "$(OBJ_DIR)/"@;
        out.append(sd.dir.as_str());
        proof {
            lemma_text_assoc(entry, frag, sdv.dir);
            frag = frag + sdv.dir;
        }
        out.append("/%.o: ");
        proof {
            lemma_text_assoc(entry, frag, "/%.o: "@);
            frag = frag + "/%.o: "@;
        }
        out.append(sd.dir.as_str());
        proof {
            lemma_text_assoc(entry, frag, sdv.dir);
            frag = frag + sdv.dir;
        }
        out.append("/%.");
        proof {
            lemma_text_assoc(entry, frag, "/%."@);
            frag = frag + "/%."@;
        }
        out.append(eff);
        proof {
            lemma_text_assoc(entry, frag, eff_ext_v(sdv, c.default_ext));
            frag = frag + eff_ext_v(sdv, c.default_ext);
        }
        out.append("\n\t@mkdir -p $(dir $@)\n\t$(CC) $(INCLUDE) -c $< -o $@\n\n");
        proof {
            lemma_text_assoc(
                entry,
                frag,
                "\n\t@mkdir -p $(dir $@)\n\t$(CC) $(INCLUDE) -c $< -o $@\n\n"@,
            );
            frag = frag + "\n\t@mkdir -p $(dir $@)\n\t$(CC) $(INCLUDE) -c $< -o $@\n\n"@;
            assert(frag == parts[i as int]);
            lemma_concat_texts_take(parts, i as int);
            lemma_text_assoc(old(out)@, concat_texts(parts.take(i as int)), frag);
        }
        i = i + 1;
    }
    proof {
        assert(parts.take(config.source@.len() as int) =~= parts);
    }
}

/// One per-target variable assignment, emitted only when the target
/// overrides the field.
pub open spec fn target_var_text_v(
    varname: Seq<char>,
    val: Option<Seq<char>>,
    target_name: Seq<char>,
) -> Seq<char> {
    match val {
        Some(v) => target_name + ": "@ + var_line_v(varname, v),
        None => Seq::empty(),
    }
}

/// A target's dedicated link rule: only a target that overrides the
/// executable name gets one.
pub open spec fn target_rule_text_v(t: TargetV) -> Seq<char> {
    match t.config.exec_name {
        Some(e) => "$(BIN_DIR)/"@ + e + ": $(OBJS)\n\t$(CC) $^ -o $@ $(LDFLAGS) $(LIBS)\n"@,
        None => Seq::empty(),
    }
}

/// What the target's phony name depends on: its own executable when it
/// overrides the name, the default build goal otherwise.
pub open spec fn target_dep_v(t: TargetV) -> Seq<char> {
    match t.config.exec_name {
        Some(e) => e,
        None => "all"@,
    }
}

/// A target's `LIBS` assignment, emitted only when overridden.
pub open spec fn target_libs_text_v(t: TargetV) -> Seq<char> {
    match t.config.libs {
        Some(ls) => t.name + ": "@ + "LIBS="@ + libs_text_v(ls) + "\n"@,
        None => Seq::empty(),
    }
}

/// The whole fragment of one target: an optional dedicated link rule,
/// one assignment per overridden field, and the phony goal line.
pub open spec fn target_text_v(t: TargetV) -> Seq<char> {
    "\n"@ + target_rule_text_v(t) + target_var_text_v("CC"@, t.config.compiler, t.name)
        + target_var_text_v("CFLAGS"@, t.config.cflags, t.name) + target_var_text_v(
        "LDFLAGS"@,
        t.config.ldflags,
        t.name,
    ) + target_libs_text_v(t) + t.name + ": "@ + target_dep_v(t) + "\n"@
}

/// The fragments of all targets, in list order.
pub open spec fn targets_text_v(ts: Seq<TargetV>) -> Seq<char> {
    concat_texts(Seq::new(ts.len(), |i: int| target_text_v(ts[i])))
}

/// The whole generated build script.
pub open spec fn makefile_text_v(c: ConfigV) -> Seq<char> {
    vars_text_v(c) + objs_text_v(c) + vpath_text_v(c) + boilerplate_text_v() + rules_text_v(c)
        + targets_text_v(c.alt_targets)
}

/// A target with no overridden fields produces no dedicated link rule
/// and no assignments: only a phony goal depending on the default build
/// goal.
pub proof fn lemma_target_without_overrides(t: TargetV)
    requires
        t.config == crate::config::empty_build_config_v(),
    ensures
        target_text_v(t) == "\n"@ + t.name + ": "@ + "all"@ + "\n"@,
{
    assert(("\n"@ + Seq::<char>::empty() + Seq::<char>::empty() + Seq::<char>::empty() + Seq::<
        char,
    >::empty() + Seq::<char>::empty()) =~= "\n"@);
}

/// Append one target's `name: ` prefix.
fn write_target_name(out: &mut String, name: &str)
    ensures
        final(out)@ == old(out)@ + name@ + ": "@,
{
    out.append(name);
    out.append(": ");
}

/// Append one target-scoped variable assignment, when the field is
/// overridden.
fn write_target_var(out: &mut String, varname: &str, val: &Option<String>, target_name: &str)
    ensures
        final(out)@ == old(out)@ + target_var_text_v(varname@, val.deep_view(), target_name@),
{
    match val {
        Some(v) => {
            write_target_name(out, target_name);
            write_var(out, varname, v.as_str());
            proof {
                lemma_text_assoc(old(out)@, target_name@ + ": "@, var_line_v(varname@, v@));
                assert(old(out)@ + (target_name@ + ": "@) =~= old(out)@ + target_name@ + ": "@);
                assert((target_name@ + ": "@) + var_line_v(varname@, v@) == target_var_text_v(
                    varname@,
                    val.deep_view(),
                    target_name@,
                ));
            }
        },
        None => {
            proof {
                assert(out@ + target_var_text_v(varname@, val.deep_view(), target_name@)
                    =~= out@);
            }
        },
    }
}

impl Target {
    /// The generated fragment of this target.
    pub fn write(&self) -> (r: String)
        ensures
            r@ == target_text_v(self.deep()),
    {
        let ghost t = self.deep();
        let mut out = String::new();
        nl(&mut out);
        let ghost mut acc = "\n"@;
        proof {
            assert(out@ =~= acc);
        }
        match &self.config.exec_name {
            Some(e) => {
                out.append("$(BIN_DIR)/");
                out.append(e.as_str());
                out.append(": $(OBJS)\n\t$(CC) $^ -o $@ $(LDFLAGS) $(LIBS)\n");
                proof {
                    lemma_text_assoc(acc, "$(BIN_DIR)/"@, e@);
                    lemma_text_assoc(
                        acc,
                        "$(BIN_DIR)/"@ + e@,
                        ": $(OBJS)\n\t$(CC) $^ -o $@ $(LDFLAGS) $(LIBS)\n"@,
                    );
                    acc = acc + target_rule_text_v(t);
                    assert(out@ == acc);
                }
            },
            None => {
                proof {
                    assert(acc + target_rule_text_v(t) =~= acc);
                    acc = acc + target_rule_text_v(t);
                }
            },
        }
        write_target_var(&mut out, "CC", &self.config.compiler, self.name.as_str());
        proof {
            acc = acc + target_var_text_v("CC"@, t.config.compiler, t.name);
        }
        write_target_var(&mut out, "CFLAGS", &self.config.cflags, self.name.as_str());
        proof {
            acc = acc + target_var_text_v("CFLAGS"@, t.config.cflags, t.name);
        }
        write_target_var(&mut out, "LDFLAGS", &self.config.ldflags, self.name.as_str());
        proof {
            acc = acc + target_var_text_v("LDFLAGS"@, t.config.ldflags, t.name);
        }
        match &self.config.libs {
            Some(ls) => {
                write_target_name(&mut out, self.name.as_str());
                proof {
                    lemma_text_assoc(acc, t.name, ": "@);
                }
                out.append("LIBS=");
                proof {
                    lemma_text_assoc(acc, t.name + ": "@, "LIBS="@);
                }
                push_libs(&mut out, ls);
                proof {
                    lemma_text_assoc(acc, t.name + ": "@ + "LIBS="@, libs_text_v(deep_strs(ls@)));
                }
                nl(&mut out);
                proof {
                    lemma_text_assoc(
                        acc,
                        t.name + ": "@ + "LIBS="@ + libs_text_v(deep_strs(ls@)),
                        "\n"@,
                    );
                    acc = acc + target_libs_text_v(t);
                    assert(out@ == acc);
                }
            },
            None => {
                proof {
                    assert(acc + target_libs_text_v(t) =~= acc);
                    acc = acc + target_libs_text_v(t);
                }
            },
        }
        write_target_name(&mut out, self.name.as_str());
        proof {
            acc = acc + t.name + ": "@;
            assert(out@ =~= acc);
        }
        let dep: &str = match &self.config.exec_name {
            Some(e) => e.as_str(),
            None => "all",
        };
        out.append(dep);
        proof {
            acc = acc + target_dep_v(t);
            assert(out@ =~= acc);
        }
        nl(&mut out);
        proof {
            acc = acc + "\n"@;
            assert(out@ =~= acc);
            assert(acc =~= target_text_v(t));
        }
        out
    }
}

impl Config {
    /// The text of the whole generated build script: variables, object
    /// list, search paths, the fixed top-level rules, the compile rules
    /// of the chosen layout, and one fragment per target.
    pub fn write(&self) -> (r: String)
        ensures
            r@ == makefile_text_v(self.deep()),
    {
        let ghost c = self.deep();
        let mut out = String::new();
        push_vars(&mut out, self);
        let ghost mut acc = vars_text_v(c);
        proof {
            assert(out@ =~= acc);
        }
        push_objs(&mut out, self);
        proof {
            acc = acc + objs_text_v(c);
            assert(out@ =~= acc);
        }
        push_vpath(&mut out, self);
        proof {
            acc = acc + vpath_text_v(c);
            assert(out@ =~= acc);
        }
        push_boilerplate(&mut out);
        proof {
            acc = acc + boilerplate_text_v();
            assert(out@ =~= acc);
        }
        if self.flatten_output_layout {
            push_flat_rules(&mut out, self);
        } else {
            push_dir_rules(&mut out, self);
        }
        proof {
            acc = acc + rules_text_v(c);
            assert(out@ =~= acc);
        }
        let ghost parts = Seq::new(c.alt_targets.len(), |i: int| target_text_v(c.alt_targets[i]));
        let mut i: usize = 0;
        proof {
            assert(parts.take(0) =~= Seq::<Seq<char>>::empty());
            assert(out@ =~= acc + concat_texts(parts.take(0)));
        }
        while i < self.alt_targets.len()
            invariant
                i <= self.alt_targets@.len(),
                parts == Seq::new(
                    crate::config::deep_targets(self.alt_targets@).len(),
                    |k: int| target_text_v(crate::config::deep_targets(self.alt_targets@)[k]),
                ),
                acc == vars_text_v(self.deep()) + objs_text_v(self.deep()) + vpath_text_v(
                    self.deep(),
                ) + boilerplate_text_v() + rules_text_v(self.deep()),
                out@ == acc + concat_texts(parts.take(i as int)),
            decreases self.alt_targets@.len() - i,
        {
            let txt = self.alt_targets[i].write();
            out.append(txt.as_str());
            proof {
                lemma_concat_texts_take(parts, i as int);
                lemma_text_assoc(acc, concat_texts(parts.take(i as int)), parts[i as int]);
            }
            i = i + 1;
        }
        proof {
            assert(parts.take(self.alt_targets@.len() as int) =~= parts);
            assert(out@ =~= makefile_text_v(c));
        }
        out
    }
}


/// The whole resolution, at the level of the mathematical model: apply
/// the overrides, interpret the document, synthesize the text. `None`
/// stands for a run that an override or the reader aborted.
pub open spec fn resolve_text_v(doc: crate::node::NodeV, ovs: Seq<Seq<char>>) -> Option<
    Seq<char>,
> {
    let applied = crate::override_yaml::apply_from_v(doc, ovs, 0);
    if applied.1 is Some {
        None
    } else {
        match crate::config::read::read_config_v(applied.0) {
            Ok(c) => Some(makefile_text_v(c)),
            Err(_) => None,
        }
    }
}

/// Resolving twice with identical input yields byte-identical generated
/// output: the resolution is a function of the document tree and the
/// override list alone, and the executable pipeline is pinned to it by
/// the contracts of `Overrides::apply`, `Config::read` and
/// `Config::write`.
pub proof fn lemma_resolution_deterministic(
    doc1: crate::node::NodeV,
    ovs1: Seq<Seq<char>>,
    doc2: crate::node::NodeV,
    ovs2: Seq<Seq<char>>,
)
    requires
        doc1 == doc2,
        ovs1 == ovs2,
    ensures
        resolve_text_v(doc1, ovs1) == resolve_text_v(doc2, ovs2),
{
}

/// In the per-directory layout, two source directories with different
/// names key their object paths under different prefixes, so two
/// identically-named files in them cannot collide.
pub proof fn lemma_distinct_dirs_distinct_object_prefixes(sd1: SourceDirV, sd2: SourceDirV)
    requires
        sd1.dir != sd2.dir,
    ensures
        obj_prefix_v(sd1, false) != obj_prefix_v(sd2, false),
{
    if obj_prefix_v(sd1, false) == obj_prefix_v(sd2, false) {
        assert(sd1.dir + "/"@ == sd2.dir + "/"@);
        assert((sd1.dir + "/"@).len() == sd1.dir.len() + "/"@.len());
        assert((sd2.dir + "/"@).len() == sd2.dir.len() + "/"@.len());
        assert(sd1.dir.len() == sd2.dir.len());
        assert forall|i: int| 0 <= i < sd1.dir.len() implies sd1.dir[i] == sd2.dir[i] by {
            assert((sd1.dir + "/"@)[i] == sd1.dir[i]);
            assert((sd2.dir + "/"@)[i] == sd2.dir[i]);
        }
        assert(sd1.dir =~= sd2.dir);
    }
}

} // verus!
