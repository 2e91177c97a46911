//! The override engine: applies ordered textual point-overrides
//! (`path=value` strings) onto a document tree before interpretation.
//!
//! A path is a dot-separated list of segments; a segment is a plain
//! identifier (a mapping key), a non-negative integer literal (a
//! sequence index), or the literal `+` (append to a sequence). The
//! value is always inserted as a plain string: no coercion happens
//! here, typed interpretation is the reader's business.

use vstd::prelude::*;

use crate::node::{deep_entries, deep_list, deep_strs, lemma_deep_entries, lemma_deep_list,
    lookup_v, str_eq, Node, NodeV};
use crate::read_yaml::{add_context_v, handle_wrong_type_v, msg_v, type_name_v, ContextfulError,
    ContextfulErrorType, ContextfulErrorTypeV, ContextfulErrorV, yaml_type_name};

verus! {

broadcast use vstd::std_specs::vec::group_vec_axioms, vstd::seq::group_seq_axioms;

/// Whether a character is a decimal digit.
pub open spec fn is_digit(c: char) -> bool {
    48 <= c as u32 <= 57
}

/// The value of one decimal digit.
pub open spec fn digit_val(c: char) -> int {
    c as u32 - 48
}

/// Every character of the segment is a decimal digit.
pub open spec fn all_digits(s: Seq<char>) -> bool {
    forall|j: int| 0 <= j < s.len() ==> is_digit(#[trigger] s[j])
}

/// The value of a string of decimal digits.
pub open spec fn digits_val(s: Seq<char>) -> int
    decreases s.len(),
{
    if s.len() == 0 {
        0
    } else {
        digits_val(s.drop_last()) * 10 + digit_val(s.last())
    }
}

/// A digit string's value is non-negative.
pub proof fn lemma_digits_val_nonneg(s: Seq<char>)
    requires
        all_digits(s),
    ensures
        digits_val(s) >= 0,
    decreases s.len(),
{
    if s.len() > 0 {
        assert(all_digits(s.drop_last()));
        lemma_digits_val_nonneg(s.drop_last());
    }
}

/// A digit string's value dominates the value of each of its prefixes.
pub proof fn lemma_digits_val_mono(s: Seq<char>, i: int)
    requires
        all_digits(s),
        0 <= i <= s.len(),
    ensures
        digits_val(s.take(i)) <= digits_val(s),
    decreases s.len() - i,
{
    if i == s.len() {
        assert(s.take(i) =~= s);
    } else {
        assert(all_digits(s.drop_last()));
        lemma_digits_val_nonneg(s.drop_last());
        lemma_digits_val_mono(s.drop_last(), i);
        assert(s.drop_last().take(i) =~= s.take(i));
    }
}

/// The kind of one path segment.
pub enum SegKindV {
    /// The empty segment: always an error.
    Empty,
    /// The literal `+`: append to a sequence.
    Append,
    /// A non-negative integer literal: index into a sequence.
    Index(nat),
    /// A plain identifier: a mapping key.
    Key,
    /// Starts with a digit but is not an integer literal: an error.
    Bad,
}

/// Classify one path segment by its first character.
pub open spec fn classify_v(seg: Seq<char>) -> SegKindV {
    if seg.len() == 0 {
        SegKindV::Empty
    } else if seg[0] == '+' {
        SegKindV::Append
    } else if is_digit(seg[0]) {
        if all_digits(seg) {
            SegKindV::Index(digits_val(seg) as nat)
        } else {
            SegKindV::Bad
        }
    } else {
        SegKindV::Key
    }
}

/// Executable classification of a segment. An index too large for
/// `usize` is kept abstract: it can never land inside a sequence.
pub(crate) enum SegClass {
    Empty,
    Append,
    Index(usize),
    Huge,
    Key,
    Bad,
}

/// Classify one path segment.
pub(crate) fn classify_segment(seg: &str) -> (r: SegClass)
    ensures
        match r {
            SegClass::Empty => classify_v(seg@) == SegKindV::Empty,
            SegClass::Append => classify_v(seg@) == SegKindV::Append,
            SegClass::Index(n) => classify_v(seg@) == SegKindV::Index(n as nat),
            SegClass::Huge => classify_v(seg@) matches SegKindV::Index(m) && m > usize::MAX,
            SegClass::Key => classify_v(seg@) == SegKindV::Key,
            SegClass::Bad => classify_v(seg@) == SegKindV::Bad,
        },
{
    let n = seg.unicode_len();
    if n == 0 {
        return SegClass::Empty;
    }
    let c0 = seg.get_char(0);
    let u0 = c0 as u32;
    if c0 == '+' {
        return SegClass::Append;
    }
    if !(48 <= u0 && u0 <= 57) {
        return SegClass::Key;
    }
    let mut j: usize = 0;
    while j < n
        invariant
            n == seg@.len(),
            0 < n,
            seg@[0] != '+',
            is_digit(seg@[0]),
            j <= n,
            forall|k: int| 0 <= k < j ==> is_digit(#[trigger] seg@[k]),
        decreases n - j,
    {
        let u = seg.get_char(j) as u32;
        if !(48 <= u && u <= 57) {
            return SegClass::Bad;
        }
        j = j + 1;
    }
    let mut val: usize = 0;
    let mut i: usize = 0;
    while i < n
        invariant
            n == seg@.len(),
            0 < n,
            seg@[0] != '+',
            i <= n,
            all_digits(seg@),
            val == digits_val(seg@.take(i as int)),
        decreases n - i,
    {
        let u = seg.get_char(i) as u32;
        let d = (u - 48) as usize;
        proof {
            lemma_digits_val_nonneg(seg@.take(i as int));
        }
        if val > (usize::MAX - d) / 10 {
            proof {
                assert(seg@.take(i + 1).drop_last() =~= seg@.take(i as int));
                assert(seg@.take(i + 1).last() == seg@[i as int]);
                assert(val * 10 + d > usize::MAX) by (nonlinear_arith)
                    requires
                        val > (usize::MAX - d) / 10,
                        val >= 0,
                        0 <= d <= 9,
                {
                }
                assert(digits_val(seg@.take(i + 1)) > usize::MAX);
                lemma_digits_val_mono(seg@, i + 1);
            }
            return SegClass::Huge;
        }
        proof {
            assert(val * 10 + d <= usize::MAX) by (nonlinear_arith)
                requires
                    val <= (usize::MAX - d) / 10,
                    val >= 0,
                    0 <= d <= 9,
            {
            }
            assert(seg@.take(i + 1).drop_last() =~= seg@.take(i as int));
            assert(seg@.take(i + 1).last() == seg@[i as int]);
        }
        val = val * 10 + d;
        i = i + 1;
    }
    proof {
        assert(seg@.take(n as int) =~= seg@);
    }
    SegClass::Index(val)
}


/// An override-engine error with an empty breadcrumb.
pub open spec fn ov_err_v(kind: ContextfulErrorTypeV) -> ContextfulErrorV {
    ContextfulErrorV { err: kind, context: Seq::empty() }
}

/// An override-engine error with an empty breadcrumb.
fn ov_err(kind: ContextfulErrorType) -> (r: ContextfulError)
    ensures
        r.deep() == ov_err_v(kind.deep()),
{
    ContextfulError::_with_context(kind, String::new())
}

/// A kind-conflict error: the path segment expects `expected`, the
/// existing node is `got`.
pub open spec fn conflict_v(expected: Seq<char>, got: NodeV) -> ContextfulErrorV {
    ov_err_v(ContextfulErrorTypeV::TypeConflict(expected, type_name_v(got)))
}

/// A kind-conflict error for an existing node of the wrong kind.
fn conflict(expected: &'static str, got: &Node) -> (r: ContextfulError)
    ensures
        r.deep() == conflict_v(expected@, got.deep()),
{
    ov_err(ContextfulErrorType::TypeConflict(expected, yaml_type_name(got)))
}

/// Write `v` under `key`: the first entry with that key is replaced in
/// place, a missing key is appended at the end.
pub open spec fn set_key_v(
    entries: Seq<(Seq<char>, NodeV)>,
    key: Seq<char>,
    v: NodeV,
) -> Seq<(Seq<char>, NodeV)>
    decreases entries.len(),
{
    if entries.len() == 0 {
        seq![(key, v)]
    } else if entries[0].0 == key {
        seq![(key, v)] + entries.drop_first()
    } else {
        seq![entries[0]] + set_key_v(entries.drop_first(), key, v)
    }
}

/// Where the first matching entry sits at `k`, `set_key_v` is an update
/// at `k`; where no entry matches, it is a push.
pub proof fn lemma_set_key_at(entries: Seq<(Seq<char>, NodeV)>, key: Seq<char>, v: NodeV, k: int)
    requires
        0 <= k <= entries.len(),
        forall|j: int| 0 <= j < k ==> entries[j].0 != key,
        k < entries.len() ==> entries[k].0 == key,
    ensures
        k < entries.len() ==> set_key_v(entries, key, v) == entries.update(k, (key, v)),
        k == entries.len() ==> set_key_v(entries, key, v) == entries.push((key, v)),
    decreases k,
{
    if entries.len() == 0 {
        assert(set_key_v(entries, key, v) =~= entries.push((key, v)));
    } else if k == 0 {
        if k < entries.len() {
            assert(seq![(key, v)] + entries.drop_first() =~= entries.update(0, (key, v)));
        }
    } else {
        lemma_set_key_at(entries.drop_first(), key, v, k - 1);
        if k < entries.len() {
            assert(seq![entries[0]] + entries.drop_first().update(k - 1, (key, v)) =~= entries.update(
                k,
                (key, v),
            ));
        } else {
            assert(seq![entries[0]] + entries.drop_first().push((key, v)) =~= entries.push(
                (key, v),
            ));
        }
    }
}

/// The scalar a final path segment writes: always a plain string.
pub fn create_value(value: &str) -> (r: Node)
    ensures
        r.deep() == NodeV::Str(value@),
{
    Node::Str(value.to_owned())
}

/// Synthesize the remaining path `segs[i..]` as a fresh subtree,
/// bottom-up: the innermost segment holds the scalar value, each
/// enclosing identifier wraps it in a one-entry mapping, each enclosing
/// integer or `+` in a one-element sequence.
pub open spec fn construct_v(segs: Seq<Seq<char>>, i: int, value: Seq<char>) -> Result<
    NodeV,
    ContextfulErrorV,
>
    decreases segs.len() - i,
{
    if i >= segs.len() {
        Ok(NodeV::Str(value))
    } else {
        match classify_v(segs[i]) {
            SegKindV::Empty => Err(ov_err_v(ContextfulErrorTypeV::EmptyPathSegment)),
            SegKindV::Bad => Err(ov_err_v(ContextfulErrorTypeV::MalformedIndex)),
            SegKindV::Append | SegKindV::Index(_) => match construct_v(segs, i + 1, value) {
                Ok(child) => Ok(NodeV::Sequence(seq![child])),
                Err(e) => Err(e),
            },
            SegKindV::Key => match construct_v(segs, i + 1, value) {
                Ok(child) => Ok(NodeV::Mapping(seq![(segs[i], child)])),
                Err(e) => Err(e),
            },
        }
    }
}

/// Synthesize the remaining path as a fresh subtree.
pub(crate) fn construct_from_path(segs: &Vec<String>, i: usize, value: &str) -> (r: Result<
    Node,
    ContextfulError,
>)
    requires
        i <= segs@.len(),
    ensures
        match r {
            Ok(n) => construct_v(deep_strs(segs@), i as int, value@) == Ok::<_, ContextfulErrorV>(
                n.deep(),
            ),
            Err(e) => construct_v(deep_strs(segs@), i as int, value@) == Err::<NodeV, _>(e.deep()),
        },
    decreases segs@.len() - i,
{
    if i == segs.len() {
        return Ok(create_value(value));
    }
    match classify_segment(segs[i].as_str()) {
        SegClass::Empty => Err(ov_err(ContextfulErrorType::EmptyPathSegment)),
        SegClass::Bad => Err(ov_err(ContextfulErrorType::MalformedIndex)),
        SegClass::Append | SegClass::Index(_) | SegClass::Huge => {
            match construct_from_path(segs, i + 1, value) {
                Ok(child) => {
                    let ghost child_v = child.deep();
                    let mut items: Vec<Node> = Vec::new();
                    items.push(child);
                    proof {
                        lemma_deep_list(items@);
                        assert(deep_list(items@) =~= seq![child_v]);
                    }
                    Ok(Node::Sequence(items))
                },
                Err(e) => Err(e),
            }
        },
        SegClass::Key => {
            match construct_from_path(segs, i + 1, value) {
                Ok(child) => {
                    let ghost child_v = child.deep();
                    let mut entries: Vec<(String, Node)> = Vec::new();
                    entries.push((segs[i].clone(), child));
                    proof {
                        lemma_deep_entries(entries@);
                        assert(deep_entries(entries@) =~= seq![(deep_strs(segs@)[i as int], child_v)]);
                    }
                    Ok(Node::Mapping(entries))
                },
                Err(e) => Err(e),
            }
        },
    }
}


/// Find the first entry whose key is `key`.
pub(crate) fn find_key(entries: &Vec<(String, Node)>, key: &str) -> (r: Option<usize>)
    ensures
        match r {
            Some(k) => k < entries@.len() && entries@[k as int].0@ == key@ && forall|j: int|
                0 <= j < k ==> entries@[j].0@ != key@,
            None => forall|j: int| 0 <= j < entries@.len() ==> entries@[j].0@ != key@,
        },
{
    let mut i: usize = 0;
    while i < entries.len()
        invariant
            i <= entries@.len(),
            forall|j: int| 0 <= j < i ==> entries@[j].0@ != key@,
        decreases entries@.len() - i,
    {
        if str_eq(entries[i].0.as_str(), key) {
            return Some(i);
        }
        i = i + 1;
    }
    None
}

/// Apply the rest of the path `segs[i..]` to `node` and return the
/// edited tree: the final segment writes the plain string `value`; a
/// missing location is synthesized whole; an existing location must
/// match the segment kind.
pub open spec fn traverse_v(node: NodeV, segs: Seq<Seq<char>>, i: int, value: Seq<char>) -> Result<
    NodeV,
    ContextfulErrorV,
>
    decreases segs.len() - i,
{
    if i >= segs.len() {
        Ok(node)
    } else {
        let last = i == segs.len() - 1;
        match classify_v(segs[i]) {
            SegKindV::Empty => Err(ov_err_v(ContextfulErrorTypeV::EmptyPathSegment)),
            SegKindV::Bad => Err(ov_err_v(ContextfulErrorTypeV::MalformedIndex)),
            SegKindV::Append => match node {
                NodeV::Sequence(items) => match construct_v(segs, i + 1, value) {
                    Ok(child) => Ok(NodeV::Sequence(items.push(child))),
                    Err(e) => Err(e),
                },
                _ => Err(conflict_v("list (aka array)"@, node)),
            },
            SegKindV::Index(n) => match node {
                NodeV::Sequence(items) => if last {
                    if n < items.len() {
                        Ok(NodeV::Sequence(items.update(n as int, NodeV::Str(value))))
                    } else if n == items.len() {
                        Ok(NodeV::Sequence(items.push(NodeV::Str(value))))
                    } else {
                        Err(ov_err_v(ContextfulErrorTypeV::IndexOutOfRange))
                    }
                } else {
                    if n < items.len() {
                        match traverse_v(items[n as int], segs, i + 1, value) {
                            Ok(child) => Ok(NodeV::Sequence(items.update(n as int, child))),
                            Err(e) => Err(e),
                        }
                    } else {
                        Err(ov_err_v(ContextfulErrorTypeV::IndexOutOfRange))
                    }
                },
                _ => Err(conflict_v("list (aka array)"@, node)),
            },
            SegKindV::Key => match node {
                NodeV::Mapping(entries) => {
                    let sub = if last {
                        Ok(NodeV::Str(value))
                    } else {
                        match lookup_v(entries, segs[i]) {
                            None => construct_v(segs, i + 1, value),
                            Some(child0) => traverse_v(child0, segs, i + 1, value),
                        }
                    };
                    match sub {
                        Ok(child) => Ok(NodeV::Mapping(set_key_v(entries, segs[i], child))),
                        Err(e) => Err(e),
                    }
                },
                _ => Err(conflict_v("table (aka hash)"@, node)),
            },
        }
    }
}

/// Apply the rest of the path to an owned tree. The edited tree comes
/// back in the first component; on error the second component holds the
/// error and the tree comes back unchanged.
pub(crate) fn traverse_path(data: Node, segs: &Vec<String>, i: usize, value: &str) -> (r: (
    Node,
    Option<ContextfulError>,
))
    requires
        i < segs@.len(),
    ensures
        match traverse_v(data.deep(), deep_strs(segs@), i as int, value@) {
            Ok(d2) => r.1 is None && r.0.deep() == d2,
            Err(e) => (r.1 matches Some(err) && err.deep() == e && r.0.deep() == data.deep()),
        },
    decreases segs@.len() - i,
{
    let ghost segs_v = deep_strs(segs@);
    let n_segs = segs.len();
    let last = i + 1 == n_segs;
    match classify_segment(segs[i].as_str()) {
        SegClass::Empty => {
            let e = ov_err(ContextfulErrorType::EmptyPathSegment);
            (data, Some(e))
        },
        SegClass::Bad => {
            let e = ov_err(ContextfulErrorType::MalformedIndex);
            (data, Some(e))
        },
        SegClass::Append => match data {
            Node::Sequence(mut items) => match construct_from_path(segs, i + 1, value) {
                Ok(child) => {
                    let ghost child_v = child.deep();
                    let ghost old_items = items@;
                    items.push(child);
                    proof {
                        lemma_deep_list(old_items);
                        lemma_deep_list(items@);
                        assert(deep_list(items@) =~= deep_list(old_items).push(child_v));
                    }
                    (Node::Sequence(items), None)
                },
                Err(e) => (Node::Sequence(items), Some(e)),
            },
            other => {
                let e = conflict("list (aka array)", &other);
                (other, Some(e))
            },
        },
        SegClass::Huge => match data {
            Node::Sequence(items) => {
                let e = ov_err(ContextfulErrorType::IndexOutOfRange);
                let len = items.len();
                proof {
                    lemma_deep_list(items@);
                }
                (Node::Sequence(items), Some(e))
            },
            other => {
                let e = conflict("list (aka array)", &other);
                (other, Some(e))
            },
        },
        SegClass::Index(n) => match data {
            Node::Sequence(mut items) => {
                let len = items.len();
                proof {
                    lemma_deep_list(items@);
                }
                if last {
                    if n < len {
                        let ghost old_items = items@;
                        let _removed = items.remove(n);
                        items.insert(n, create_value(value));
                        proof {
                            assert(items@ =~= old_items.update(n as int, items@[n as int]));
                            lemma_deep_list(old_items);
                            lemma_deep_list(items@);
                            assert(deep_list(items@) =~= deep_list(old_items).update(
                                n as int,
                                NodeV::Str(value@),
                            ));
                        }
                        (Node::Sequence(items), None)
                    } else if n == len {
                        let ghost old_items = items@;
                        items.push(create_value(value));
                        proof {
                            lemma_deep_list(old_items);
                            lemma_deep_list(items@);
                            assert(deep_list(items@) =~= deep_list(old_items).push(
                                NodeV::Str(value@),
                            ));
                        }
                        (Node::Sequence(items), None)
                    } else {
                        let e = ov_err(ContextfulErrorType::IndexOutOfRange);
                        (Node::Sequence(items), Some(e))
                    }
                } else {
                    if n < len {
                        let ghost old_items = items@;
                        let child0 = items.remove(n);
                        let (child, err) = traverse_path(child0, segs, i + 1, value);
                        let ghost child_v = child.deep();
                        items.insert(n, child);
                        proof {
                            assert(items@ =~= old_items.update(n as int, items@[n as int]));
                            lemma_deep_list(old_items);
                            lemma_deep_list(items@);
                            assert(deep_list(items@) =~= deep_list(old_items).update(
                                n as int,
                                child_v,
                            ));
                        }
                        match err {
                            None => (Node::Sequence(items), None),
                            Some(e) => {
                                proof {
                                    assert(deep_list(items@) =~= deep_list(old_items));
                                }
                                (Node::Sequence(items), Some(e))
                            },
                        }
                    } else {
                        let e = ov_err(ContextfulErrorType::IndexOutOfRange);
                        (Node::Sequence(items), Some(e))
                    }
                }
            },
            other => {
                let e = conflict("list (aka array)", &other);
                (other, Some(e))
            },
        },
        SegClass::Key => match data {
            Node::Mapping(mut entries) => {
                let ghost old_entries = entries@;
                let ghost entries_v = deep_entries(entries@);
                let ghost key_v = segs@[i as int]@;
                let idx = find_key(&entries, segs[i].as_str());
                proof {
                    lemma_deep_entries(old_entries);
                    match idx {
                        Some(k) => lemma_lookup_from_keys(entries_v, key_v, k as int),
                        None => lemma_lookup_from_keys(entries_v, key_v, entries_v.len() as int),
                    }
                }
                if last {
                    match idx {
                        Some(k) => {
                            let _removed = entries.remove(k);
                            entries.insert(k, (segs[i].clone(), create_value(value)));
                            proof {
                                assert(entries@ =~= old_entries.update(k as int, entries@[k as int]));
                                lemma_deep_entries(entries@);
                                assert(deep_entries(entries@) =~= entries_v.update(
                                    k as int,
                                    (key_v, NodeV::Str(value@)),
                                ));
                                lemma_set_key_at(entries_v, key_v, NodeV::Str(value@), k as int);
                            }
                            (Node::Mapping(entries), None)
                        },
                        None => {
                            entries.push((segs[i].clone(), create_value(value)));
                            proof {
                                lemma_deep_entries(entries@);
                                assert(deep_entries(entries@) =~= entries_v.push(
                                    (key_v, NodeV::Str(value@)),
                                ));
                                lemma_set_key_at(
                                    entries_v,
                                    key_v,
                                    NodeV::Str(value@),
                                    entries_v.len() as int,
                                );
                            }
                            (Node::Mapping(entries), None)
                        },
                    }
                } else {
                    match idx {
                        None => match construct_from_path(segs, i + 1, value) {
                            Ok(child) => {
                                let ghost child_v = child.deep();
                                entries.push((segs[i].clone(), child));
                                proof {
                                    lemma_deep_entries(entries@);
                                    assert(deep_entries(entries@) =~= entries_v.push(
                                        (key_v, child_v),
                                    ));
                                    lemma_set_key_at(
                                        entries_v,
                                        key_v,
                                        child_v,
                                        entries_v.len() as int,
                                    );
                                }
                                (Node::Mapping(entries), None)
                            },
                            Err(e) => (Node::Mapping(entries), Some(e)),
                        },
                        Some(k) => {
                            let pair = entries.remove(k);
                            let ghost child0_v = pair.1.deep();
                            let (child, err) = traverse_path(pair.1, segs, i + 1, value);
                            let ghost child_v = child.deep();
                            match err {
                                None => {
                                    entries.insert(k, (segs[i].clone(), child));
                                    proof {
                                        assert(entries@ =~= old_entries.update(
                                            k as int,
                                            entries@[k as int],
                                        ));
                                        lemma_deep_entries(entries@);
                                        assert(deep_entries(entries@) =~= entries_v.update(
                                            k as int,
                                            (key_v, child_v),
                                        ));
                                        lemma_set_key_at(entries_v, key_v, child_v, k as int);
                                    }
                                    (Node::Mapping(entries), None)
                                },
                                Some(e) => {
                                    entries.insert(k, (pair.0, child));
                                    proof {
                                        assert(entries@ =~= old_entries.update(
                                            k as int,
                                            entries@[k as int],
                                        ));
                                        lemma_deep_entries(entries@);
                                        assert(deep_entries(entries@) =~= entries_v);
                                    }
                                    (Node::Mapping(entries), Some(e))
                                },
                            }
                        },
                    }
                }
            },
            other => {
                let e = conflict("table (aka hash)", &other);
                (other, Some(e))
            },
        },
    }
}

/// Restate `lemma_lookup_from` over a first-match position: a scan that
/// saw no match among the first `k` keys settles the lookup at `k`.
pub proof fn lemma_lookup_from_keys(entries: Seq<(Seq<char>, NodeV)>, key: Seq<char>, k: int)
    requires
        0 <= k <= entries.len(),
        forall|j: int| 0 <= j < k ==> entries[j].0 != key,
    ensures
        k == entries.len() ==> lookup_v(entries, key) is None,
        k < entries.len() && entries[k].0 == key ==> lookup_v(entries, key) == Some(entries[k].1),
{
    crate::node::lemma_lookup_from(entries, key, k);
}


/// Split at the first occurrence of `c`: the text before it and the
/// text after it, or nothing when `c` does not occur.
pub open spec fn split_once_v(s: Seq<char>, c: char) -> Option<(Seq<char>, Seq<char>)>
    decreases s.len(),
{
    if s.len() == 0 {
        None
    } else if s[0] == c {
        Some((Seq::empty(), s.drop_first()))
    } else {
        match split_once_v(s.drop_first(), c) {
            None => None,
            Some(parts) => Some((seq![s[0]] + parts.0, parts.1)),
        }
    }
}

/// Split into the segments between occurrences of `c`: always at least
/// one segment, and empty segments are kept.
pub open spec fn split_char_v(s: Seq<char>, c: char) -> Seq<Seq<char>>
    decreases s.len(),
{
    if s.len() == 0 {
        seq![Seq::<char>::empty()]
    } else {
        let rest = split_char_v(s.drop_first(), c);
        if s[0] == c {
            seq![Seq::<char>::empty()] + rest
        } else {
            seq![seq![s[0]] + rest[0]] + rest.drop_first()
        }
    }
}

/// A split yields at least one segment.
pub proof fn lemma_split_char_len(s: Seq<char>, c: char)
    ensures
        split_char_v(s, c).len() >= 1,
    decreases s.len(),
{
    if s.len() > 0 {
        lemma_split_char_len(s.drop_first(), c);
    }
}

/// The first occurrence of `c` settles `split_once_v`.
pub proof fn lemma_split_once_at(s: Seq<char>, c: char, p: int)
    requires
        0 <= p <= s.len(),
        forall|j: int| 0 <= j < p ==> s[j] != c,
        p < s.len() ==> s[p] == c,
    ensures
        p == s.len() ==> split_once_v(s, c) is None,
        p < s.len() ==> split_once_v(s, c) == Some(
            (s.subrange(0, p), s.subrange(p + 1, s.len() as int)),
        ),
    decreases p,
{
    if s.len() == 0 {
    } else if p == 0 {
        if p < s.len() {
            assert(s.drop_first() =~= s.subrange(1, s.len() as int));
            assert(Seq::<char>::empty() =~= s.subrange(0, 0));
        }
    } else {
        lemma_split_once_at(s.drop_first(), c, p - 1);
        if p < s.len() {
            assert(seq![s[0]] + s.drop_first().subrange(0, p - 1) =~= s.subrange(0, p));
            assert(s.drop_first().subrange(p, s.drop_first().len() as int) =~= s.subrange(
                p + 1,
                s.len() as int,
            ));
        }
    }
}

/// The first occurrence of `c` settles the head of `split_char_v`.
pub proof fn lemma_split_char_first(s: Seq<char>, c: char, p: int)
    requires
        0 <= p <= s.len(),
        forall|j: int| 0 <= j < p ==> s[j] != c,
        p < s.len() ==> s[p] == c,
    ensures
        p == s.len() ==> split_char_v(s, c) == seq![s],
        p < s.len() ==> split_char_v(s, c) == seq![s.subrange(0, p)] + split_char_v(
            s.subrange(p + 1, s.len() as int),
            c,
        ),
    decreases p,
{
    if s.len() == 0 {
        assert(s =~= Seq::<char>::empty());
        assert(split_char_v(s, c) =~= seq![s]);
    } else if p == 0 {
        if p < s.len() {
            assert(s.drop_first() =~= s.subrange(1, s.len() as int));
            assert(s.subrange(0, 0) =~= Seq::<char>::empty());
            assert(seq![Seq::<char>::empty()] + split_char_v(s.drop_first(), c) =~= seq![
                s.subrange(0, 0),
            ] + split_char_v(s.subrange(1, s.len() as int), c));
        }
    } else {
        lemma_split_char_first(s.drop_first(), c, p - 1);
        lemma_split_char_len(s.drop_first(), c);
        if p == s.len() {
            assert(seq![s[0]] + s.drop_first() =~= s);
            assert(split_char_v(s.drop_first(), c)[0] == s.drop_first());
            assert(split_char_v(s.drop_first(), c).drop_first() =~= Seq::<Seq<char>>::empty());
            assert(split_char_v(s, c) =~= seq![s]);
        } else {
            let d = s.drop_first();
            let tail = split_char_v(d.subrange(p, d.len() as int), c);
            assert(split_char_v(d, c) == seq![d.subrange(0, p - 1)] + tail);
            assert(seq![s[0]] + d.subrange(0, p - 1) =~= s.subrange(0, p));
            assert(d.subrange(p, d.len() as int) =~= s.subrange(p + 1, s.len() as int));
            assert((seq![d.subrange(0, p - 1)] + tail).drop_first() =~= tail);
            assert((seq![d.subrange(0, p - 1)] + tail)[0] == d.subrange(0, p - 1));
            assert(split_char_v(s, c) =~= seq![s.subrange(0, p)] + tail);
        }
    }
}

/// The index of the first occurrence of `c` in `s` at or after `start`,
/// or the length of `s` when there is none.
fn find_char_from(s: &str, c: char, start: usize) -> (r: usize)
    requires
        start <= s@.len(),
    ensures
        start <= r <= s@.len(),
        forall|j: int| start <= j < r ==> s@[j] != c,
        r < s@.len() ==> s@[r as int] == c,
{
    let n = s.unicode_len();
    let mut j = start;
    while j < n
        invariant
            n == s@.len(),
            start <= j <= n,
            forall|k: int| start <= k < j ==> s@[k] != c,
        decreases n - j,
    {
        if s.get_char(j) == c {
            return j;
        }
        j = j + 1;
    }
    n
}

/// Split at the first `c`, as owned strings.
fn split_once_char(s: &str, c: char) -> (r: Option<(String, String)>)
    ensures
        match r {
            Some(p) => split_once_v(s@, c) == Some((p.0@, p.1@)),
            None => split_once_v(s@, c) is None,
        },
{
    let n = s.unicode_len();
    let p = find_char_from(s, c, 0);
    proof {
        lemma_split_once_at(s@, c, p as int);
    }
    if p == n {
        return None;
    }
    let a = s.substring_char(0, p).to_owned();
    let b = s.substring_char(p + 1, n).to_owned();
    Some((a, b))
}

/// Split a path into its dot-separated segments.
fn split_path(path: &str) -> (r: Vec<String>)
    ensures
        deep_strs(r@) == split_char_v(path@, '.'),
        r@.len() >= 1,
{
    let n = path.unicode_len();
    let mut segs: Vec<String> = Vec::new();
    let mut start: usize = 0;
    proof {
        assert(path@.subrange(0, n as int) =~= path@);
        assert(deep_strs(segs@) =~= Seq::<Seq<char>>::empty());
    }
    loop
        invariant
            n == path@.len(),
            start <= n,
            split_char_v(path@, '.') =~= deep_strs(segs@) + split_char_v(
                path@.subrange(start as int, n as int),
                '.',
            ),
        decreases n - start,
    {
        let j = find_char_from(path, '.', start);
        let piece = path.substring_char(start, j).to_owned();
        let ghost old_segs = segs@;
        segs.push(piece);
        let ghost rem = path@.subrange(start as int, n as int);
        proof {
            lemma_split_char_first(rem, '.', j - start);
            assert(rem.subrange(0, j - start) =~= path@.subrange(start as int, j as int));
            assert(deep_strs(segs@) =~= deep_strs(old_segs).push(path@.subrange(
                start as int,
                j as int,
            )));
        }
        if j == n {
            proof {
                assert(rem =~= path@.subrange(start as int, j as int));
                assert(deep_strs(segs@) =~= deep_strs(old_segs) + seq![rem]);
                lemma_split_char_len(path@, '.');
            }
            return segs;
        }
        proof {
            assert(rem.subrange(j - start + 1, rem.len() as int) =~= path@.subrange(
                j + 1,
                n as int,
            ));
            assert(deep_strs(segs@) + split_char_v(path@.subrange(j + 1, n as int), '.') =~= (
            deep_strs(old_segs) + seq![rem.subrange(0, j - start)]) + split_char_v(
                rem.subrange(j - start + 1, rem.len() as int),
                '.',
            ));
        }
        start = j + 1;
    }
}

/// The tree that one `path=value` edit turns `doc` into, or the error
/// that aborts it; the tree is unchanged on error.
pub open spec fn override_property_v(doc: NodeV, path: Seq<char>, value: Seq<char>) -> Result<
    NodeV,
    ContextfulErrorV,
> {
    traverse_v(doc, split_char_v(path, '.'), 0, value)
}

/// Apply one `path=value` edit to the tree in place: on error the tree
/// is left unchanged.
pub fn override_property(data: &mut Node, path: &str, value: &str) -> (r: Result<
    (),
    ContextfulError,
>)
    ensures
        match override_property_v(old(data).deep(), path@, value@) {
            Ok(d2) => r is Ok && final(data).deep() == d2,
            Err(e) => (r matches Err(err) && err.deep() == e && final(data).deep() == old(
                data,
            ).deep()),
        },
{
    let segs = split_path(path);
    let mut cur = Node::Bad;
    core::mem::swap(data, &mut cur);
    let (tree, err) = traverse_path(cur, &segs, 0, value);
    *data = tree;
    match err {
        None => Ok(()),
        Some(e) => Err(e),
    }
}

/// The outcome of one override string: splitting it at the first `=`
/// and editing the tree, with the override named in the error context.
pub open spec fn apply_one_v(doc: NodeV, ov: Seq<char>) -> Result<NodeV, ContextfulErrorV> {
    match split_once_v(ov, '=') {
        None => Err(
            add_context_v(
                msg_v("Config override syntax is `path=value`"@),
                "In property override "@ + ov,
            ),
        ),
        Some(parts) => match override_property_v(doc, parts.0, parts.1) {
            Ok(d2) => Ok(d2),
            Err(e) => Err(add_context_v(e, "In property override "@ + ov)),
        },
    }
}

/// The tree after applying the overrides `ovs[i..]` in order, and the
/// error that stopped the run, if one did: the tree reflects exactly
/// the overrides before the failing one.
pub open spec fn apply_from_v(doc: NodeV, ovs: Seq<Seq<char>>, i: int) -> (
    NodeV,
    Option<ContextfulErrorV>,
)
    decreases ovs.len() - i,
{
    if i >= ovs.len() {
        (doc, None)
    } else {
        match apply_one_v(doc, ovs[i]) {
            Ok(d2) => apply_from_v(d2, ovs, i + 1),
            Err(e) => (doc, Some(e)),
        }
    }
}

/// Applying zero overrides is a no-op on the document tree.
pub proof fn lemma_apply_no_overrides(doc: NodeV)
    ensures
        apply_from_v(doc, Seq::empty(), 0) == (doc, None::<ContextfulErrorV>),
{
}

/// An ordered list of `path=value` overrides, applied to the document
/// tree in list order before any typed interpretation.
#[derive(Debug, Clone)]
pub struct Overrides {
    pub overrides: Vec<String>,
}

impl Overrides {
    /// An empty override list.
    pub fn new() -> (r: Overrides)
        ensures
            r.overrides@.len() == 0,
    {
        Overrides { overrides: Vec::new() }
    }

    /// Append one override string.
    pub fn add(&mut self, ov: String)
        ensures
            final(self).overrides@ == old(self).overrides@.push(ov),
    {
        self.overrides.push(ov)
    }

    /// Apply the overrides to the tree, in order: the first failing
    /// override stops the run, and the tree then reflects exactly the
    /// overrides before it.
    pub fn apply(&self, data: &mut Node) -> (r: Result<(), ContextfulError>)
        ensures
            final(data).deep() == apply_from_v(
                old(data).deep(),
                deep_strs(self.overrides@),
                0,
            ).0,
            (r is Ok <==> apply_from_v(old(data).deep(), deep_strs(self.overrides@), 0).1
                is None),
            r matches Err(e) ==> apply_from_v(old(data).deep(), deep_strs(self.overrides@), 0).1
                == Some(e.deep()),
    {
        let ghost ovs = deep_strs(self.overrides@);
        let mut i: usize = 0;
        while i < self.overrides.len()
            invariant
                ovs == deep_strs(self.overrides@),
                i <= self.overrides@.len(),
                apply_from_v(old(data).deep(), ovs, 0) == apply_from_v(data.deep(), ovs, i as int),
            decreases self.overrides@.len() - i,
        {
            let ov = &self.overrides[i];
            match split_once_char(ov.as_str(), '=') {
                None => {
                    let mut ctx = "In property override ".to_owned();
                    ctx.append(ov.as_str());
                    let e = ContextfulError::from_msg(
                        "Config override syntax is `path=value`",
                    ).add_context(ctx);
                    return Err(e);
                },
                Some(parts) => {
                    match override_property(data, parts.0.as_str(), parts.1.as_str()) {
                        Ok(_) => {},
                        Err(e0) => {
                            let mut ctx = "In property override ".to_owned();
                            ctx.append(ov.as_str());
                            let e = e0.add_context(ctx);
                            return Err(e);
                        },
                    }
                },
            }
            i = i + 1;
        }
        Ok(())
    }
}

impl Default for Overrides {
    /// An empty override list.
    fn default() -> (r: Overrides)
        ensures
            r.overrides@.len() == 0,
    {
        Overrides::new()
    }
}

} // verus!
