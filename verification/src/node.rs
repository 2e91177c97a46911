//! The document tree: a generic parsed configuration value (scalars,
//! sequences, mappings), together with its mathematical view.

use vstd::prelude::*;

verus! {

broadcast use vstd::std_specs::vec::group_vec_axioms, vstd::seq::group_seq_axioms;

/// Mathematical model of a document-tree value. Mappings are ordered
/// sequences of key/value pairs: insertion order is significant.
pub enum NodeV {
    Str(Seq<char>),
    Int(int),
    Bool(bool),
    Null,
    Sequence(Seq<NodeV>),
    Mapping(Seq<(Seq<char>, NodeV)>),
    Bad,
}

/// A document-tree value: string | integer | boolean | null | sequence
/// | mapping (string keys, insertion-ordered) | error value.
#[derive(Debug)]
pub enum Node {
    Str(String),
    Int(i64),
    Bool(bool),
    Null,
    Sequence(Vec<Node>),
    Mapping(Vec<(String, Node)>),
    Bad,
}

impl Node {
    /// The mathematical value of this tree.
    pub open spec fn deep(self) -> NodeV
        decreases self,
    {
        match self {
            Node::Str(s) => NodeV::Str(s@),
            Node::Int(i) => NodeV::Int(i as int),
            Node::Bool(b) => NodeV::Bool(b),
            Node::Null => NodeV::Null,
            Node::Sequence(v) => NodeV::Sequence(deep_list(v@)),
            Node::Mapping(v) => NodeV::Mapping(deep_entries(v@)),
            Node::Bad => NodeV::Bad,
        }
    }
}

/// The mathematical values of a sequence of trees.
pub open spec fn deep_list(s: Seq<Node>) -> Seq<NodeV>
    decreases s,
{
    if s.len() == 0 {
        Seq::empty()
    } else {
        seq![s[0].deep()] + deep_list(s.drop_first())
    }
}

/// The mathematical values of a sequence of mapping entries.
pub open spec fn deep_entries(s: Seq<(String, Node)>) -> Seq<(Seq<char>, NodeV)>
    decreases s,
{
    if s.len() == 0 {
        Seq::empty()
    } else {
        seq![(s[0].0@, s[0].1.deep())] + deep_entries(s.drop_first())
    }
}

/// `deep_list` maps the sequence element by element.
pub proof fn lemma_deep_list(s: Seq<Node>)
    ensures
        deep_list(s).len() == s.len(),
        forall|i: int| 0 <= i < s.len() ==> deep_list(s)[i] == s[i].deep(),
    decreases s,
{
    if s.len() > 0 {
        lemma_deep_list(s.drop_first());
    }
}

/// `deep_entries` maps the sequence entry by entry.
pub proof fn lemma_deep_entries(s: Seq<(String, Node)>)
    ensures
        deep_entries(s).len() == s.len(),
        forall|i: int|
            0 <= i < s.len() ==> deep_entries(s)[i] == (s[i].0@, s[i].1.deep()),
    decreases s,
{
    if s.len() > 0 {
        lemma_deep_entries(s.drop_first());
    }
}

/// The character views of a sequence of strings.
pub open spec fn deep_strs(s: Seq<String>) -> Seq<Seq<char>> {
    Seq::new(s.len(), |i: int| s[i]@)
}

/// The value under the first entry of `entries` whose key is `key`.
pub open spec fn lookup_v(entries: Seq<(Seq<char>, NodeV)>, key: Seq<char>) -> Option<NodeV>
    decreases entries.len(),
{
    if entries.len() == 0 {
        None
    } else if entries[0].0 == key {
        Some(entries[0].1)
    } else {
        lookup_v(entries.drop_first(), key)
    }
}

/// A first-match scan settles `lookup_v`: if no key among the first `i`
/// entries matches, the lookup is decided by the remaining entries.
pub proof fn lemma_lookup_from(entries: Seq<(Seq<char>, NodeV)>, key: Seq<char>, i: int)
    requires
        0 <= i <= entries.len(),
        forall|j: int| 0 <= j < i ==> entries[j].0 != key,
    ensures
        lookup_v(entries, key) == lookup_v(entries.subrange(i, entries.len() as int), key),
    decreases i,
{
    if i > 0 {
        lemma_lookup_from(entries.drop_first(), key, i - 1);
        assert(entries.drop_first().subrange(i - 1, entries.drop_first().len() as int)
            =~= entries.subrange(i, entries.len() as int));
    } else {
        assert(entries.subrange(0, entries.len() as int) =~= entries);
    }
}

/// Two strings are equal exactly when their character views are.
pub fn str_eq(a: &str, b: &str) -> (r: bool)
    ensures
        r == (a@ == b@),
{
    let alen = a.unicode_len();
    let blen = b.unicode_len();
    if alen != blen {
        return false;
    }
    let mut i: usize = 0;
    while i < alen
        invariant
            alen == a@.len(),
            alen == b@.len(),
            i <= alen,
            forall|j: int| 0 <= j < i ==> a@[j] == b@[j],
        decreases alen - i,
    {
        if a.get_char(i) != b.get_char(i) {
            return false;
        }
        i = i + 1;
    }
    proof {
        assert(a@ =~= b@);
    }
    true
}

/// The value under `key` in a mapping's entry list: the first entry with
/// that key wins.
pub fn get_data<'a>(data: &'a Vec<(String, Node)>, key: &str) -> (r: Option<&'a Node>)
    ensures
        match r {
            Some(n) => lookup_v(deep_entries(data@), key@) == Some(n.deep()),
            None => lookup_v(deep_entries(data@), key@) is None,
        },
{
    proof {
        lemma_deep_entries(data@);
    }
    let ghost entries = deep_entries(data@);
    let mut i: usize = 0;
    while i < data.len()
        invariant
            entries == deep_entries(data@),
            entries.len() == data@.len(),
            forall|j: int| 0 <= j < i ==> entries[j] == (data@[j].0@, data@[j].1.deep()),
            i <= data@.len(),
            forall|j: int| 0 <= j < i ==> data@[j].0@ != key@,
        decreases data@.len() - i,
    {
        if str_eq(data[i].0.as_str(), key) {
            proof {
                lemma_lookup_from(entries, key@, i as int);
                lemma_deep_entries(data@);
            }
            return Some(&data[i].1);
        }
        proof {
            lemma_deep_entries(data@);
        }
        i = i + 1;
    }
    proof {
        lemma_lookup_from(entries, key@, data@.len() as int);
    }
    None
}


/// Two trees are equal exactly when their mathematical values are.
pub fn node_eq(a: &Node, b: &Node) -> (r: bool)
    ensures
        r == (a.deep() == b.deep()),
    decreases *a,
{
    match (a, b) {
        (Node::Str(x), Node::Str(y)) => str_eq(x.as_str(), y.as_str()),
        (Node::Int(x), Node::Int(y)) => *x == *y,
        (Node::Bool(x), Node::Bool(y)) => *x == *y,
        (Node::Null, Node::Null) => true,
        (Node::Bad, Node::Bad) => true,
        (Node::Sequence(xs), Node::Sequence(ys)) => {
            proof {
                lemma_deep_list(xs@);
                lemma_deep_list(ys@);
            }
            if xs.len() != ys.len() {
                return false;
            }
            let mut i: usize = 0;
            while i < xs.len()
                invariant
                    a == Node::Sequence(*xs),
                    b == Node::Sequence(*ys),
                    xs@.len() == ys@.len(),
                    i <= xs@.len(),
                    forall|j: int| 0 <= j < i ==> xs@[j].deep() == ys@[j].deep(),
                decreases xs@.len() - i,
            {
                if !node_eq(&xs[i], &ys[i]) {
                    proof {
                        lemma_deep_list(xs@);
                        lemma_deep_list(ys@);
                        assert(deep_list(xs@)[i as int] != deep_list(ys@)[i as int]);
                        assert(deep_list(xs@) != deep_list(ys@));
                    }
                    return false;
                }
                i = i + 1;
            }
            proof {
                lemma_deep_list(xs@);
                lemma_deep_list(ys@);
                assert(deep_list(xs@) =~= deep_list(ys@));
            }
            true
        },
        (Node::Mapping(xs), Node::Mapping(ys)) => {
            proof {
                lemma_deep_entries(xs@);
                lemma_deep_entries(ys@);
            }
            if xs.len() != ys.len() {
                return false;
            }
            let mut i: usize = 0;
            while i < xs.len()
                invariant
                    a == Node::Mapping(*xs),
                    b == Node::Mapping(*ys),
                    xs@.len() == ys@.len(),
                    i <= xs@.len(),
                    forall|j: int|
                        0 <= j < i ==> xs@[j].0@ == ys@[j].0@ && xs@[j].1.deep()
                            == ys@[j].1.deep(),
                decreases xs@.len() - i,
            {
                if !str_eq(xs[i].0.as_str(), ys[i].0.as_str()) {
                    proof {
                        lemma_deep_entries(xs@);
                        lemma_deep_entries(ys@);
                        assert(deep_entries(xs@)[i as int].0 != deep_entries(ys@)[i as int].0);
                        assert(deep_entries(xs@) != deep_entries(ys@));
                    }
                    return false;
                }
                if !node_eq(&xs[i].1, &ys[i].1) {
                    proof {
                        lemma_deep_entries(xs@);
                        lemma_deep_entries(ys@);
                        assert(deep_entries(xs@)[i as int].1 != deep_entries(ys@)[i as int].1);
                        assert(deep_entries(xs@) != deep_entries(ys@));
                    }
                    return false;
                }
                i = i + 1;
            }
            proof {
                lemma_deep_entries(xs@);
                lemma_deep_entries(ys@);
                assert(deep_entries(xs@) =~= deep_entries(ys@));
            }
            true
        },
        _ => false,
    }
}

} // verus!
