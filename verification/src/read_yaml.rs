//! Reading scalars out of a document tree, and the error type that
//! carries a breadcrumb of enclosing field names as it propagates.

use vstd::prelude::*;

use crate::node::{deep_entries, deep_list, deep_strs, lemma_deep_list, lookup_v, Node, NodeV};

verus! {

broadcast use vstd::std_specs::vec::group_vec_axioms, vstd::seq::group_seq_axioms;

/// What went wrong, as a tagged kind.
#[derive(Debug, Clone, PartialEq, Eq)]
pub enum ContextfulErrorType {
    /// A node exists but has the wrong kind: expected, actual.
    WrongType(&'static str, &'static str),
    /// A mandatory sub-field is absent; carries the field name.
    MissingRequiredField(&'static str),
    /// A field only admits fixed values; carries the field name.
    InvalidEnumValue(&'static str),
    /// An override path holds an empty segment.
    EmptyPathSegment,
    /// An override path indexes a sequence past its end.
    IndexOutOfRange,
    /// An override path segment disagrees with the kind of the existing
    /// node: expected kind, actual kind.
    TypeConflict(&'static str, &'static str),
    /// An override path segment starts with a digit but is not a
    /// non-negative integer literal.
    MalformedIndex,
    /// A fixed message.
    Message(&'static str),
    /// A computed message.
    Other(String),
}

/// Mathematical view of an error kind.
pub enum ContextfulErrorTypeV {
    WrongType(Seq<char>, Seq<char>),
    MissingRequiredField(Seq<char>),
    InvalidEnumValue(Seq<char>),
    EmptyPathSegment,
    IndexOutOfRange,
    TypeConflict(Seq<char>, Seq<char>),
    MalformedIndex,
    Message(Seq<char>),
    Other(Seq<char>),
}

impl ContextfulErrorType {
    /// The mathematical value of this error kind.
    pub open spec fn deep(self) -> ContextfulErrorTypeV {
        match self {
            ContextfulErrorType::WrongType(e, g) => ContextfulErrorTypeV::WrongType(e@, g@),
            ContextfulErrorType::MissingRequiredField(f) => ContextfulErrorTypeV::MissingRequiredField(f@),
            ContextfulErrorType::InvalidEnumValue(f) => ContextfulErrorTypeV::InvalidEnumValue(f@),
            ContextfulErrorType::EmptyPathSegment => ContextfulErrorTypeV::EmptyPathSegment,
            ContextfulErrorType::IndexOutOfRange => ContextfulErrorTypeV::IndexOutOfRange,
            ContextfulErrorType::TypeConflict(e, g) => ContextfulErrorTypeV::TypeConflict(e@, g@),
            ContextfulErrorType::MalformedIndex => ContextfulErrorTypeV::MalformedIndex,
            ContextfulErrorType::Message(m) => ContextfulErrorTypeV::Message(m@),
            ContextfulErrorType::Other(m) => ContextfulErrorTypeV::Other(m@),
        }
    }
}

/// An error kind together with the accumulated breadcrumb of enclosing
/// field and target names, prepended as the error propagates outward.
#[derive(Debug, Clone)]
pub struct ContextfulError {
    pub err: ContextfulErrorType,
    pub context: String,
}

/// Mathematical view of a contextful error.
pub struct ContextfulErrorV {
    pub err: ContextfulErrorTypeV,
    pub context: Seq<char>,
}

impl ContextfulError {
    /// The mathematical value of this error.
    pub open spec fn deep(self) -> ContextfulErrorV {
        ContextfulErrorV { err: self.err.deep(), context: self.context@ }
    }

    /// An error with an explicit context string.
    pub fn _with_context(err: ContextfulErrorType, context: String) -> (r: Self)
        ensures
            r.deep() == (ContextfulErrorV { err: err.deep(), context: context@ }),
    {
        ContextfulError { err, context }
    }

    /// A kind-mismatch error naming the expected kind and the kind of
    /// the node that was found.
    pub fn wrong_type(expected: &'static str, got: &Node) -> (r: Self)
        ensures
            r.deep() == wrong_type_v(expected@, got.deep()),
    {
        ContextfulError {
            err: ContextfulErrorType::WrongType(expected, yaml_type_name(got)),
            context: String::new(),
        }
    }

    /// A fixed-message error with an empty breadcrumb.
    pub fn from_msg(msg: &'static str) -> (r: Self)
        ensures
            r.deep() == msg_v(msg@),
    {
        ContextfulError { err: ContextfulErrorType::Message(msg), context: String::new() }
    }

    /// Prepend one breadcrumb to the context.
    pub fn add_context(self, context: String) -> (r: Self)
        ensures
            r.deep() == add_context_v(self.deep(), context@),
    {
        let mut text = context;
        text.append(" ");
        text.append(self.context.as_str());
        ContextfulError { err: self.err, context: text }
    }
}

/// The view of an error built by `ContextfulError::wrong_type`.
pub open spec fn wrong_type_v(expected: Seq<char>, got: NodeV) -> ContextfulErrorV {
    ContextfulErrorV {
        err: ContextfulErrorTypeV::WrongType(expected, type_name_v(got)),
        context: Seq::empty(),
    }
}

/// The view of an error built by `ContextfulError::from_msg`.
pub open spec fn msg_v(msg: Seq<char>) -> ContextfulErrorV {
    ContextfulErrorV { err: ContextfulErrorTypeV::Message(msg), context: Seq::empty() }
}

/// One breadcrumb prepended to an error's context.
pub open spec fn add_context_v(e: ContextfulErrorV, context: Seq<char>) -> ContextfulErrorV {
    ContextfulErrorV { err: e.err, context: context + " "@ + e.context }
}

/// A content-level error: either a bare message or a contextful error.
#[derive(Debug, Clone)]
pub enum ContentError {
    Other(&'static str),
    Contextful(ContextfulError),
}

/// Mathematical view of a content-level error.
pub enum ContentErrorV {
    Other(Seq<char>),
    Contextful(ContextfulErrorV),
}

impl ContentError {
    /// The mathematical value of this error.
    pub open spec fn deep(self) -> ContentErrorV {
        match self {
            ContentError::Other(m) => ContentErrorV::Other(m@),
            ContentError::Contextful(e) => ContentErrorV::Contextful(e.deep()),
        }
    }
}

/// The kind of a document-tree node, as a human-readable name.
pub open spec fn type_name_v(n: NodeV) -> Seq<char> {
    match n {
        NodeV::Int(_) => "integer"@,
        NodeV::Str(_) => "string"@,
        NodeV::Bool(_) => "boolean"@,
        NodeV::Sequence(_) => "list (aka array)"@,
        NodeV::Mapping(_) => "table (aka hash)"@,
        NodeV::Null => "null"@,
        NodeV::Bad => "error value"@,
    }
}

/// The kind of a document-tree node, as a human-readable name.
pub fn yaml_type_name(yaml_value: &Node) -> (r: &'static str)
    ensures
        r@ == type_name_v(yaml_value.deep()),
{
    match yaml_value {
        Node::Int(_) => "integer",
        Node::Str(_) => "string",
        Node::Bool(_) => "boolean",
        Node::Sequence(_) => "list (aka array)",
        Node::Mapping(_) => "table (aka hash)",
        Node::Null => "null",
        Node::Bad => "error value",
    }
}

/// The error for a node of the wrong kind: an error node gets a fixed
/// message, any other node a kind-mismatch error.
pub open spec fn handle_wrong_type_v(n: NodeV, expected: Seq<char>) -> ContextfulErrorV {
    match n {
        NodeV::Bad => msg_v(" : Invalid YAML value"@),
        _ => wrong_type_v(expected, n),
    }
}

/// The error for a node of the wrong kind.
pub fn handle_wrong_type(yaml_value: &Node, expected: &'static str) -> (r: ContextfulError)
    ensures
        r.deep() == handle_wrong_type_v(yaml_value.deep(), expected@),
{
    match yaml_value {
        Node::Bad => ContextfulError::from_msg(" : Invalid YAML value"),
        _ => ContextfulError::wrong_type(expected, yaml_value),
    }
}

/// Extraction result: `Ok(None)` when a key is absent, which is never an
/// error by itself.
pub type YamlResult<T> = Result<Option<T>, ContextfulError>;

/// The string under `key`, if any: present non-string nodes are errors.
pub open spec fn get_str_v(entries: Seq<(Seq<char>, NodeV)>, key: Seq<char>) -> Result<
    Option<Seq<char>>,
    ContextfulErrorV,
> {
    match lookup_v(entries, key) {
        None => Ok(None),
        Some(n) => match n {
            NodeV::Str(s) => Ok(Some(s)),
            _ => Err(add_context_v(handle_wrong_type_v(n, "string"@), key)),
        },
    }
}

/// The string under `key`, if any.
pub fn get_str(data: &Vec<(String, Node)>, key: &'static str) -> (r: YamlResult<String>)
    ensures
        match r {
            Ok(Some(s)) => get_str_v(deep_entries(data@), key@) == Ok::<_, ContextfulErrorV>(
                Some(s@),
            ),
            Ok(None) => get_str_v(deep_entries(data@), key@) == Ok::<
                Option<Seq<char>>,
                ContextfulErrorV,
            >(None),
            Err(e) => get_str_v(deep_entries(data@), key@) == Err::<
                Option<Seq<char>>,
                ContextfulErrorV,
            >(e.deep()),
        },
{
    match crate::node::get_data(data, key) {
        None => Ok(None),
        Some(n) => match n {
            Node::Str(s) => Ok(Some(s.clone())),
            _ => Err(handle_wrong_type(n, "string").add_context(key.to_owned())),
        },
    }
}

/// The integer under `key`, if any: present non-integer nodes are errors.
pub open spec fn get_int_v(entries: Seq<(Seq<char>, NodeV)>, key: Seq<char>) -> Result<
    Option<int>,
    ContextfulErrorV,
> {
    match lookup_v(entries, key) {
        None => Ok(None),
        Some(n) => match n {
            NodeV::Int(i) => Ok(Some(i)),
            _ => Err(add_context_v(handle_wrong_type_v(n, "integer"@), key)),
        },
    }
}

/// The integer under `key`, if any.
pub fn get_int(data: &Vec<(String, Node)>, key: &'static str) -> (r: YamlResult<i64>)
    ensures
        match r {
            Ok(Some(i)) => get_int_v(deep_entries(data@), key@) == Ok::<_, ContextfulErrorV>(
                Some(i as int),
            ),
            Ok(None) => get_int_v(deep_entries(data@), key@) == Ok::<
                Option<int>,
                ContextfulErrorV,
            >(None),
            Err(e) => get_int_v(deep_entries(data@), key@) == Err::<
                Option<int>,
                ContextfulErrorV,
            >(e.deep()),
        },
{
    match crate::node::get_data(data, key) {
        None => Ok(None),
        Some(n) => match n {
            Node::Int(i) => Ok(Some(*i)),
            _ => Err(handle_wrong_type(n, "integer").add_context(key.to_owned())),
        },
    }
}

/// The boolean under `key`, if any: present non-boolean nodes are errors.
pub open spec fn get_bool_v(entries: Seq<(Seq<char>, NodeV)>, key: Seq<char>) -> Result<
    Option<bool>,
    ContextfulErrorV,
> {
    match lookup_v(entries, key) {
        None => Ok(None),
        Some(n) => match n {
            NodeV::Bool(b) => Ok(Some(b)),
            _ => Err(add_context_v(handle_wrong_type_v(n, "boolean"@), key)),
        },
    }
}

/// The boolean under `key`, if any.
pub fn get_bool(data: &Vec<(String, Node)>, key: &'static str) -> (r: YamlResult<bool>)
    ensures
        match r {
            Ok(Some(b)) => get_bool_v(deep_entries(data@), key@) == Ok::<_, ContextfulErrorV>(
                Some(b),
            ),
            Ok(None) => get_bool_v(deep_entries(data@), key@) == Ok::<
                Option<bool>,
                ContextfulErrorV,
            >(None),
            Err(e) => get_bool_v(deep_entries(data@), key@) == Err::<
                Option<bool>,
                ContextfulErrorV,
            >(e.deep()),
        },
{
    match crate::node::get_data(data, key) {
        None => Ok(None),
        Some(n) => match n {
            Node::Bool(b) => Ok(Some(*b)),
            _ => Err(handle_wrong_type(n, "boolean").add_context(key.to_owned())),
        },
    }
}

/// The sequence under `key`, if any: present non-sequence nodes are errors.
pub open spec fn get_array_v(entries: Seq<(Seq<char>, NodeV)>, key: Seq<char>) -> Result<
    Option<Seq<NodeV>>,
    ContextfulErrorV,
> {
    match lookup_v(entries, key) {
        None => Ok(None),
        Some(n) => match n {
            NodeV::Sequence(items) => Ok(Some(items)),
            _ => Err(add_context_v(handle_wrong_type_v(n, "array"@), key)),
        },
    }
}

/// The sequence under `key`, if any.
pub fn get_array<'a>(data: &'a Vec<(String, Node)>, key: &'static str) -> (r: YamlResult<
    &'a Vec<Node>,
>)
    ensures
        match r {
            Ok(Some(items)) => get_array_v(deep_entries(data@), key@) == Ok::<
                _,
                ContextfulErrorV,
            >(Some(deep_list(items@))),
            Ok(None) => get_array_v(deep_entries(data@), key@) == Ok::<
                Option<Seq<NodeV>>,
                ContextfulErrorV,
            >(None),
            Err(e) => get_array_v(deep_entries(data@), key@) == Err::<
                Option<Seq<NodeV>>,
                ContextfulErrorV,
            >(e.deep()),
        },
{
    match crate::node::get_data(data, key) {
        None => Ok(None),
        Some(n) => match n {
            Node::Sequence(items) => Ok(Some(items)),
            _ => Err(handle_wrong_type(n, "array").add_context(key.to_owned())),
        },
    }
}

/// A non-negative integer, or an error.
pub fn _to_unsinged(source: i64) -> (r: Result<u64, ContextfulError>)
    ensures
        source >= 0 ==> (r matches Ok(n) && n == source),
        source < 0 ==> (r matches Err(e) && e.deep() == msg_v("should be a positive integer"@)),
{
    if source >= 0 {
        Ok(source as u64)
    } else {
        Err(ContextfulError::from_msg("should be a positive integer"))
    }
}

/// The single document of a parsed stream: more than one document, or
/// none, is an error.
pub fn get_doc(mut docs: Vec<Node>) -> (r: Result<Node, &'static str>)
    ensures
        docs@.len() == 1 ==> (r matches Ok(n) && n.deep() == docs@[0].deep()),
        docs@.len() > 1 ==> (r matches Err(e) && e@
            == "Config file somehow contains multiple YAML documents"@),
        docs@.len() == 0 ==> (r matches Err(e) && e@ == "Empty config"@),
{
    if docs.len() > 1 {
        return Err("Config file somehow contains multiple YAML documents");
    }
    if docs.len() == 0 {
        return Err("Empty config");
    }
    Ok(docs.remove(0))
}


/// The strings of a sequence node, element by element: the first
/// non-string element is an error.
pub open spec fn strings_of_list_v(items: Seq<NodeV>) -> Result<Seq<Seq<char>>, ContextfulErrorV>
    decreases items.len(),
{
    if items.len() == 0 {
        Ok(Seq::empty())
    } else {
        match items[0] {
            NodeV::Str(s) => match strings_of_list_v(items.drop_first()) {
                Ok(rest) => Ok(seq![s] + rest),
                Err(e) => Err(e),
            },
            _ => Err(handle_wrong_type_v(items[0], "string"@)),
        }
    }
}

/// The strings denoted by a node that is either one string or a
/// sequence of strings.
pub open spec fn strings_v(n: NodeV) -> Result<Seq<Seq<char>>, ContextfulErrorV> {
    match n {
        NodeV::Str(s) => Ok(seq![s]),
        NodeV::Sequence(items) => strings_of_list_v(items),
        _ => Err(handle_wrong_type_v(n, "string or array thereof"@)),
    }
}

/// A forward scan settles `strings_of_list_v`: with only strings among
/// the first `i` elements, the scan's outcome at `i` is the whole result.
pub proof fn lemma_strings_of_list_at(items: Seq<NodeV>, i: int)
    requires
        0 <= i <= items.len(),
        forall|j: int| 0 <= j < i ==> items[j] is Str,
    ensures
        i == items.len() ==> strings_of_list_v(items) == Ok::<_, ContextfulErrorV>(
            Seq::new(items.len(), |j: int| items[j]->Str_0),
        ),
        i < items.len() && !(items[i] is Str) ==> strings_of_list_v(items) == Err::<
            Seq<Seq<char>>,
            _,
        >(handle_wrong_type_v(items[i], "string"@)),
    decreases i,
{
    if items.len() == 0 {
        assert(Seq::new(items.len(), |j: int| items[j]->Str_0) =~= Seq::empty());
    } else if i == 0 {
    } else {
        lemma_strings_of_list_at(items.drop_first(), i - 1);
        if i == items.len() {
            assert(seq![items[0]->Str_0] + Seq::new(
                items.drop_first().len(),
                |j: int| items.drop_first()[j]->Str_0,
            ) =~= Seq::new(items.len(), |j: int| items[j]->Str_0));
        }
    }
}

/// The strings of a node that is one string or a sequence of strings.
pub fn array_or_string_into_vec(yaml: &Node) -> (r: Result<Vec<String>, ContextfulError>)
    ensures
        match r {
            Ok(v) => strings_v(yaml.deep()) == Ok::<_, ContextfulErrorV>(deep_strs(v@)),
            Err(e) => strings_v(yaml.deep()) == Err::<Seq<Seq<char>>, _>(e.deep()),
        },
{
    match yaml {
        Node::Str(s) => {
            let mut vec: Vec<String> = Vec::new();
            vec.push(s.clone());
            proof {
                assert(vec@.len() == 1);
                assert(deep_strs(vec@) =~= seq![s@]);
            }
            Ok(vec)
        },
        Node::Sequence(items) => {
            let ghost dl = deep_list(items@);
            proof {
                lemma_deep_list(items@);
            }
            let mut vec: Vec<String> = Vec::new();
            let mut i: usize = 0;
            while i < items.len()
                invariant
                    yaml.deep() == NodeV::Sequence(dl),
                    dl == deep_list(items@),
                    dl.len() == items@.len(),
                    forall|j: int| 0 <= j < items@.len() ==> dl[j] == items@[j].deep(),
                    i <= items@.len(),
                    vec@.len() == i,
                    forall|j: int| 0 <= j < i ==> dl[j] is Str,
                    forall|j: int| 0 <= j < i ==> #[trigger] vec@[j]@ == dl[j]->Str_0,
                decreases items@.len() - i,
            {
                match &items[i] {
                    Node::Str(s) => {
                        vec.push(s.clone());
                    },
                    n => {
                        proof {
                            lemma_strings_of_list_at(dl, i as int);
                        }
                        return Err(handle_wrong_type(n, "string"));
                    },
                }
                i = i + 1;
            }
            proof {
                lemma_strings_of_list_at(dl, dl.len() as int);
                assert(deep_strs(vec@) =~= Seq::new(dl.len(), |j: int| dl[j]->Str_0));
            }
            Ok(vec)
        },
        val => Err(handle_wrong_type(val, "string or array thereof")),
    }
}

/// Map an optional value through a fallible function: an absent value
/// stays absent and is never an error.
pub fn try_map_option<T, U, F: Fn(T) -> Result<U, ContextfulError>>(opt: Option<T>, f: F) -> (r:
    Result<Option<U>, ContextfulError>)
    requires
        opt matches Some(v) ==> call_requires(f, (v,)),
    ensures
        opt is None ==> (r matches Ok(o) && o is None),
        opt matches Some(v) ==> match r {
            Ok(o) => o matches Some(u) && call_ensures(f, (v,), Ok(u)),
            Err(e) => call_ensures(f, (v,), Err(e)),
        },
{
    match opt {
        None => Ok(None),
        Some(v) => match f(v) {
            Ok(u) => Ok(Some(u)),
            Err(e) => Err(e),
        },
    }
}


/// The declared shape of `yaml_rust2::Yaml`, so that parsed values can
/// pass through trusted signatures.
#[verifier::external_type_specification]
#[verifier::external_body]
pub struct ExYaml(yaml_rust2::Yaml);

/// The document trees that a piece of YAML text parses to, or `None`
/// when the text is not valid YAML. The parse is a pure function of the
/// text, so the result has a name here and nothing more is assumed of it.
pub uninterp spec fn parsed_docs(text: Seq<char>) -> Option<Seq<NodeV>>;

/// Relies on `yaml_rust2::YamlLoader::load_from_str`: parses YAML text
/// into a stream of documents, which depends on the text alone; parsing
/// succeeds if and only if every document parses. Mappings keep
/// insertion order. Non-string mapping keys, reals and aliases lie
/// outside the document model and convert to error values.
#[verifier::external_body]
pub fn read_yaml_str(text: &str) -> (r: Result<Vec<Node>, String>)
    ensures
        r matches Ok(docs) ==> parsed_docs(text@) == Some(deep_list(docs@)),
        r matches Err(_) ==> parsed_docs(text@) is None,
{
    match yaml_rust2::YamlLoader::load_from_str(text) {
        Ok(docs) => Ok(docs.iter().map(node_of_yaml).collect()),
        Err(e) => Err(e.to_string()),
    }
}

/// Relies on the shape of `yaml_rust2::Yaml`: converts one parsed value
/// into a document tree, variant by variant.
#[verifier::external_body]
fn node_of_yaml(y: &yaml_rust2::Yaml) -> Node {
    match y {
        yaml_rust2::Yaml::Integer(i) => Node::Int(*i),
        yaml_rust2::Yaml::String(s) => Node::Str(s.clone()),
        yaml_rust2::Yaml::Boolean(b) => Node::Bool(*b),
        yaml_rust2::Yaml::Null => Node::Null,
        yaml_rust2::Yaml::Array(a) => Node::Sequence(a.iter().map(node_of_yaml).collect()),
        yaml_rust2::Yaml::Hash(h) => {
            let entries = h.iter().map(|(k, v)| Some((k.as_str()?.to_owned(), node_of_yaml(v))));
            match entries.collect::<Option<Vec<_>>>() {
                Some(entries) => Node::Mapping(entries),
                None => Node::Bad,
            }
        },
        _ => Node::Bad,
    }
}


/// Fallible values that can take one more breadcrumb of context.
pub trait ContextfulMaybe: Sized {
    /// What prepending the breadcrumb `context` must produce.
    spec fn context_added(self, context: Seq<char>, r: Self) -> bool;

    /// Prepend one breadcrumb of context to the error, if any.
    fn add_context(self, context: String) -> (r: Self)
        ensures
            self.context_added(context@, r),
    ;
}

impl<T> ContextfulMaybe for Result<T, ContextfulError> {
    /// A success is untouched; an error gains the breadcrumb.
    open spec fn context_added(self, context: Seq<char>, r: Self) -> bool {
        match self {
            Ok(_) => r == self,
            Err(e) => r matches Err(e2) && e2.deep() == add_context_v(e.deep(), context),
        }
    }

    fn add_context(self, context: String) -> (r: Self) {
        match self {
            Ok(v) => Ok(v),
            Err(e) => Err(e.add_context(context)),
        }
    }
}

/// The message text of an error kind.
pub open spec fn kind_msg_v(k: ContextfulErrorTypeV) -> Seq<char> {
    match k {
        ContextfulErrorTypeV::WrongType(e, g) => "should be a "@ + e + " (got "@ + g + ")"@,
        ContextfulErrorTypeV::MissingRequiredField(f) => "missing required field "@ + f,
        ContextfulErrorTypeV::InvalidEnumValue(f) => "invalid value for "@ + f,
        ContextfulErrorTypeV::EmptyPathSegment => "Empty name in the property path"@,
        ContextfulErrorTypeV::IndexOutOfRange => "List index is out of bounds"@,
        ContextfulErrorTypeV::TypeConflict(e, g) => "path segment expects a "@ + e + " (got "@ + g
            + ")"@,
        ContextfulErrorTypeV::MalformedIndex => "Invalid list index in the property path"@,
        ContextfulErrorTypeV::Message(m) => m,
        ContextfulErrorTypeV::Other(m) => m,
    }
}

/// The message text of a contextful error: the breadcrumb, then the kind.
pub open spec fn error_msg_v(e: ContextfulErrorV) -> Seq<char> {
    e.context + kind_msg_v(e.err)
}

/// The message text of a content error.
pub open spec fn content_msg_v(e: ContentErrorV) -> Seq<char> {
    match e {
        ContentErrorV::Other(m) => m,
        ContentErrorV::Contextful(c) => error_msg_v(c),
    }
}

impl ContextfulErrorType {
    /// The message text of this error kind.
    pub fn message(&self) -> (r: String)
        ensures
            r@ == kind_msg_v(self.deep()),
    {
        match self {
            ContextfulErrorType::WrongType(e, g) => {
                let mut m = "should be a ".to_owned();
                m.append(e);
                m.append(" (got ");
                m.append(g);
                m.append(")");
                proof {
                    assert(m@ =~= kind_msg_v(self.deep()));
                }
                m
            },
            ContextfulErrorType::MissingRequiredField(f) => {
                let mut m = "missing required field ".to_owned();
                m.append(f);
                m
            },
            ContextfulErrorType::InvalidEnumValue(f) => {
                let mut m = "invalid value for ".to_owned();
                m.append(f);
                m
            },
            ContextfulErrorType::EmptyPathSegment => "Empty name in the property path".to_owned(),
            ContextfulErrorType::IndexOutOfRange => "List index is out of bounds".to_owned(),
            ContextfulErrorType::TypeConflict(e, g) => {
                let mut m = "path segment expects a ".to_owned();
                m.append(e);
                m.append(" (got ");
                m.append(g);
                m.append(")");
                proof {
                    assert(m@ =~= kind_msg_v(self.deep()));
                }
                m
            },
            ContextfulErrorType::MalformedIndex => {
                "Invalid list index in the property path".to_owned()
            },
            ContextfulErrorType::Message(m) => (*m).to_owned(),
            ContextfulErrorType::Other(m) => m.clone(),
        }
    }
}

impl ContextfulError {
    /// The message text of this error: the breadcrumb, then the kind.
    pub fn message(&self) -> (r: String)
        ensures
            r@ == error_msg_v(self.deep()),
    {
        let mut m = self.context.clone();
        let k = self.err.message();
        m.append(k.as_str());
        m
    }
}

impl ContentError {
    /// The message text of this error.
    pub fn message(&self) -> (r: String)
        ensures
            r@ == content_msg_v(self.deep()),
    {
        match self {
            ContentError::Other(m) => (*m).to_owned(),
            ContentError::Contextful(e) => e.message(),
        }
    }
}

} // verus!
