use vstd::prelude::*;

verus! {

broadcast use vstd::std_specs::vec::axiom_vec_index_decreases, vstd::seq::axiom_seq_index_decreases;

/// `serde_json::Value`, carried through as an opaque value.
#[verifier::external_type_specification]
#[verifier::external_body]
pub struct ExJsonValue(serde_json::Value);

/// A JSON number: its value as a signed and as an unsigned 64-bit integer,
/// where it is one, and its text.
pub struct JsonNumber {
    pub as_i64: Option<i64>,
    pub as_u64: Option<u64>,
    pub text: String,
}

/// One member of a JSON object.
pub struct JsonMember {
    pub key: String,
    pub value: JsonValue,
}

/// A JSON document as a tree.
pub enum JsonValue {
    Null,
    Bool(bool),
    Number(JsonNumber),
    String(String),
    Array(Vec<JsonValue>),
    Object(Vec<JsonMember>),
}

/// Mathematical form of a JSON tree: numbers by their integer readings and
/// text, strings and keys as characters, members in order.
pub enum JsonView {
    Null,
    Bool(bool),
    Number(Option<i64>, Option<u64>, Seq<char>),
    String(Seq<char>),
    Array(Seq<JsonView>),
    Object(Seq<(Seq<char>, JsonView)>),
}

/// The view of a JSON tree.
pub open spec fn json_value_view(j: JsonValue) -> JsonView
    decreases j,
{
    match j {
        JsonValue::Null => JsonView::Null,
        JsonValue::Bool(b) => JsonView::Bool(b),
        JsonValue::Number(n) => JsonView::Number(n.as_i64, n.as_u64, n.text@),
        JsonValue::String(s) => JsonView::String(s@),
        JsonValue::Array(items) => JsonView::Array(json_views(items@)),
        JsonValue::Object(members) => JsonView::Object(member_views(members@)),
    }
}

/// The views of a list of JSON trees.
pub open spec fn json_views(s: Seq<JsonValue>) -> Seq<JsonView>
    decreases s,
{
    if s.len() == 0 {
        Seq::empty()
    } else {
        json_views(s.drop_last()).push(json_value_view(s.last()))
    }
}

/// The views of a list of object members.
pub open spec fn member_views(s: Seq<JsonMember>) -> Seq<(Seq<char>, JsonView)>
    decreases s,
{
    if s.len() == 0 {
        Seq::empty()
    } else {
        member_views(s.drop_last()).push((s.last().key@, json_value_view(s.last().value)))
    }
}

pub proof fn lemma_json_views_index(s: Seq<JsonValue>)
    ensures
        json_views(s).len() == s.len(),
        forall|i: int| 0 <= i < s.len() ==> #[trigger] json_views(s)[i] == json_value_view(s[i]),
    decreases s.len(),
{
    if s.len() > 0 {
        lemma_json_views_index(s.drop_last());
    }
}

pub proof fn lemma_member_views_index(s: Seq<JsonMember>)
    ensures
        member_views(s).len() == s.len(),
        forall|i: int| 0 <= i < s.len() ==> #[trigger] member_views(s)[i] == (s[i].key@, json_value_view(s[i].value)),
    decreases s.len(),
{
    if s.len() > 0 {
        lemma_member_views_index(s.drop_last());
    }
}

/// The tree that a `serde_json::Value` holds.
pub uninterp spec fn json_view_of(v: serde_json::Value) -> JsonView;

/// The tree that `serde_json::from_str::<Value>` reads from a text.
pub uninterp spec fn json_tree_of(s: Seq<char>) -> JsonView;

/// What `serde_json::from_str::<Value>` reports for a text: `None` when it
/// parses, else its error message.
pub uninterp spec fn json_syntax_error(s: Seq<char>) -> Option<Seq<char>>;

/// Relies on `serde_json::from_str` to parse a JSON text; its error is
/// kept as its message.
#[verifier::external_body]
pub(crate) fn parse_json_text(s: &str) -> (r: Result<serde_json::Value, String>)
    ensures
        match r {
            Ok(v) => json_syntax_error(s@).is_none() && json_view_of(v) == json_tree_of(s@),
            Err(m) => json_syntax_error(s@) == Some(m@),
        },
{
    serde_json::from_str::<serde_json::Value>(s).map_err(|e| e.to_string())
}

/// One level of a `serde_json::Value`, with its children still in serde's form.
pub enum JsonNode {
    Null,
    Bool(bool),
    Number(JsonNumber),
    String(String),
    Array(Vec<serde_json::Value>),
    Object(Vec<(String, serde_json::Value)>),
}

/// Relies on the variants of `serde_json::Value` to take one node apart: a
/// number by `Number::as_i64`, `Number::as_u64` and its `Display` text,
/// object members in the map's iteration order.
#[verifier::external_body]
fn node_of(v: serde_json::Value) -> (r: JsonNode)
    ensures
        match r {
            JsonNode::Null => json_view_of(v) == JsonView::Null,
            JsonNode::Bool(b) => json_view_of(v) == JsonView::Bool(b),
            JsonNode::Number(n) => json_view_of(v) == JsonView::Number(n.as_i64, n.as_u64, n.text@),
            JsonNode::String(s) => json_view_of(v) == JsonView::String(s@),
            JsonNode::Array(items) => json_view_of(v) == JsonView::Array(
                items@.map_values(|x: serde_json::Value| json_view_of(x)),
            ),
            JsonNode::Object(members) => json_view_of(v) == JsonView::Object(
                members@.map_values(|m: (String, serde_json::Value)| (m.0@, json_view_of(m.1))),
            ),
        },
{
    match v {
        serde_json::Value::Null => JsonNode::Null,
        serde_json::Value::Bool(b) => JsonNode::Bool(b),
        serde_json::Value::Number(n) => JsonNode::Number(JsonNumber { as_i64: n.as_i64(), as_u64: n.as_u64(), text: n.to_string() }),
        serde_json::Value::String(s) => JsonNode::String(s),
        serde_json::Value::Array(a) => JsonNode::Array(a),
        serde_json::Value::Object(o) => JsonNode::Object(o.into_iter().collect()),
    }
}

/// Rebuilds a serde value as a library tree with the same view, down to
/// `depth` levels; `None` where the document is nested deeper.
pub fn json_from_serde(v: serde_json::Value, depth: usize) -> (r: Option<JsonValue>)
    ensures
        match r {
            Some(j) => json_value_view(j) == json_view_of(v),
            None => true,
        },
    decreases depth,
{
    if depth == 0 {
        return None;
    }
    let below = depth - 1;
    match node_of(v) {
        JsonNode::Null => Some(JsonValue::Null),
        JsonNode::Bool(b) => Some(JsonValue::Bool(b)),
        JsonNode::Number(n) => Some(JsonValue::Number(n)),
        JsonNode::String(s) => Some(JsonValue::String(s)),
        JsonNode::Array(items) => {
            let ghost children = items@.map_values(|x: serde_json::Value| json_view_of(x));
            let ghost n = items@.len();
            let mut items = items;
            let mut rev: Vec<JsonValue> = Vec::new();
            while items.len() > 0
                invariant
                    below < depth,
                    items@.len() + rev@.len() == n,
                    children.len() == n,
                    forall|k: int| 0 <= k < items@.len() ==> #[trigger] json_view_of(items@[k]) == children[k],
                    forall|k: int| 0 <= k < rev@.len() ==> #[trigger] json_value_view(rev@[k]) == children[n - 1 - k],
                decreases items@.len(),
            {
                let item = items.pop().unwrap();
                match json_from_serde(item, below) {
                    Some(j) => rev.push(j),
                    None => return None,
                }
            }
            let mut out: Vec<JsonValue> = Vec::new();
            while rev.len() > 0
                invariant
                    out@.len() + rev@.len() == n,
                    children.len() == n,
                    forall|k: int| 0 <= k < rev@.len() ==> #[trigger] json_value_view(rev@[k]) == children[n - 1 - k],
                    forall|k: int| 0 <= k < out@.len() ==> #[trigger] json_value_view(out@[k]) == children[k],
                decreases rev@.len(),
            {
                out.push(rev.pop().unwrap());
            }
            proof {
                lemma_json_views_index(out@);
                assert(json_views(out@) =~= children);
            }
            Some(JsonValue::Array(out))
        },
        JsonNode::Object(members) => {
            let ghost children = members@.map_values(|m: (String, serde_json::Value)| (m.0@, json_view_of(m.1)));
            let ghost n = members@.len();
            let mut members = members;
            let mut rev: Vec<JsonMember> = Vec::new();
            while members.len() > 0
                invariant
                    below < depth,
                    members@.len() + rev@.len() == n,
                    children.len() == n,
                    forall|k: int| 0 <= k < members@.len() ==> (members@[k].0@, json_view_of(members@[k].1)) == #[trigger] children[k],
                    forall|k: int| 0 <= k < rev@.len() ==> (rev@[k].key@, json_value_view((#[trigger] rev@[k]).value)) == children[n - 1 - k],
                decreases members@.len(),
            {
                let (key, item) = members.pop().unwrap();
                match json_from_serde(item, below) {
                    Some(j) => rev.push(JsonMember { key, value: j }),
                    None => return None,
                }
            }
            let mut out: Vec<JsonMember> = Vec::new();
            while rev.len() > 0
                invariant
                    out@.len() + rev@.len() == n,
                    children.len() == n,
                    forall|k: int| 0 <= k < rev@.len() ==> (rev@[k].key@, json_value_view((#[trigger] rev@[k]).value)) == children[n - 1 - k],
                    forall|k: int| 0 <= k < out@.len() ==> (out@[k].key@, json_value_view((#[trigger] out@[k]).value)) == children[k],
                decreases rev@.len(),
            {
                out.push(rev.pop().unwrap());
            }
            proof {
                lemma_member_views_index(out@);
                assert(member_views(out@) =~= children);
            }
            Some(JsonValue::Object(out))
        },
    }
}

} // verus!
