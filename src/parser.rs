use vstd::prelude::*;
use vstd::string::StringExecFns;
use vstd::utf8::encode_utf8;

use crate::json::{
    json_from_serde, json_syntax_error, json_tree_of, json_value_view, json_views, member_views, parse_json_text,
    JsonMember, JsonNumber, JsonValue,
};
use crate::strkey::{decode_strkey, strkey_of};
use crate::text::{decimal, decimal_string};
use crate::value::{entries_of, vals_of, val_of, AddressView, ScAddress, ScMapEntry, ScVal, Val};
use crate::xdr::{pad, u32_be, val_xdr};

verus! {

broadcast use vstd::std_specs::vec::axiom_vec_index_decreases, vstd::seq::axiom_seq_index_decreases;

/// Why an argument could not be parsed; `location` is a path such as
/// `$.cfg.tags[1]`.
#[derive(Debug)]
pub enum ParserError {
    InvalidType { location: String, expected: String, found: String },
    InvalidSymbol { location: String, details: String },
    InvalidHex { location: String, details: String },
}

pub enum ParserErrorView {
    InvalidType(Seq<char>, Seq<char>, Seq<char>),
    InvalidSymbol(Seq<char>, Seq<char>),
    InvalidHex(Seq<char>, Seq<char>),
}

impl View for ParserError {
    type V = ParserErrorView;

    open spec fn view(&self) -> ParserErrorView {
        match self {
            ParserError::InvalidType { location, expected, found } => ParserErrorView::InvalidType(location@, expected@, found@),
            ParserError::InvalidSymbol { location, details } => ParserErrorView::InvalidSymbol(location@, details@),
            ParserError::InvalidHex { location, details } => ParserErrorView::InvalidHex(location@, details@),
        }
    }
}

/// The text of an error as shown to a client.
pub open spec fn error_message(e: ParserErrorView) -> Seq<char> {
    match e {
        ParserErrorView::InvalidType(l, x, f) => "Invalid JSON type at "@ + l + ": expected "@ + x + ", found "@ + f,
        ParserErrorView::InvalidSymbol(l, d) => "Invalid symbol at "@ + l + ": "@ + d,
        ParserErrorView::InvalidHex(l, d) => "Invalid hex bytes at "@ + l + ": "@ + d,
    }
}

impl ParserError {
    /// The error as a sentence, e.g. `Invalid JSON type at $.a: expected
    /// integer, found number 1.5`.
    pub fn message(&self) -> (m: String)
        ensures
            m@ == error_message(self@),
    {
        match self {
            ParserError::InvalidType { location, expected, found } => {
                let m = "Invalid JSON type at ".to_owned();
                let m = m.concat(location.as_str());
                let m = m.concat(": expected ");
                let m = m.concat(expected.as_str());
                let m = m.concat(", found ");
                m.concat(found.as_str())
            },
            ParserError::InvalidSymbol { location, details } => {
                let m = "Invalid symbol at ".to_owned();
                let m = m.concat(location.as_str());
                let m = m.concat(": ");
                m.concat(details.as_str())
            },
            ParserError::InvalidHex { location, details } => {
                let m = "Invalid hex bytes at ".to_owned();
                let m = m.concat(location.as_str());
                let m = m.concat(": ");
                m.concat(details.as_str())
            },
        }
    }
}

pub open spec fn result_view(r: Result<ScVal, ParserError>) -> Result<Val, ParserErrorView> {
    match r {
        Ok(v) => Ok(val_of(v)),
        Err(e) => Err(e@),
    }
}

// ── hexadecimal ─────────────────────────────────────────────────────────────

pub open spec fn hex_digit(c: u8) -> Option<u8> {
    if 48 <= c <= 57 {
        Some((c - 48) as u8)
    } else if 65 <= c <= 70 {
        Some((c - 55) as u8)
    } else if 97 <= c <= 102 {
        Some((c - 87) as u8)
    } else {
        None
    }
}

/// An even number of hexadecimal digits, of either case.
pub open spec fn is_hex_text(b: Seq<u8>) -> bool {
    &&& b.len() % 2 == 0
    &&& forall|i: int| 0 <= i < b.len() ==> (#[trigger] hex_digit(b[i])).is_some()
}

/// The bytes that a hexadecimal text spells, two digits a byte.
pub open spec fn hex_bytes(b: Seq<u8>) -> Seq<u8> {
    Seq::new(
        b.len() / 2,
        |i: int| (16 * hex_digit(b[2 * i]).unwrap() + hex_digit(b[2 * i + 1]).unwrap()) as u8,
    )
}

/// The message of the error that `hex::decode` reports for a text.
pub uninterp spec fn hex_error_text(b: Seq<u8>) -> Seq<char>;

/// Relies on `hex::decode`: two digits per byte, either case; an odd length
/// or any other character is an error.
#[verifier::external_body]
fn decode_hex(b: &[u8]) -> (r: Result<Vec<u8>, String>)
    ensures
        match r {
            Ok(v) => is_hex_text(b@) && v@ == hex_bytes(b@),
            Err(m) => !is_hex_text(b@) && m@ == hex_error_text(b@),
        },
{
    hex::decode(b).map_err(|e| e.to_string())
}

// ── the grammar ─────────────────────────────────────────────────────────────

/// Letters, digits and the underscore.
pub open spec fn is_symbol_byte(c: u8) -> bool {
    (48 <= c <= 57) || (65 <= c <= 90) || (97 <= c <= 122) || c == 95
}

/// One to thirty-two symbol characters.
pub open spec fn valid_symbol(b: Seq<u8>) -> bool {
    &&& 1 <= b.len() <= 32
    &&& forall|i: int| 0 <= i < b.len() ==> #[trigger] is_symbol_byte(b[i])
}

/// The address a 56-character `G…` or `C…` text decodes to, if any.
pub open spec fn address_arg(s: Seq<char>) -> Option<AddressView> {
    let b = encode_utf8(s);
    if b.len() == 56 && (b[0] == 71 || b[0] == 67) {
        match strkey_of(s) {
            Ok(p) => if p.0 == 0 {
                Some(AddressView::Account(p.1))
            } else if p.0 == 1 {
                Some(AddressView::Contract(p.1))
            } else {
                None
            },
            Err(_) => None,
        }
    } else {
        None
    }
}

/// A JSON string: an address, a `:symbol`, `0x` hex bytes, or else text.
pub open spec fn string_arg(s: Seq<char>, path: Seq<char>) -> Result<Val, ParserErrorView> {
    let b = encode_utf8(s);
    match address_arg(s) {
        Some(a) => Ok(Val::Address(a)),
        None => if b.len() >= 1 && b[0] == 58 {
            let rest = b.subrange(1, b.len() as int);
            if valid_symbol(rest) {
                Ok(Val::Symbol(rest))
            } else {
                Err(ParserErrorView::InvalidSymbol(path, "Symbol must be 1-32 characters"@))
            }
        } else if b.len() >= 2 && b[0] == 48 && b[1] == 120 {
            let rest = b.subrange(2, b.len() as int);
            if is_hex_text(rest) {
                Ok(Val::Bytes(hex_bytes(rest)))
            } else {
                Err(ParserErrorView::InvalidHex(path, hex_error_text(rest)))
            }
        } else {
            Ok(Val::String(b))
        },
    }
}

/// A JSON number: a signed integer where it fits, else an unsigned one;
/// any other number is an error.
pub open spec fn number_arg(n: JsonNumber, path: Seq<char>) -> Result<Val, ParserErrorView> {
    match n.as_i64 {
        Some(i) => Ok(Val::I64(i)),
        None => match n.as_u64 {
            Some(u) => Ok(Val::U64(u)),
            None => Err(ParserErrorView::InvalidType(path, "integer"@, "number "@ + n.text@)),
        },
    }
}

pub open spec fn index_path(path: Seq<char>, i: nat) -> Seq<char> {
    path + "["@ + decimal(i) + "]"@
}

pub open spec fn member_path(path: Seq<char>, key: Seq<char>) -> Seq<char> {
    path + "."@ + key
}

/// `a` comes before `b` in bytewise order.
pub open spec fn lex_less_from(a: Seq<u8>, b: Seq<u8>, i: nat) -> bool
    decreases a.len() - i,
{
    if i >= a.len() || i >= b.len() {
        a.len() < b.len()
    } else if a[i as int] != b[i as int] {
        a[i as int] < b[i as int]
    } else {
        lex_less_from(a, b, i + 1)
    }
}

/// Order of symbol keys by their canonical encoding (a big-endian length
/// followed by the bytes): shorter keys first, equal lengths bytewise.
pub open spec fn symbol_key_less(a: Seq<u8>, b: Seq<u8>) -> bool {
    a.len() < b.len() || (a.len() == b.len() && lex_less_from(a, b, 0))
}

/// A key sorts before the symbol key `k`.
pub open spec fn key_less(a: Val, k: Seq<u8>) -> bool {
    match a {
        Val::Symbol(x) => symbol_key_less(x, k),
        _ => false,
    }
}

pub open spec fn entry_less(a: (Val, Val), b: (Val, Val)) -> bool {
    match b.0 {
        Val::Symbol(y) => key_less(a.0, y),
        _ => false,
    }
}

/// Where `e` goes in `s`: after the leading entries whose keys sort before it.
pub open spec fn insertion_point(s: Seq<(Val, Val)>, e: (Val, Val)) -> nat
    decreases s.len(),
{
    if s.len() == 0 {
        0
    } else if entry_less(s[0], e) {
        1 + insertion_point(s.drop_first(), e)
    } else {
        0
    }
}

/// The value a JSON tree stands for, found at `path`.
pub open spec fn parse_json(j: JsonValue, path: Seq<char>) -> Result<Val, ParserErrorView>
    decreases j,
{
    match j {
        JsonValue::Null => Ok(Val::Void),
        JsonValue::Bool(b) => Ok(Val::Bool(b)),
        JsonValue::Number(n) => number_arg(n, path),
        JsonValue::String(s) => string_arg(s@, path),
        JsonValue::Array(items) => match parse_items(items@, path) {
            Ok(vs) => Ok(Val::Vec(Some(vs))),
            Err(e) => Err(e),
        },
        JsonValue::Object(members) => match parse_members(members@, path) {
            Ok(es) => Ok(Val::Mapping(Some(es))),
            Err(e) => Err(e),
        },
    }
}

/// The elements of an array in order; the first element that fails gives
/// the error.
pub open spec fn parse_items(s: Seq<JsonValue>, path: Seq<char>) -> Result<Seq<Val>, ParserErrorView>
    decreases s,
{
    if s.len() == 0 {
        Ok(Seq::empty())
    } else {
        match parse_items(s.drop_last(), path) {
            Err(e) => Err(e),
            Ok(vs) => match parse_json(s.last(), index_path(path, (s.len() - 1) as nat)) {
                Ok(v) => Ok(vs.push(v)),
                Err(e) => Err(e),
            },
        }
    }
}

/// The members of an object as symbol-keyed entries, kept sorted by key;
/// the first member that fails gives the error.
pub open spec fn parse_members(s: Seq<JsonMember>, path: Seq<char>) -> Result<Seq<(Val, Val)>, ParserErrorView>
    decreases s,
{
    if s.len() == 0 {
        Ok(Seq::empty())
    } else {
        match parse_members(s.drop_last(), path) {
            Err(e) => Err(e),
            Ok(es) => {
                let key = encode_utf8(s.last().key@);
                let p = member_path(path, s.last().key@);
                if key.len() > 32 {
                    Err(ParserErrorView::InvalidSymbol(p, "Key name too long for symbol"@))
                } else {
                    match parse_json(s.last().value, p) {
                        Ok(v) => {
                            let e = (Val::Symbol(key), v);
                            Ok(es.insert(insertion_point(es, e) as int, e))
                        },
                        Err(e) => Err(e),
                    }
                }
            },
        }
    }
}

// ── proofs about the list specifications ────────────────────────────────────

proof fn lemma_items_error_persists(s: Seq<JsonValue>, path: Seq<char>, k: int, n: int)
    requires
        0 <= k <= n <= s.len(),
        parse_items(s.subrange(0, k), path) is Err,
    ensures
        parse_items(s.subrange(0, n), path) == parse_items(s.subrange(0, k), path),
    decreases n - k,
{
    if n > k {
        lemma_items_error_persists(s, path, k, n - 1);
        assert(s.subrange(0, n).drop_last() =~= s.subrange(0, n - 1));
    }
}

proof fn lemma_members_error_persists(s: Seq<JsonMember>, path: Seq<char>, k: int, n: int)
    requires
        0 <= k <= n <= s.len(),
        parse_members(s.subrange(0, k), path) is Err,
    ensures
        parse_members(s.subrange(0, n), path) == parse_members(s.subrange(0, k), path),
    decreases n - k,
{
    if n > k {
        lemma_members_error_persists(s, path, k, n - 1);
        assert(s.subrange(0, n).drop_last() =~= s.subrange(0, n - 1));
    }
}

proof fn lemma_insertion_point_bound(s: Seq<(Val, Val)>, e: (Val, Val))
    ensures
        insertion_point(s, e) <= s.len(),
    decreases s.len(),
{
    if s.len() > 0 && entry_less(s[0], e) {
        lemma_insertion_point_bound(s.drop_first(), e);
    }
}

proof fn lemma_insertion_point_step(s: Seq<(Val, Val)>, e: (Val, Val), i: int)
    requires
        0 <= i < s.len(),
        insertion_point(s, e) == i + insertion_point(s.subrange(i, s.len() as int), e),
    ensures
        entry_less(s[i], e) ==> insertion_point(s, e) == i + 1 + insertion_point(s.subrange(i + 1, s.len() as int), e),
        !entry_less(s[i], e) ==> insertion_point(s, e) == i,
{
    assert(s.subrange(i, s.len() as int).drop_first() =~= s.subrange(i + 1, s.len() as int));
}

proof fn lemma_entries_of_index(s: Seq<ScMapEntry>)
    ensures
        entries_of(s).len() == s.len(),
        forall|i: int| 0 <= i < s.len() ==> #[trigger] entries_of(s)[i] == (val_of(s[i].key), val_of(s[i].val)),
    decreases s.len(),
{
    if s.len() > 0 {
        lemma_entries_of_index(s.drop_last());
    }
}

proof fn lemma_entries_of_insert(s: Seq<ScMapEntry>, i: int, e: ScMapEntry)
    requires
        0 <= i <= s.len(),
    ensures
        entries_of(s.insert(i, e)) == entries_of(s).insert(i, (val_of(e.key), val_of(e.val))),
{
    lemma_entries_of_index(s);
    lemma_entries_of_index(s.insert(i, e));
    assert(entries_of(s.insert(i, e)) =~= entries_of(s).insert(i, (val_of(e.key), val_of(e.val))));
}

proof fn lemma_insertion_point_at_end(es: Seq<(Val, Val)>, e: (Val, Val))
    requires
        forall|k: int| 0 <= k < es.len() ==> #[trigger] entry_less(es[k], e),
    ensures
        insertion_point(es, e) == es.len(),
    decreases es.len(),
{
    if es.len() > 0 {
        assert(entry_less(es[0], e));
        assert forall|k: int| 0 <= k < es.drop_first().len() implies #[trigger] entry_less(es.drop_first()[k], e) by {
            assert(es.drop_first()[k] == es[k + 1]);
        }
        lemma_insertion_point_at_end(es.drop_first(), e);
    }
}

/// Parsing keeps an object whose member keys already come in canonical
/// order (each key before every later one) exactly as written: entry `i` is
/// member `i`'s key as a symbol with its parsed value. The canonical form
/// of a map is thus a fixed point of parsing.
pub proof fn lemma_parse_keeps_canonical_order(ms: Seq<JsonMember>, path: Seq<char>)
    requires
        forall|i: int, j: int|
            0 <= i < j < ms.len() ==> symbol_key_less(
                #[trigger] encode_utf8(ms[i].key@),
                #[trigger] encode_utf8(ms[j].key@),
            ),
        parse_members(ms, path) is Ok,
    ensures
        parse_members(ms, path)->Ok_0.len() == ms.len(),
        forall|i: int| 0 <= i < ms.len() ==> #[trigger] parse_members(ms, path)->Ok_0[i] == (
            Val::Symbol(encode_utf8(ms[i].key@)),
            parse_json(ms[i].value, member_path(path, ms[i].key@))->Ok_0,
        ),
    decreases ms.len(),
{
    if ms.len() > 0 {
        let prefix = ms.drop_last();
        assert forall|i: int, j: int| 0 <= i < j < prefix.len() implies symbol_key_less(
            #[trigger] encode_utf8(prefix[i].key@),
            #[trigger] encode_utf8(prefix[j].key@),
        ) by {
            assert(prefix[i] == ms[i] && prefix[j] == ms[j]);
        }
        let es = parse_members(prefix, path)->Ok_0;
        lemma_parse_keeps_canonical_order(prefix, path);
        let key = encode_utf8(ms.last().key@);
        let p = member_path(path, ms.last().key@);
        let e = (Val::Symbol(key), parse_json(ms.last().value, p)->Ok_0);
        assert forall|k: int| 0 <= k < es.len() implies #[trigger] entry_less(es[k], e) by {
            assert(es[k].0 == Val::Symbol(encode_utf8(prefix[k].key@)));
            assert(prefix[k] == ms[k]);
            assert(symbol_key_less(encode_utf8(ms[k].key@), encode_utf8(ms[ms.len() - 1].key@)));
        }
        lemma_insertion_point_at_end(es, e);
        assert(es.insert(es.len() as int, e) =~= es.push(e));
        assert forall|i: int| 0 <= i < ms.len() implies #[trigger] parse_members(ms, path)->Ok_0[i] == (
            Val::Symbol(encode_utf8(ms[i].key@)),
            parse_json(ms[i].value, member_path(path, ms[i].key@))->Ok_0,
        ) by {
            if i < ms.len() - 1 {
                assert(prefix[i] == ms[i]);
            }
        }
    }
}

// ── the order of map keys ───────────────────────────────────────────────────

proof fn lemma_lex_total(a: Seq<u8>, b: Seq<u8>, i: nat, d: int)
    requires
        a.len() == b.len(),
        i <= d < a.len(),
        a[d] != b[d],
    ensures
        lex_less_from(a, b, i) || lex_less_from(b, a, i),
    decreases a.len() - i,
{
    if i < a.len() && a[i as int] == b[i as int] {
        lemma_lex_total(a, b, i + 1, d);
    }
}

proof fn lemma_lex_transitive(a: Seq<u8>, b: Seq<u8>, c: Seq<u8>, i: nat)
    requires
        a.len() == b.len(),
        b.len() == c.len(),
        lex_less_from(a, b, i),
        lex_less_from(b, c, i),
    ensures
        lex_less_from(a, c, i),
    decreases a.len() - i,
{
    if i < a.len() && a[i as int] == b[i as int] && b[i as int] == c[i as int] {
        lemma_lex_transitive(a, b, c, i + 1);
    }
}

proof fn lemma_lex_irreflexive(a: Seq<u8>, i: nat)
    ensures
        !lex_less_from(a, a, i),
    decreases a.len() - i,
{
    if i < a.len() {
        lemma_lex_irreflexive(a, i + 1);
    }
}

/// Distinct symbol keys are ordered one way or the other.
pub proof fn lemma_symbol_order_total(a: Seq<u8>, b: Seq<u8>)
    requires
        a != b,
    ensures
        symbol_key_less(a, b) || symbol_key_less(b, a),
{
    if a.len() == b.len() {
        if forall|d: int| 0 <= d < a.len() ==> a[d] == b[d] {
            assert(a =~= b);
        }
        let d = choose|d: int| 0 <= d < a.len() && a[d] != b[d];
        lemma_lex_total(a, b, 0, d);
    }
}

/// The order of symbol keys is transitive.
pub proof fn lemma_symbol_order_transitive(a: Seq<u8>, b: Seq<u8>, c: Seq<u8>)
    requires
        symbol_key_less(a, b),
        symbol_key_less(b, c),
    ensures
        symbol_key_less(a, c),
{
    if a.len() == b.len() && b.len() == c.len() {
        lemma_lex_transitive(a, b, c, 0);
    }
}

proof fn lemma_symbol_order_irreflexive(a: Seq<u8>)
    ensures
        !symbol_key_less(a, a),
{
    lemma_lex_irreflexive(a, 0);
}

proof fn lemma_lex_skip(x: Seq<u8>, y: Seq<u8>, i: nat, m: nat)
    requires
        i <= m <= x.len(),
        m <= y.len(),
        forall|k: int| i <= k < m ==> x[k] == y[k],
    ensures
        lex_less_from(x, y, i) == lex_less_from(x, y, m),
    decreases m - i,
{
    if i < m {
        lemma_lex_skip(x, y, i + 1, m);
    }
}

proof fn lemma_lex_shifted(a: Seq<u8>, b: Seq<u8>, x: Seq<u8>, y: Seq<u8>, o: nat, k: nat)
    requires
        a.len() == b.len(),
        k <= a.len(),
        x.len() == y.len(),
        o + a.len() <= x.len(),
        forall|t: int| 0 <= t < a.len() ==> x[o + t] == a[t] && y[o + t] == b[t],
        forall|t: int| o + a.len() <= t < x.len() ==> x[t] == y[t],
    ensures
        lex_less_from(x, y, o + k) == lex_less_from(a, b, k),
    decreases a.len() - k,
{
    if k < a.len() {
        lemma_lex_shifted(a, b, x, y, o, k + 1);
    } else {
        lemma_lex_skip(x, y, o + k, x.len());
        lemma_lex_irreflexive(x, x.len());
    }
}

/// The order of symbol keys is the bytewise order of their canonical
/// encodings, which is the order a map's entries must follow.
pub proof fn lemma_symbol_order_is_encoding_order(a: Seq<u8>, b: Seq<u8>)
    requires
        a.len() <= 32,
        b.len() <= 32,
    ensures
        symbol_key_less(a, b) == lex_less_from(val_xdr(Val::Symbol(a)), val_xdr(Val::Symbol(b)), 0),
{
    let x = val_xdr(Val::Symbol(a));
    let y = val_xdr(Val::Symbol(b));
    assert(u32_be(15) =~= seq![0u8, 0u8, 0u8, 15u8]);
    assert(u32_be(a.len() as u32) =~= seq![0u8, 0u8, 0u8, a.len() as u8]);
    assert(u32_be(b.len() as u32) =~= seq![0u8, 0u8, 0u8, b.len() as u8]);
    assert(x =~= seq![0u8, 0u8, 0u8, 15u8] + seq![0u8, 0u8, 0u8, a.len() as u8] + a + pad(a.len()));
    assert(y =~= seq![0u8, 0u8, 0u8, 15u8] + seq![0u8, 0u8, 0u8, b.len() as u8] + b + pad(b.len()));
    lemma_lex_skip(x, y, 0, 7);
    if a.len() == b.len() {
        lemma_lex_skip(x, y, 7, 8);
        lemma_lex_shifted(a, b, x, y, 8, 0);
    }
}

/// Entries whose keys strictly ascend.
pub open spec fn keys_strictly_ascending(es: Seq<(Val, Val)>) -> bool {
    forall|i: int, j: int| 0 <= i < j < es.len() ==> #[trigger] entry_less(es[i], es[j])
}

/// The keys of an entry list are all symbols.
pub open spec fn symbol_keys(es: Seq<(Val, Val)>) -> bool {
    forall|k: int| 0 <= k < es.len() ==> (#[trigger] es[k]).0 is Symbol
}

proof fn lemma_insertion_point_facts(es: Seq<(Val, Val)>, e: (Val, Val))
    ensures
        insertion_point(es, e) <= es.len(),
        forall|k: int| 0 <= k < insertion_point(es, e) ==> #[trigger] entry_less(es[k], e),
        insertion_point(es, e) < es.len() ==> !entry_less(es[insertion_point(es, e) as int], e),
    decreases es.len(),
{
    if es.len() > 0 && entry_less(es[0], e) {
        let rest = es.drop_first();
        lemma_insertion_point_facts(rest, e);
        assert forall|k: int| 0 <= k < insertion_point(es, e) implies #[trigger] entry_less(es[k], e) by {
            if k > 0 {
                assert(es[k] == rest[k - 1]);
            }
        }
        if insertion_point(es, e) < es.len() {
            assert(es[insertion_point(es, e) as int] == rest[insertion_point(rest, e) as int]);
        }
    }
}

/// Parsing an object whose member keys are distinct gives symbol-keyed
/// entries in strictly ascending key order, one per member.
pub proof fn lemma_parsed_map_is_sorted(ms: Seq<JsonMember>, path: Seq<char>)
    requires
        forall|i: int, j: int|
            0 <= i < j < ms.len() ==> #[trigger] encode_utf8(ms[i].key@) != #[trigger] encode_utf8(ms[j].key@),
        parse_members(ms, path) is Ok,
    ensures
        parse_members(ms, path)->Ok_0.len() == ms.len(),
        symbol_keys(parse_members(ms, path)->Ok_0),
        keys_strictly_ascending(parse_members(ms, path)->Ok_0),
        forall|k: int| 0 <= k < ms.len() ==> exists|i: int| 0 <= i < ms.len()
            && (#[trigger] parse_members(ms, path)->Ok_0[k]).0 == Val::Symbol(encode_utf8(ms[i].key@)),
    decreases ms.len(),
{
    if ms.len() > 0 {
        let prefix = ms.drop_last();
        assert forall|i: int, j: int| 0 <= i < j < prefix.len() implies #[trigger] encode_utf8(prefix[i].key@)
            != #[trigger] encode_utf8(prefix[j].key@) by {
            assert(prefix[i] == ms[i] && prefix[j] == ms[j]);
        }
        lemma_parsed_map_is_sorted(prefix, path);
        let es = parse_members(prefix, path)->Ok_0;
        let key = encode_utf8(ms.last().key@);
        let p = member_path(path, ms.last().key@);
        let e = (Val::Symbol(key), parse_json(ms.last().value, p)->Ok_0);
        let at = insertion_point(es, e);
        lemma_insertion_point_facts(es, e);
        let out = es.insert(at as int, e);
        assert(parse_members(ms, path)->Ok_0 == out);
        // every earlier key differs from the new one
        assert forall|k: int| 0 <= k < es.len() implies (#[trigger] es[k]).0 != e.0 by {
            let i = choose|i: int| 0 <= i < prefix.len() && es[k].0 == Val::Symbol(encode_utf8(prefix[i].key@));
            assert(prefix[i] == ms[i]);
            assert(encode_utf8(ms[i].key@) != encode_utf8(ms[ms.len() - 1].key@));
        }
        // the new entry sorts before the entry it displaces, hence before all later ones
        if at < es.len() {
            let xk = es[at as int].0->Symbol_0;
            lemma_symbol_order_total(xk, key);
            assert(entry_less(e, es[at as int]));
        }
        assert forall|i: int, j: int| 0 <= i < j < out.len() implies #[trigger] entry_less(out[i], out[j]) by {
            if j < at {
                assert(out[i] == es[i] && out[j] == es[j]);
            } else if j == at {
                assert(out[i] == es[i] && out[j] == e);
            } else if i < at {
                assert(out[i] == es[i] && out[j] == es[j - 1]);
                assert(entry_less(es[i], es[j - 1]));
            } else if i == at {
                assert(out[i] == e && out[j] == es[j - 1]);
                if j - 1 > at {
                    assert(entry_less(es[at as int], es[j - 1]));
                    lemma_symbol_order_transitive(key, es[at as int].0->Symbol_0, es[j - 1].0->Symbol_0);
                }
            } else {
                assert(out[i] == es[i - 1] && out[j] == es[j - 1]);
            }
        }
        assert forall|k: int| 0 <= k < out.len() implies (#[trigger] out[k]).0 is Symbol by {
            if k < at {
                assert(out[k] == es[k]);
            } else if k > at {
                assert(out[k] == es[k - 1]);
            }
        }
        assert forall|k: int| 0 <= k < ms.len() implies exists|i: int| 0 <= i < ms.len()
            && (#[trigger] out[k]).0 == Val::Symbol(encode_utf8(ms[i].key@)) by {
            if k == at {
                assert(out[k].0 == Val::Symbol(encode_utf8(ms[ms.len() - 1].key@)));
            } else {
                let kk = if k < at { k } else { k - 1 };
                assert(out[k] == es[kk]);
                let i = choose|i: int| 0 <= i < prefix.len() && es[kk].0 == Val::Symbol(encode_utf8(prefix[i].key@));
                assert(prefix[i] == ms[i]);
            }
        }
    }
}

/// The entry that a member becomes when its key and value parse.
pub open spec fn member_entry(m: JsonMember, path: Seq<char>) -> (Val, Val) {
    (Val::Symbol(encode_utf8(m.key@)), parse_json(m.value, member_path(path, m.key@))->Ok_0)
}

/// Every member of a successfully parsed object shows up among the
/// entries, and every entry comes from a member.
proof fn lemma_members_become_entries(ms: Seq<JsonMember>, path: Seq<char>)
    requires
        parse_members(ms, path) is Ok,
    ensures
        parse_members(ms, path)->Ok_0.len() == ms.len(),
        forall|i: int| 0 <= i < ms.len() ==> parse_members(ms, path)->Ok_0.contains(#[trigger] member_entry(ms[i], path)),
        forall|k: int| 0 <= k < ms.len() ==> exists|i: int| 0 <= i < ms.len()
            && #[trigger] parse_members(ms, path)->Ok_0[k] == member_entry(ms[i], path),
    decreases ms.len(),
{
    if ms.len() > 0 {
        let prefix = ms.drop_last();
        lemma_members_become_entries(prefix, path);
        let es = parse_members(prefix, path)->Ok_0;
        let e = member_entry(ms.last(), path);
        let at = insertion_point(es, e);
        lemma_insertion_point_bound(es, e);
        let out = es.insert(at as int, e);
        assert(parse_members(ms, path)->Ok_0 == out);
        assert forall|i: int| 0 <= i < ms.len() implies out.contains(#[trigger] member_entry(ms[i], path)) by {
            if i == ms.len() - 1 {
                assert(out[at as int] == e);
            } else {
                assert(prefix[i] == ms[i]);
                let k = choose|k: int| 0 <= k < es.len() && es[k] == member_entry(prefix[i], path);
                if k < at {
                    assert(out[k] == es[k]);
                } else {
                    assert(out[k + 1] == es[k]);
                }
            }
        }
        assert forall|k: int| 0 <= k < ms.len() implies exists|i: int| 0 <= i < ms.len()
            && #[trigger] out[k] == member_entry(ms[i], path) by {
            if k == at {
                assert(out[k] == member_entry(ms[ms.len() - 1], path));
            } else {
                let kk = if k < at { k } else { k - 1 };
                assert(out[k] == es[kk]);
                let i = choose|i: int| 0 <= i < prefix.len() && es[kk] == member_entry(prefix[i], path);
                assert(prefix[i] == ms[i]);
            }
        }
    }
}

/// Two strictly ascending entry lists with symbol keys that hold the same
/// entries are equal.
proof fn lemma_sorted_lists_equal(a: Seq<(Val, Val)>, b: Seq<(Val, Val)>)
    requires
        a.len() == b.len(),
        symbol_keys(a),
        symbol_keys(b),
        keys_strictly_ascending(a),
        keys_strictly_ascending(b),
        forall|k: int| 0 <= k < a.len() ==> b.contains(#[trigger] a[k]),
        forall|k: int| 0 <= k < b.len() ==> a.contains(#[trigger] b[k]),
    ensures
        a == b,
    decreases a.len(),
{
    if a.len() > 0 {
        let j = choose|j: int| 0 <= j < b.len() && b[j] == a[0];
        let i = choose|i: int| 0 <= i < a.len() && a[i] == b[0];
        if j > 0 {
            assert(entry_less(b[0], b[j]));
            if i == 0 {
                assert(b[0] == b[j]);
                lemma_symbol_order_irreflexive(b[0].0->Symbol_0);
            } else {
                assert(entry_less(a[0], a[i]));
                lemma_symbol_order_transitive(a[0].0->Symbol_0, a[i].0->Symbol_0, a[0].0->Symbol_0);
                lemma_symbol_order_irreflexive(a[0].0->Symbol_0);
            }
        }
        assert(a[0] == b[0]);
        let a1 = a.drop_first();
        let b1 = b.drop_first();
        assert forall|k: int| 0 <= k < a1.len() implies b1.contains(#[trigger] a1[k]) by {
            let m = choose|m: int| 0 <= m < b.len() && b[m] == a[k + 1];
            assert(entry_less(a[0], a[k + 1]));
            if m == 0 {
                lemma_symbol_order_irreflexive(a[0].0->Symbol_0);
            }
            assert(b1[m - 1] == a1[k]);
        }
        assert forall|k: int| 0 <= k < b1.len() implies a1.contains(#[trigger] b1[k]) by {
            let m = choose|m: int| 0 <= m < a.len() && a[m] == b[k + 1];
            assert(entry_less(b[0], b[k + 1]));
            if m == 0 {
                lemma_symbol_order_irreflexive(b[0].0->Symbol_0);
            }
            assert(a1[m - 1] == b1[k]);
        }
        assert forall|x: int, y: int| 0 <= x < y < a1.len() implies #[trigger] entry_less(a1[x], a1[y]) by {
            assert(entry_less(a[x + 1], a[y + 1]));
        }
        assert forall|x: int, y: int| 0 <= x < y < b1.len() implies #[trigger] entry_less(b1[x], b1[y]) by {
            assert(entry_less(b[x + 1], b[y + 1]));
        }
        assert forall|k: int| 0 <= k < a1.len() implies (#[trigger] a1[k]).0 is Symbol by {
            assert(a1[k] == a[k + 1]);
        }
        assert forall|k: int| 0 <= k < b1.len() implies (#[trigger] b1[k]).0 is Symbol by {
            assert(b1[k] == b[k + 1]);
        }
        lemma_sorted_lists_equal(a1, b1);
        assert(a =~= seq![a[0]] + a1);
        assert(b =~= seq![b[0]] + b1);
    }
}

/// An object's members may come in any order: two member lists that are
/// rearrangements of each other, with distinct keys, parse to the same map.
pub proof fn lemma_parse_ignores_member_order(ms1: Seq<JsonMember>, ms2: Seq<JsonMember>, path: Seq<char>)
    requires
        ms1.to_multiset() == ms2.to_multiset(),
        forall|i: int, j: int|
            0 <= i < j < ms1.len() ==> #[trigger] encode_utf8(ms1[i].key@) != #[trigger] encode_utf8(ms1[j].key@),
        forall|i: int, j: int|
            0 <= i < j < ms2.len() ==> #[trigger] encode_utf8(ms2[i].key@) != #[trigger] encode_utf8(ms2[j].key@),
        parse_members(ms1, path) is Ok,
        parse_members(ms2, path) is Ok,
    ensures
        parse_members(ms1, path) == parse_members(ms2, path),
{
    lemma_parsed_map_is_sorted(ms1, path);
    lemma_parsed_map_is_sorted(ms2, path);
    lemma_members_become_entries(ms1, path);
    lemma_members_become_entries(ms2, path);
    let a = parse_members(ms1, path)->Ok_0;
    let b = parse_members(ms2, path)->Ok_0;
    ms1.to_multiset_ensures();
    ms2.to_multiset_ensures();
    assert forall|k: int| 0 <= k < a.len() implies b.contains(#[trigger] a[k]) by {
        let i = choose|i: int| 0 <= i < ms1.len() && a[k] == member_entry(ms1[i], path);
        assert(ms1.to_multiset().count(ms1[i]) > 0);
        assert(ms2.contains(ms1[i]));
        let j = choose|j: int| 0 <= j < ms2.len() && ms2[j] == ms1[i];
        assert(b.contains(member_entry(ms2[j], path)));
    }
    assert forall|k: int| 0 <= k < b.len() implies a.contains(#[trigger] b[k]) by {
        let i = choose|i: int| 0 <= i < ms2.len() && b[k] == member_entry(ms2[i], path);
        assert(ms2.to_multiset().count(ms2[i]) > 0);
        assert(ms1.contains(ms2[i]));
        let j = choose|j: int| 0 <= j < ms1.len() && ms1[j] == ms2[i];
        assert(a.contains(member_entry(ms1[j], path)));
    }
    assert(ms1.len() == ms1.to_multiset().len());
    assert(ms2.len() == ms2.to_multiset().len());
    lemma_sorted_lists_equal(a, b);
}

// ── parsing reads the tree's view alone ─────────────────────────────────────

/// Two JSON trees with the same view parse alike.
pub proof fn lemma_parse_json_view(j1: JsonValue, j2: JsonValue, path: Seq<char>)
    requires
        json_value_view(j1) == json_value_view(j2),
    ensures
        parse_json(j1, path) == parse_json(j2, path),
    decreases j1,
{
    match j1 {
        JsonValue::Array(items1) => {
            let items2 = j2->Array_0;
            assert(decreases_to!(j1 => j1->Array_0));
            vstd::std_specs::vec::axiom_vec_decreases_to_view(items1);
            lemma_parse_items_view(items1@, items2@, path);
        },
        JsonValue::Object(ms1) => {
            let ms2 = j2->Object_0;
            assert(decreases_to!(j1 => j1->Object_0));
            vstd::std_specs::vec::axiom_vec_decreases_to_view(ms1);
            lemma_parse_members_view(ms1@, ms2@, path);
        },
        _ => {},
    }
}

proof fn lemma_parse_items_view(s1: Seq<JsonValue>, s2: Seq<JsonValue>, path: Seq<char>)
    requires
        json_views(s1) == json_views(s2),
    ensures
        parse_items(s1, path) == parse_items(s2, path),
    decreases s1,
{
    crate::json::lemma_json_views_index(s1);
    crate::json::lemma_json_views_index(s2);
    if s1.len() > 0 {
        assert(json_views(s1.drop_last()) =~= json_views(s1).drop_last());
        assert(json_views(s2.drop_last()) =~= json_views(s2).drop_last());
        assert(json_views(s1)[s1.len() - 1] == json_value_view(s1.last()));
        assert(json_views(s2)[s2.len() - 1] == json_value_view(s2.last()));
        assert(decreases_to!(s1 => s1.drop_last()));
        lemma_parse_items_view(s1.drop_last(), s2.drop_last(), path);
        assert(decreases_to!(s1 => s1[s1.len() - 1]));
        lemma_parse_json_view(s1.last(), s2.last(), index_path(path, (s1.len() - 1) as nat));
    }
}

proof fn lemma_parse_members_view(s1: Seq<JsonMember>, s2: Seq<JsonMember>, path: Seq<char>)
    requires
        member_views(s1) == member_views(s2),
    ensures
        parse_members(s1, path) == parse_members(s2, path),
    decreases s1,
{
    crate::json::lemma_member_views_index(s1);
    crate::json::lemma_member_views_index(s2);
    if s1.len() > 0 {
        assert(member_views(s1.drop_last()) =~= member_views(s1).drop_last());
        assert(member_views(s2.drop_last()) =~= member_views(s2).drop_last());
        assert(member_views(s1)[s1.len() - 1] == (s1.last().key@, json_value_view(s1.last().value)));
        assert(member_views(s2)[s2.len() - 1] == (s2.last().key@, json_value_view(s2.last().value)));
        assert(decreases_to!(s1 => s1.drop_last()));
        lemma_parse_members_view(s1.drop_last(), s2.drop_last(), path);
        assert(decreases_to!(s1 => s1[s1.len() - 1]));
        assert(decreases_to!(s1[s1.len() - 1] => s1[s1.len() - 1].value));
        lemma_parse_json_view(s1.last().value, s2.last().value, member_path(path, s1.last().key@));
    }
}

// ── executable parts ────────────────────────────────────────────────────────

fn copy_from(b: &[u8], from: usize) -> (r: Vec<u8>)
    requires
        from <= b@.len(),
    ensures
        r@ == b@.subrange(from as int, b@.len() as int),
{
    let mut r: Vec<u8> = Vec::new();
    let mut i = from;
    while i < b.len()
        invariant
            from <= i <= b@.len(),
            r@ == b@.subrange(from as int, i as int),
        decreases b@.len() - i,
    {
        r.push(b[i]);
        i = i + 1;
        assert(r@ =~= b@.subrange(from as int, i as int));
    }
    r
}

fn is_valid_symbol(b: &Vec<u8>) -> (r: bool)
    ensures
        r == valid_symbol(b@),
{
    if b.len() < 1 || b.len() > 32 {
        return false;
    }
    let mut i: usize = 0;
    while i < b.len()
        invariant
            i <= b@.len(),
            forall|k: int| 0 <= k < i ==> #[trigger] is_symbol_byte(b@[k]),
        decreases b@.len() - i,
    {
        let c = b[i];
        if !((48 <= c && c <= 57) || (65 <= c && c <= 90) || (97 <= c && c <= 122) || c == 95) {
            assert(!is_symbol_byte(b@[i as int]));
            return false;
        }
        i = i + 1;
    }
    true
}

fn symbol_less(a: &Vec<u8>, b: &Vec<u8>) -> (r: bool)
    ensures
        r == symbol_key_less(a@, b@),
{
    if a.len() != b.len() {
        return a.len() < b.len();
    }
    let mut i: usize = 0;
    while i < a.len()
        invariant
            a@.len() == b@.len(),
            i <= a@.len(),
            lex_less_from(a@, b@, 0) == lex_less_from(a@, b@, i as nat),
        decreases a@.len() - i,
    {
        if a[i] != b[i] {
            return a[i] < b[i];
        }
        i = i + 1;
    }
    false
}

fn entry_key_less(x: &ScMapEntry, key: &Vec<u8>) -> (r: bool)
    ensures
        r == key_less(val_of(x.key), key@),
{
    match &x.key {
        ScVal::Symbol(k) => symbol_less(k, key),
        _ => false,
    }
}

fn index_path_string(path: &str, i: usize) -> (r: String)
    ensures
        r@ == index_path(path@, i as nat),
{
    let r = path.to_owned();
    let r = r.concat("[");
    let r = r.concat(decimal_string(i as u128).as_str());
    r.concat("]")
}

fn member_path_string(path: &str, key: &String) -> (r: String)
    ensures
        r@ == member_path(path@, key@),
{
    let r = path.to_owned();
    let r = r.concat(".");
    r.concat(key.as_str())
}

fn parse_string(s: &String, path: &str) -> (r: Result<ScVal, ParserError>)
    ensures
        result_view(r) == string_arg(s@, path@),
{
    let b = s.as_str().as_bytes();
    assert(b@ == encode_utf8(s@));
    assert(b@.subrange(0, b@.len() as int) =~= b@);
    if b.len() == 56 && (b[0] == 71 || b[0] == 67) {
        match decode_strkey(s.as_str()) {
            Ok((kind, key)) => {
                if kind == 0 {
                    return Ok(ScVal::Address(ScAddress::Account(key)));
                } else if kind == 1 {
                    return Ok(ScVal::Address(ScAddress::Contract(key)));
                }
            },
            Err(_) => {},
        }
    }
    if b.len() >= 1 && b[0] == 58 {
        let rest = copy_from(b, 1);
        if is_valid_symbol(&rest) {
            Ok(ScVal::Symbol(rest))
        } else {
            Err(ParserError::InvalidSymbol {
                location: path.to_owned(),
                details: "Symbol must be 1-32 characters".to_owned(),
            })
        }
    } else if b.len() >= 2 && b[0] == 48 && b[1] == 120 {
        let rest = copy_from(b, 2);
        match decode_hex(rest.as_slice()) {
            Ok(bytes) => Ok(ScVal::Bytes(bytes)),
            Err(m) => Err(ParserError::InvalidHex { location: path.to_owned(), details: m }),
        }
    } else {
        Ok(ScVal::String(copy_from(b, 0)))
    }
}

fn parse_number(n: &JsonNumber, path: &str) -> (r: Result<ScVal, ParserError>)
    ensures
        result_view(r) == number_arg(*n, path@),
{
    match n.as_i64 {
        Some(i) => Ok(ScVal::I64(i)),
        None => match n.as_u64 {
            Some(u) => Ok(ScVal::U64(u)),
            None => Err(ParserError::InvalidType {
                location: path.to_owned(),
                expected: "integer".to_owned(),
                found: "number ".to_owned().concat(n.text.as_str()),
            }),
        },
    }
}

/// What the argument parser gives for a JSON text.
pub open spec fn json_text_outcome(text: Seq<char>, r: Result<Val, ParserErrorView>) -> bool {
    match json_syntax_error(text) {
        Some(m) => r == Err::<Val, ParserErrorView>(ParserErrorView::InvalidType("$"@, "valid JSON"@, m)),
        None => (forall|j: JsonValue| #[trigger] json_value_view(j) == json_tree_of(text) ==> r == parse_json(j, "$"@))
            || r == Err::<Val, ParserErrorView>(ParserErrorView::InvalidType("$"@, "valid JSON"@, "nesting too deep"@)),
    }
}

/// Parses JSON-like command-line arguments into typed values.
pub struct ArgParser;

impl ArgParser {
    /// Parses a JSON text: a text that is not JSON is an `InvalidType`
    /// error at `$`; otherwise the result is what `parse_value` makes of the
    /// tree serde_json reads from it (or a nesting error for documents
    /// deeper than the tree is rebuilt).
    pub fn parse(json: &str) -> (r: Result<ScVal, ParserError>)
        ensures
            json_text_outcome(json@, result_view(r)),
    {
        match parse_json_text(json) {
            Err(m) => Err(ParserError::InvalidType {
                location: "$".to_owned(),
                expected: "valid JSON".to_owned(),
                found: m,
            }),
            Ok(v) => match json_from_serde(v, 256) {
                Some(j) => {
                    let r = Self::parse_value(&j, "$");
                    proof {
                        assert forall|k: JsonValue| #[trigger] json_value_view(k) == json_tree_of(json@)
                            implies result_view(r) == parse_json(k, "$"@) by {
                            lemma_parse_json_view(j, k, "$"@);
                        }
                    }
                    r
                },
                None => Err(ParserError::InvalidType {
                    location: "$".to_owned(),
                    expected: "valid JSON".to_owned(),
                    found: "nesting too deep".to_owned(),
                }),
            },
        }
    }

    /// The value that a JSON tree stands for, with errors located relative
    /// to `path`.
    pub fn parse_value(value: &JsonValue, path: &str) -> (r: Result<ScVal, ParserError>)
        ensures
            result_view(r) == parse_json(*value, path@),
        decreases value,
    {
        match value {
            JsonValue::Null => Ok(ScVal::Void),
            JsonValue::Bool(b) => Ok(ScVal::Bool(*b)),
            JsonValue::Number(n) => parse_number(n, path),
            JsonValue::String(s) => parse_string(s, path),
            JsonValue::Array(items) => {
                let mut out: Vec<ScVal> = Vec::new();
                let mut i: usize = 0;
                while i < items.len()
                    invariant
                        *value == JsonValue::Array(*items),
                        i <= items@.len(),
                        parse_items(items@.subrange(0, i as int), path@) == Ok::<Seq<Val>, ParserErrorView>(vals_of(out@)),
                    decreases items@.len() - i,
                {
                    proof {
                        assert(decreases_to!(*value => (*value)->Array_0));
                        assert(decreases_to!(*items => items[i as int]));
                    }
                    let p = index_path_string(path, i);
                    let ghost prefix = items@.subrange(0, i as int + 1);
                    proof {
                        assert(prefix.drop_last() =~= items@.subrange(0, i as int));
                    }
                    match Self::parse_value(&items[i], p.as_str()) {
                        Ok(v) => {
                            let ghost before = out@;
                            out.push(v);
                            assert(out@.drop_last() =~= before);
                        },
                        Err(e) => {
                            proof {
                                lemma_items_error_persists(items@, path@, i as int + 1, items@.len() as int);
                                assert(items@.subrange(0, items@.len() as int) =~= items@);
                            }
                            return Err(e);
                        },
                    }
                    i = i + 1;
                }
                assert(items@.subrange(0, items@.len() as int) =~= items@);
                Ok(ScVal::Vec(Some(out)))
            },
            JsonValue::Object(members) => {
                let mut out: Vec<ScMapEntry> = Vec::new();
                let mut i: usize = 0;
                while i < members.len()
                    invariant
                        *value == JsonValue::Object(*members),
                        i <= members@.len(),
                        parse_members(members@.subrange(0, i as int), path@) == Ok::<Seq<(Val, Val)>, ParserErrorView>(entries_of(out@)),
                    decreases members@.len() - i,
                {
                    proof {
                        assert(decreases_to!(*value => (*value)->Object_0));
                        assert(decreases_to!(*members => members[i as int]));
                        assert(decreases_to!(members[i as int] => members[i as int].value));
                    }
                    let member = &members[i];
                    let p = member_path_string(path, &member.key);
                    let ghost prefix = members@.subrange(0, i as int + 1);
                    proof {
                        assert(prefix.drop_last() =~= members@.subrange(0, i as int));
                    }
                    let key = copy_from(member.key.as_str().as_bytes(), 0);
                    assert(key@ =~= encode_utf8(member.key@));
                    if key.len() > 32 {
                        proof {
                            lemma_members_error_persists(members@, path@, i as int + 1, members@.len() as int);
                            assert(members@.subrange(0, members@.len() as int) =~= members@);
                        }
                        return Err(ParserError::InvalidSymbol {
                            location: p,
                            details: "Key name too long for symbol".to_owned(),
                        });
                    }
                    match Self::parse_value(&member.value, p.as_str()) {
                        Ok(v) => {
                            let ghost es = entries_of(out@);
                            let ghost e = (Val::Symbol(key@), val_of(v));
                            let mut at: usize = 0;
                            proof {
                                lemma_entries_of_index(out@);
                                assert(es.subrange(0, es.len() as int) =~= es);
                            }
                            while at < out.len()
                                invariant
                                    e == (Val::Symbol(key@), val_of(v)),
                                    es == entries_of(out@),
                                    es.len() == out@.len(),
                                    forall|k: int| 0 <= k < out@.len() ==> #[trigger] es[k] == (val_of(out@[k].key), val_of(out@[k].val)),
                                    at <= out@.len(),
                                    insertion_point(es, e) == at + insertion_point(es.subrange(at as int, es.len() as int), e),
                                ensures
                                    e == (Val::Symbol(key@), val_of(v)),
                                    es == entries_of(out@),
                                    es.len() == out@.len(),
                                    at <= out@.len(),
                                    insertion_point(es, e) == at + insertion_point(es.subrange(at as int, es.len() as int), e),
                                    at == out@.len() || !entry_less(es[at as int], e),
                                decreases out@.len() - at,
                            {
                                proof {
                                    lemma_insertion_point_step(es, e, at as int);
                                }
                                let less = entry_key_less(&out[at], &key);
                                assert(es[at as int] == (val_of(out@[at as int].key), val_of(out@[at as int].val)));
                                assert(less == entry_less(es[at as int], e));
                                if !less {
                                    break;
                                }
                                at = at + 1;
                            }
                            proof {
                                lemma_insertion_point_bound(es, e);
                                if at == out@.len() {
                                    assert(es.subrange(at as int, es.len() as int) =~= Seq::<(Val, Val)>::empty());
                                } else {
                                    lemma_insertion_point_step(es, e, at as int);
                                }
                                lemma_entries_of_insert(out@, at as int, ScMapEntry { key: ScVal::Symbol(key), val: v });
                            }
                            let entry = ScMapEntry { key: ScVal::Symbol(key), val: v };
                            out.insert(at, entry);
                            proof {
                                assert(entries_of(out@) == es.insert(insertion_point(es, e) as int, e));
                                assert(encode_utf8(prefix.last().key@) == key@);
                            }
                        },
                        Err(e) => {
                            proof {
                                lemma_members_error_persists(members@, path@, i as int + 1, members@.len() as int);
                                assert(members@.subrange(0, members@.len() as int) =~= members@);
                            }
                            return Err(e);
                        },
                    }
                    i = i + 1;
                }
                assert(members@.subrange(0, members@.len() as int) =~= members@);
                Ok(ScVal::Mapping(Some(out)))
            },
        }
    }
}

} // verus!
