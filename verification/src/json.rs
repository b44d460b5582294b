//! JSON as the library reads it (`Json`, decoded by `serde_json`) and as it
//! writes it (`Payload`, encoded by `serde_json`), with navigation by JSON
//! pointer.
use vstd::prelude::*;
use vstd::string::*;
use crate::text::{decimal, decimal_chars, hex_char, string_of};

verus! {

/// `serde_json::Value`, the tree `serde_json` decodes into and encodes from.
#[verifier::external_type_specification]
#[verifier::external_body]
pub struct ExJsonValue(serde_json::Value);

/// A decoded JSON value. Numbers are kept as a bare marker: nothing the
/// library does reads them.
pub enum Json {
    Null,
    Bool(bool),
    Num,
    Str(String),
    Arr(Vec<Json>),
    Obj(Vec<(String, Json)>),
}

/// The mathematical content of a decoded JSON value.
pub enum JsonV {
    Null,
    Bool(bool),
    Num,
    Str(Seq<char>),
    Arr(Seq<JsonV>),
    Obj(Seq<(Seq<char>, JsonV)>),
}

pub open spec fn json_view(j: Json) -> JsonV
    decreases j,
{
    match j {
        Json::Null => JsonV::Null,
        Json::Bool(b) => JsonV::Bool(b),
        Json::Num => JsonV::Num,
        Json::Str(s) => JsonV::Str(s@),
        Json::Arr(a) => JsonV::Arr(
            Seq::new(
                a@.len(),
                |i: int|
                    if 0 <= i < a@.len() {
                        proof {
                            assert(decreases_to!(a => a@));
                            assert(decreases_to!(a@ => a@[i]));
                        }
                        json_view(a@[i])
                    } else {
                        JsonV::Null
                    },
            ),
        ),
        Json::Obj(m) => JsonV::Obj(
            Seq::new(
                m@.len(),
                |i: int|
                    if 0 <= i < m@.len() {
                        proof {
                            assert(decreases_to!(m => m@));
                            assert(decreases_to!(m@ => m@[i]));
                            assert(decreases_to!(m@[i] => m@[i].1));
                        }
                        (m@[i].0@, json_view(m@[i].1))
                    } else {
                        (Seq::empty(), JsonV::Null)
                    },
            ),
        ),
    }
}

impl View for Json {
    type V = JsonV;

    open spec fn view(&self) -> JsonV {
        json_view(*self)
    }
}

/// `Value::as_str`.
pub open spec fn as_str(v: JsonV) -> Option<Seq<char>> {
    match v {
        JsonV::Str(s) => Some(s),
        _ => None,
    }
}

/// `Value::as_array`.
pub open spec fn as_arr(v: JsonV) -> Option<Seq<JsonV>> {
    match v {
        JsonV::Arr(a) => Some(a),
        _ => None,
    }
}

/// `Value::get` with an integer index: arrays only.
pub open spec fn index(v: JsonV, k: nat) -> Option<JsonV> {
    match v {
        JsonV::Arr(a) => if k < a.len() {
            Some(a[k as int])
        } else {
            None
        },
        _ => None,
    }
}

/// The value of the first entry of `m` from position `i` on whose key is `key`.
pub open spec fn lookup_from(m: Seq<(Seq<char>, JsonV)>, key: Seq<char>, i: int) -> Option<JsonV>
    decreases m.len() - i,
{
    if 0 <= i < m.len() {
        if m[i].0 == key {
            Some(m[i].1)
        } else {
            lookup_from(m, key, i + 1)
        }
    } else {
        None
    }
}

/// One step of a JSON pointer whose token is the decimal text of `k`:
/// an array is indexed by `k`, an object looked up by that text.
pub open spec fn step(v: JsonV, k: nat) -> Option<JsonV> {
    match v {
        JsonV::Arr(a) => index(v, k),
        JsonV::Obj(m) => lookup_from(m, decimal(k), 0),
        _ => None,
    }
}

/// The rest of a pointer walk from token position `i`.
pub open spec fn pointer_from(v: JsonV, path: Seq<nat>, i: int) -> Option<JsonV>
    decreases path.len() - i,
{
    if 0 <= i < path.len() {
        match step(v, path[i]) {
            Some(w) => pointer_from(w, path, i + 1),
            None => None,
        }
    } else {
        Some(v)
    }
}

/// `Value::pointer` for the pointer `/path[0]/path[1]/...`.
pub open spec fn pointer(v: JsonV, path: Seq<nat>) -> Option<JsonV> {
    pointer_from(v, path, 0)
}

/// The string at a pointer, if there is one.
pub open spec fn str_at(v: JsonV, path: Seq<nat>) -> Option<Seq<char>> {
    match pointer(v, path) {
        Some(w) => as_str(w),
        None => None,
    }
}

/// View of an optional borrowed value.
pub open spec fn opt_ref_view(o: Option<&Json>) -> Option<JsonV> {
    match o {
        Some(j) => Some(j@),
        None => None,
    }
}

proof fn lemma_arr_view(a: Vec<Json>, i: int)
    requires
        0 <= i < a@.len(),
    ensures
        json_view(Json::Arr(a)) matches JsonV::Arr(s) && s.len() == a@.len() && s[i] == a@[i]@,
{
}

proof fn lemma_obj_view(m: Vec<(String, Json)>, i: int)
    requires
        0 <= i < m@.len(),
    ensures
        json_view(Json::Obj(m)) matches JsonV::Obj(s) && s.len() == m@.len() && s[i] == (
        m@[i].0@,
        m@[i].1@,
        ),
{
}

/// `Value::as_str`.
pub fn get_str(j: &Json) -> (r: Option<&String>)
    ensures
        match r {
            Some(s) => as_str(j@) == Some(s@),
            None => as_str(j@) is None,
        },
{
    match j {
        Json::Str(s) => Some(s),
        _ => None,
    }
}

/// `Value::as_array`.
pub fn get_arr(j: &Json) -> (r: Option<&Vec<Json>>)
    ensures
        match r {
            Some(a) => as_arr(j@) == Some(Seq::new(a@.len(), |i: int| a@[i]@)),
            None => as_arr(j@) is None,
        },
{
    match j {
        Json::Arr(a) => {
            proof {
                assert(as_arr(j@).unwrap() =~= Seq::new(a@.len(), |i: int| a@[i]@));
            }
            Some(a)
        },
        _ => None,
    }
}

/// `Value::get` with an integer index.
pub fn get_index(j: &Json, k: usize) -> (r: Option<&Json>)
    ensures
        opt_ref_view(r) == index(j@, k as nat),
{
    match j {
        Json::Arr(a) => {
            if k < a.len() {
                proof {
                    lemma_arr_view(*a, k as int);
                }
                Some(&a[k])
            } else {
                None
            }
        },
        _ => None,
    }
}

fn lookup_exec<'a>(m: &'a Vec<(String, Json)>, key: &String) -> (r: Option<&'a Json>)
    ensures
        opt_ref_view(r) == lookup_from(json_view(Json::Obj(*m))->Obj_0, key@, 0),
{
    let ghost mv = json_view(Json::Obj(*m))->Obj_0;
    let mut i: usize = 0;
    while i < m.len()
        invariant
            i <= m@.len(),
            mv == json_view(Json::Obj(*m))->Obj_0,
            mv.len() == m@.len(),
            lookup_from(mv, key@, i as int) == lookup_from(mv, key@, 0),
        decreases m@.len() - i,
    {
        proof {
            lemma_obj_view(*m, i as int);
        }
        if m[i].0 == *key {
            return Some(&m[i].1);
        }
        i = i + 1;
    }
    None
}

/// One pointer step with the token `k`.
pub fn get_step(j: &Json, k: usize) -> (r: Option<&Json>)
    ensures
        opt_ref_view(r) == step(j@, k as nat),
{
    match j {
        Json::Arr(_) => get_index(j, k),
        Json::Obj(m) => {
            let key = string_of(&decimal_chars(k as u64));
            lookup_exec(m, &key)
        },
        _ => None,
    }
}

/// `Value::pointer` for the pointer `/path[0]/path[1]/...`.
pub fn get_pointer<'a>(j: &'a Json, path: &[usize]) -> (r: Option<&'a Json>)
    ensures
        opt_ref_view(r) == pointer(j@, path@.map_values(|k: usize| k as nat)),
{
    let ghost p = path@.map_values(|k: usize| k as nat);
    let mut cur = j;
    let mut i: usize = 0;
    while i < path.len()
        invariant
            i <= path@.len(),
            p == path@.map_values(|k: usize| k as nat),
            pointer_from(cur@, p, i as int) == pointer_from(j@, p, 0),
        decreases path@.len() - i,
    {
        match get_step(cur, path[i]) {
            Some(next) => {
                cur = next;
            },
            None => {
                return None;
            },
        }
        i = i + 1;
    }
    Some(cur)
}

/// The string at a pointer.
pub fn get_str_at<'a>(j: &'a Json, path: &[usize]) -> (r: Option<&'a String>)
    ensures
        match r {
            Some(s) => str_at(j@, path@.map_values(|k: usize| k as nat)) == Some(s@),
            None => str_at(j@, path@.map_values(|k: usize| k as nat)) is None,
        },
{
    match get_pointer(j, path) {
        Some(v) => get_str(v),
        None => None,
    }
}

/// What `serde_json` makes of a JSON text: `None` where the text is not JSON.
pub uninterp spec fn json_decode(text: Seq<char>) -> Option<JsonV>;

#[verifier::external_body]
fn from_value(v: &serde_json::Value) -> Json {
    match v {
        serde_json::Value::Null => Json::Null,
        serde_json::Value::Bool(b) => Json::Bool(*b),
        serde_json::Value::Number(_) => Json::Num,
        serde_json::Value::String(s) => Json::Str(s.clone()),
        serde_json::Value::Array(a) => Json::Arr(a.iter().map(from_value).collect()),
        serde_json::Value::Object(m) => Json::Obj(
            m.iter().map(|(k, x)| (k.clone(), from_value(x))).collect(),
        ),
    }
}

/// Decodes a JSON text with `serde_json::from_str::<serde_json::Value>`.
/// Trusted: the result is `json_decode` of the text, an error exactly where
/// that is `None`; what `json_decode` is, nothing here states.
#[verifier::external_body]
pub fn decode(text: &str) -> (r: Result<Json, serde_json::Error>)
    ensures
        r is Ok <==> json_decode(text@) is Some,
        r matches Ok(j) ==> Some(j@) == json_decode(text@),
{
    match serde_json::from_str::<serde_json::Value>(text) {
        Ok(v) => Ok(from_value(&v)),
        Err(e) => Err(e),
    }
}

/// A JSON value the library writes: the request bodies it builds hold only
/// nulls, integers, strings and arrays.
pub enum Payload {
    Null,
    Int(i64),
    Text(String),
    List(Vec<Payload>),
}

/// The mathematical content of a `Payload`.
pub enum PayloadV {
    Null,
    Int(int),
    Text(Seq<char>),
    List(Seq<PayloadV>),
}

pub open spec fn payload_view(p: Payload) -> PayloadV
    decreases p,
{
    match p {
        Payload::Null => PayloadV::Null,
        Payload::Int(n) => PayloadV::Int(n as int),
        Payload::Text(s) => PayloadV::Text(s@),
        Payload::List(a) => PayloadV::List(
            Seq::new(
                a@.len(),
                |i: int|
                    if 0 <= i < a@.len() {
                        proof {
                            assert(decreases_to!(a => a@));
                            assert(decreases_to!(a@ => a@[i]));
                        }
                        payload_view(a@[i])
                    } else {
                        PayloadV::Null
                    },
            ),
        ),
    }
}

impl View for Payload {
    type V = PayloadV;

    open spec fn view(&self) -> PayloadV {
        payload_view(*self)
    }
}

/// Views of a sequence of payloads.
pub open spec fn payloads_view(s: Seq<Payload>) -> Seq<PayloadV> {
    Seq::new(s.len(), |i: int| s[i]@)
}

/// A list payload's view is the list of its items' views.
pub proof fn lemma_list_view(a: Vec<Payload>)
    ensures
        Payload::List(a)@ == PayloadV::List(payloads_view(a@)),
{
    let v = payload_view(Payload::List(a));
    assert(v->List_0 =~= payloads_view(a@));
}

/// A list payload from its items.
pub fn list(items: Vec<Payload>) -> (p: Payload)
    ensures
        p@ == PayloadV::List(payloads_view(items@)),
{
    proof {
        lemma_list_view(items);
    }
    Payload::List(items)
}

/// A string payload.
pub fn text(s: &str) -> (p: Payload)
    ensures
        p@ == PayloadV::Text(s@),
{
    Payload::Text(String::from_str(s))
}

/// A null payload.
pub fn null() -> (p: Payload)
    ensures
        p@ == PayloadV::Null,
{
    Payload::Null
}

/// An integer payload.
pub fn integer(n: i64) -> (p: Payload)
    ensures
        p@ == PayloadV::Int(n as int),
{
    Payload::Int(n)
}

/// A string payload holding a copy of `s`.
pub fn text_of(s: &String) -> (p: Payload)
    ensures
        p@ == PayloadV::Text(s@),
{
    Payload::Text(s.clone())
}

/// Appends one payload.
pub fn push_item(v: &mut Vec<Payload>, x: Payload)
    ensures
        payloads_view(final(v)@) == payloads_view(old(v)@).push(x@),
{
    let ghost before = payloads_view(v@);
    let ghost xv = x@;
    v.push(x);
    assert(payloads_view(v@) =~= before.push(xv));
}

/// `n` null payloads.
pub open spec fn nulls(n: nat) -> Seq<PayloadV> {
    Seq::new(n, |i: int| PayloadV::Null)
}

/// Appends `n` null payloads.
pub fn push_nulls(v: &mut Vec<Payload>, n: usize)
    ensures
        payloads_view(final(v)@) == payloads_view(old(v)@) + nulls(n as nat),
{
    let mut k: usize = 0;
    while k < n
        invariant
            k <= n,
            payloads_view(v@) == payloads_view(old(v)@) + nulls(k as nat),
        decreases n - k,
    {
        let ghost before = payloads_view(v@);
        v.push(Payload::Null);
        assert(payloads_view(v@) =~= before.push(PayloadV::Null));
        k = k + 1;
        assert(payloads_view(v@) =~= payloads_view(old(v)@) + nulls(k as nat));
    }
}

/// How a character of a string stands in compact JSON text: `"` and `\`
/// behind a backslash, the short escapes `\b \t \n \f \r`, any other
/// character below U+0020 as `\u00` and two lower-case hexadecimal digits,
/// every other character as itself.
pub open spec fn escape_char(c: char) -> Seq<char> {
    let n = c as int;
    if c == '"' {
        seq!['\\', '"']
    } else if c == '\\' {
        seq!['\\', '\\']
    } else if n == 8 {
        seq!['\\', 'b']
    } else if n == 9 {
        seq!['\\', 't']
    } else if n == 10 {
        seq!['\\', 'n']
    } else if n == 12 {
        seq!['\\', 'f']
    } else if n == 13 {
        seq!['\\', 'r']
    } else if n < 32 {
        seq!['\\', 'u', '0', '0', hex_char((n / 16) as nat, false), hex_char((n % 16) as nat, false)]
    } else {
        seq![c]
    }
}

/// The escaped contents of a JSON string.
pub open spec fn escaped(s: Seq<char>) -> Seq<char>
    decreases s.len(),
{
    if s.len() == 0 {
        Seq::empty()
    } else {
        escaped(s.drop_last()) + escape_char(s.last())
    }
}

/// An integer in JSON text: its decimal digits, behind `-` when negative.
pub open spec fn int_text(n: int) -> Seq<char> {
    if n < 0 {
        seq!['-'] + decimal((-n) as nat)
    } else {
        decimal(n as nat)
    }
}

/// The compact JSON text of a payload, as `serde_json::to_string` writes
/// the `serde_json::Value` it stands for: `null`, an integer, a quoted
/// escaped string, or the items of a list between brackets, separated by
/// commas, with no white space.
pub open spec fn json_encode(p: PayloadV) -> Seq<char>
    decreases p,
{
    match p {
        PayloadV::Null => seq!['n', 'u', 'l', 'l'],
        PayloadV::Int(n) => int_text(n),
        PayloadV::Text(s) => seq!['"'] + escaped(s) + seq!['"'],
        PayloadV::List(a) => seq!['['] + items_text(a) + seq![']'],
    }
}

/// The JSON texts of list items, separated by commas.
pub open spec fn items_text(a: Seq<PayloadV>) -> Seq<char>
    decreases a,
{
    if a.len() == 0 {
        Seq::empty()
    } else if a.len() == 1 {
        json_encode(a[0])
    } else {
        items_text(a.subrange(0, a.len() - 1)) + seq![','] + json_encode(a[a.len() - 1])
    }
}

#[verifier::external_body]
fn to_value(p: &Payload) -> serde_json::Value {
    match p {
        Payload::Null => serde_json::Value::Null,
        Payload::Int(n) => serde_json::Value::from(*n),
        Payload::Text(s) => serde_json::Value::String(s.clone()),
        Payload::List(a) => serde_json::Value::Array(a.iter().map(to_value).collect()),
    }
}

/// Encodes a payload with `serde_json::to_string` of the `serde_json::Value`
/// it stands for. Trusted: the call succeeds (a `Value` of null, integers,
/// strings and arrays has no map key that could fail, and the writer is a
/// `Vec<u8>`), and the text is `json_encode` of the payload, as serde_json's
/// compact formatter and escape table write it.
#[verifier::external_body]
pub fn encode(p: &Payload) -> (r: Result<String, serde_json::Error>)
    ensures
        r is Ok,
        r matches Ok(s) ==> s@ == json_encode(p@),
{
    serde_json::to_string(&to_value(p))
}

} // verus!
