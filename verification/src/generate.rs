//! The `StreamGenerate` request that asks for an image: random ids in UUID
//! form, the 92-slot request body, the headers that pick the image model.
use vstd::prelude::*;
use vstd::string::*;
use crate::auth::{Session, SessionV};
use crate::endpoints::{generate as generate_endpoint, generate_url};
use crate::error::GeminiError;
use crate::json::{
    encode, integer, json_encode, list, null, payloads_view, push_item, text, text_of, Payload, PayloadV,
};
use crate::request::{HttpRequest, Method, RequestV, pair};
use crate::text::{hex_char, string_of};

verus! {

/// Image model the model header selects.
pub const MODEL_ID: &'static str = "56fdd199312815e2";

/// The bytes of a random (version 4, RFC 4122 variant) UUID.
pub open spec fn is_v4(b: Seq<u8>) -> bool {
    &&& b.len() == 16
    &&& b[6] / 16 == 4
    &&& b[8] / 64 == 2
}

/// Sixteen random bytes from `uuid::Uuid::new_v4`. Trusted: the version
/// nibble is 4 and the variant bits are `10`, as `new_v4` masks them in;
/// the other bits are random and nothing is said of them. `new_v4` draws
/// them from the operating system's random source and panics if that source
/// fails, a failure of the machine that no input causes.
#[verifier::external_body]
fn random_uuid() -> (b: Vec<u8>)
    ensures
        is_v4(b@),
{
    uuid::Uuid::new_v4().as_bytes().to_vec()
}

/// Two hexadecimal digits per byte, high nibble first (`Uuid::simple`).
pub open spec fn hex_of(b: Seq<u8>, upper: bool) -> Seq<char> {
    Seq::new(
        2 * b.len(),
        |i: int|
            if i % 2 == 0 {
                hex_char((b[i / 2] / 16) as nat, upper)
            } else {
                hex_char((b[i / 2] % 16) as nat, upper)
            },
    )
}

/// The 8-4-4-4-12 form of a UUID (`Uuid`'s `Display`, `Uuid::hyphenated`).
pub open spec fn hyphenated(b: Seq<u8>, upper: bool) -> Seq<char> {
    let h = hex_of(b, upper);
    h.subrange(0, 8) + seq!['-'] + h.subrange(8, 12) + seq!['-'] + h.subrange(12, 16) + seq!['-']
        + h.subrange(16, 20) + seq!['-'] + h.subrange(20, 32)
}

fn hex_char_exec(d: u8, upper: bool) -> (c: char)
    requires
        d < 16,
    ensures
        c == hex_char(d as nat, upper),
{
    if d < 10 {
        (48u8 + d) as char
    } else if upper {
        (55u8 + d) as char
    } else {
        (87u8 + d) as char
    }
}

fn hex_exec(b: &Vec<u8>, upper: bool) -> (r: Vec<char>)
    ensures
        r@ == hex_of(b@, upper),
{
    let mut r: Vec<char> = Vec::new();
    let mut k: usize = 0;
    while k < b.len()
        invariant
            k <= b@.len(),
            r@ == hex_of(b@.take(k as int), upper),
        decreases b@.len() - k,
    {
        let ghost before = r@;
        r.push(hex_char_exec(b[k] / 16, upper));
        r.push(hex_char_exec(b[k] % 16, upper));
        assert(r@ =~= hex_of(b@.take(k + 1), upper)) by {
            assert forall|i: int| 0 <= i < 2 * (k + 1) implies r@[i] == hex_of(
                b@.take(k + 1),
                upper,
            )[i] by {
                if i < 2 * k {
                    assert(b@.take(k + 1)[i / 2] == b@.take(k as int)[i / 2]);
                } else {
                    assert(i / 2 == k);
                }
            }
        }
        k = k + 1;
    }
    assert(b@.take(k as int) =~= b@);
    r
}

/// The 32 hexadecimal digits of a UUID, lower case (`Uuid::simple`).
pub fn uuid_simple(b: &Vec<u8>) -> (s: String)
    requires
        b@.len() == 16,
    ensures
        s@ == hex_of(b@, false),
{
    string_of(&hex_exec(b, false))
}

/// The 8-4-4-4-12 form of a UUID in upper case (`Uuid::to_string`, then
/// `str::to_uppercase`).
pub fn uuid_hyphenated_upper(b: &Vec<u8>) -> (s: String)
    requires
        b@.len() == 16,
    ensures
        s@ == hyphenated(b@, true),
{
    let h = hex_exec(b, true);
    let mut r: Vec<char> = Vec::new();
    let mut k: usize = 0;
    while k < 32
        invariant
            k <= 32,
            h@ == hex_of(b@, true),
            h@.len() == 32,
            r@ == hyphenated(b@, true).take(
                k + (if k > 20 {
                    4int
                } else if k > 16 {
                    3int
                } else if k > 12 {
                    2int
                } else if k > 8 {
                    1int
                } else {
                    0int
                }),
            ),
        decreases 32 - k,
    {
        if k == 8 || k == 12 || k == 16 || k == 20 {
            r.push('-');
        }
        r.push(h[k]);
        k = k + 1;
        assert(r@ =~= hyphenated(b@, true).take(
            k + (if k > 20 {
                4int
            } else if k > 16 {
                3int
            } else if k > 12 {
                2int
            } else if k > 8 {
                1int
            } else {
                0int
            }),
        ));
    }
    assert(r@ =~= hyphenated(b@, true));
    string_of(&r)
}

/// Slot `i` of the 92-slot `StreamGenerate` body for a prompt; slots not
/// named here are null.
pub open spec fn inner_slot(i: int, prompt: Seq<char>, turn: Seq<char>, req: Seq<char>) -> PayloadV {
    if i == 0 {
        PayloadV::List(
            seq![
                PayloadV::Text(prompt),
                PayloadV::Int(0),
                PayloadV::Null,
                PayloadV::Null,
                PayloadV::Null,
                PayloadV::Null,
                PayloadV::Int(0),
            ],
        )
    } else if i == 1 {
        PayloadV::List(seq![PayloadV::Text("en"@)])
    } else if i == 2 {
        PayloadV::List(
            seq![
                PayloadV::Text(""@),
                PayloadV::Text(""@),
                PayloadV::Text(""@),
                PayloadV::Null,
                PayloadV::Null,
                PayloadV::Null,
                PayloadV::Null,
                PayloadV::Null,
                PayloadV::Null,
                PayloadV::Text(""@),
            ],
        )
    } else if i == 4 {
        PayloadV::Text(req)
    } else if i == 6 || i == 41 {
        PayloadV::List(seq![PayloadV::Int(1)])
    } else if i == 7 || i == 10 || i == 27 || i == 79 || i == 80 {
        PayloadV::Int(1)
    } else if i == 11 || i == 18 || i == 53 || i == 67 || i == 91 {
        PayloadV::Int(0)
    } else if i == 17 {
        PayloadV::List(seq![PayloadV::List(seq![PayloadV::Int(0)])])
    } else if i == 30 {
        PayloadV::List(seq![PayloadV::Int(4)])
    } else if i == 59 {
        PayloadV::Text(turn)
    } else if i == 61 {
        PayloadV::List(Seq::empty())
    } else if i == 68 {
        PayloadV::Int(2)
    } else {
        PayloadV::Null
    }
}

/// The `StreamGenerate` body for a prompt, turn id and request id.
pub open spec fn inner_spec(prompt: Seq<char>, turn: Seq<char>, req: Seq<char>) -> PayloadV {
    PayloadV::List(Seq::new(92, |i: int| inner_slot(i, prompt, turn, req)))
}

/// Builds the 92-slot `StreamGenerate` body.
pub fn build_inner(prompt: &str, turn_uuid: &str, req_hex: &str) -> (p: Payload)
    ensures
        p@ == inner_spec(prompt@, turn_uuid@, req_hex@),
{
    let mut message: Vec<Payload> = Vec::new();
    push_item(&mut message, text(prompt));
    push_item(&mut message, integer(0));
    push_item(&mut message, null());
    push_item(&mut message, null());
    push_item(&mut message, null());
    push_item(&mut message, null());
    push_item(&mut message, integer(0));
    let ghost message_v = payloads_view(message@);
    let mut lang: Vec<Payload> = Vec::new();
    push_item(&mut lang, text("en"));
    let ghost lang_v = payloads_view(lang@);
    let mut metadata: Vec<Payload> = Vec::new();
    push_item(&mut metadata, text(""));
    push_item(&mut metadata, text(""));
    push_item(&mut metadata, text(""));
    push_item(&mut metadata, null());
    push_item(&mut metadata, null());
    push_item(&mut metadata, null());
    push_item(&mut metadata, null());
    push_item(&mut metadata, null());
    push_item(&mut metadata, null());
    push_item(&mut metadata, text(""));
    let ghost metadata_v = payloads_view(metadata@);
    let mut one_a: Vec<Payload> = Vec::new();
    push_item(&mut one_a, integer(1));
    let mut one_b: Vec<Payload> = Vec::new();
    push_item(&mut one_b, integer(1));
    let mut zero: Vec<Payload> = Vec::new();
    push_item(&mut zero, integer(0));
    let ghost zero_v = payloads_view(zero@);
    let mut zero_zero: Vec<Payload> = Vec::new();
    push_item(&mut zero_zero, list(zero));
    let mut four: Vec<Payload> = Vec::new();
    push_item(&mut four, integer(4));
    let ghost one_a_v = payloads_view(one_a@);
    let ghost one_b_v = payloads_view(one_b@);
    let ghost zero_zero_v = payloads_view(zero_zero@);
    let ghost four_v = payloads_view(four@);
    let empty: Vec<Payload> = Vec::new();
    let ghost empty_v = payloads_view(empty@);
    let mut inner: Vec<Payload> = Vec::new();
    let mut k: usize = 0;
    while k < 92
        invariant
            k <= 92,
            inner@.len() == k,
            forall|i: int| 0 <= i < k ==> (#[trigger] inner@[i])@ == PayloadV::Null,
        decreases 92 - k,
    {
        inner.push(null());
        k = k + 1;
    }
    inner.set(0, list(message));
    inner.set(1, list(lang));
    inner.set(2, list(metadata));
    inner.set(4, text(req_hex));
    inner.set(6, list(one_a));
    inner.set(7, integer(1));
    inner.set(10, integer(1));
    inner.set(11, integer(0));
    inner.set(17, list(zero_zero));
    inner.set(18, integer(0));
    inner.set(27, integer(1));
    inner.set(30, list(four));
    inner.set(41, list(one_b));
    inner.set(53, integer(0));
    inner.set(59, text(turn_uuid));
    inner.set(61, list(empty));
    inner.set(67, integer(0));
    inner.set(68, integer(2));
    inner.set(79, integer(1));
    inner.set(80, integer(1));
    inner.set(91, integer(0));
    let ghost inner_v = payloads_view(inner@);
    proof {
        assert(message_v =~= seq![
            PayloadV::Text(prompt@),
            PayloadV::Int(0),
            PayloadV::Null,
            PayloadV::Null,
            PayloadV::Null,
            PayloadV::Null,
            PayloadV::Int(0),
        ]);
        assert(lang_v =~= seq![PayloadV::Text("en"@)]);
        assert(metadata_v =~= seq![
            PayloadV::Text(""@),
            PayloadV::Text(""@),
            PayloadV::Text(""@),
            PayloadV::Null,
            PayloadV::Null,
            PayloadV::Null,
            PayloadV::Null,
            PayloadV::Null,
            PayloadV::Null,
            PayloadV::Text(""@),
        ]);
        assert(one_a_v =~= seq![PayloadV::Int(1)]);
        assert(one_b_v =~= seq![PayloadV::Int(1)]);
        assert(zero_v =~= seq![PayloadV::Int(0)]);
        assert(zero_zero_v =~= seq![PayloadV::List(seq![PayloadV::Int(0)])]);
        assert(four_v =~= seq![PayloadV::Int(4)]);
        assert(empty_v =~= Seq::<PayloadV>::empty());
        assert(inner_v =~= Seq::new(92, |i: int| inner_slot(i, prompt@, turn_uuid@, req_hex@)));
    }
    list(inner)
}

/// UUID law: the text of every random id is 36 characters of the form
/// `xxxxxxxx-xxxx-4xxx-Yxxx-xxxxxxxxxxxx`, `Y` one of `8`, `9`, `A`, `B`.
pub proof fn law_v4_text(b: Seq<u8>)
    requires
        is_v4(b),
    ensures
        hyphenated(b, true).len() == 36,
        hyphenated(b, true)[8] == '-' && hyphenated(b, true)[13] == '-' && hyphenated(b, true)[18]
            == '-' && hyphenated(b, true)[23] == '-',
        hyphenated(b, true)[14] == '4',
        hyphenated(b, true)[19] == '8' || hyphenated(b, true)[19] == '9' || hyphenated(b, true)[19]
            == 'A' || hyphenated(b, true)[19] == 'B',
{
    let h = hex_of(b, true);
    assert(hyphenated(b, true)[14] == h[12]);
    assert(hyphenated(b, true)[19] == h[16]);
    assert(h[12] == hex_char((b[6] / 16) as nat, true));
    assert(h[16] == hex_char((b[8] / 16) as nat, true));
    assert(8 <= b[8] / 16 <= 11);
}

/// The `f.req` envelope around the encoded body: `[null, body]`.
pub open spec fn freq_spec(inner: Seq<char>) -> PayloadV {
    PayloadV::List(seq![PayloadV::Null, PayloadV::Text(inner)])
}

/// Header value that selects the image model for a model-session id.
pub open spec fn model_header_spec(model_uuid: Seq<char>) -> Seq<char> {
    "[1,null,null,null,\""@ + MODEL_ID@ + "\",null,null,0,[4,5,6,8],null,null,2,null,null,1,1,\""@
        + model_uuid + "\"]"@
}

/// Header value that names the turn.
pub open spec fn turn_header_spec(turn_uuid: Seq<char>) -> Seq<char> {
    "[\""@ + turn_uuid + "\",1]"@
}

/// The `StreamGenerate` request carrying the encoded envelope `freq`.
pub open spec fn generate_request_spec(
    s: SessionV,
    authuser: nat,
    model_uuid: Seq<char>,
    turn_uuid: Seq<char>,
    freq: Seq<char>,
) -> RequestV {
    RequestV {
        method: Method::Post,
        url: generate_url(authuser),
        query: seq![
            ("bl"@, s.build_label),
            ("f.sid"@, s.session_id),
            ("hl"@, "en"@),
            ("pageId"@, "none"@),
            ("_reqid"@, "100000"@),
            ("rt"@, "c"@),
        ],
        headers: seq![
            ("Origin"@, "https://gemini.google.com"@),
            ("Referer"@, "https://gemini.google.com/"@),
            ("X-Same-Domain"@, "1"@),
            ("x-goog-ext-525001261-jspb"@, model_header_spec(model_uuid)),
            ("x-goog-ext-525005358-jspb"@, turn_header_spec(turn_uuid)),
            ("x-goog-ext-73010989-jspb"@, "[0]"@),
            ("x-goog-ext-73010990-jspb"@, "[0,0,0]"@),
        ],
        form: seq![("at"@, s.access_token), ("f.req"@, freq)],
        body: None,
    }
}

/// The `StreamGenerate` request for already encoded parts.
pub fn generate_request_for(
    session: &Session,
    authuser: u32,
    model_uuid: &str,
    turn_uuid: &str,
    freq: &str,
) -> (r: HttpRequest)
    ensures
        r@ == generate_request_spec(session@, authuser as nat, model_uuid@, turn_uuid@, freq@),
{
    let mut model_header = String::from_str("[1,null,null,null,\"");
    model_header.append(MODEL_ID);
    model_header.append("\",null,null,0,[4,5,6,8],null,null,2,null,null,1,1,\"");
    model_header.append(model_uuid);
    model_header.append("\"]");
    let mut turn_header = String::from_str("[\"");
    turn_header.append(turn_uuid);
    turn_header.append("\",1]");
    let mut query: Vec<(String, String)> = Vec::new();
    query.push(pair("bl", session.build_label.as_str()));
    query.push(pair("f.sid", session.session_id.as_str()));
    query.push(pair("hl", "en"));
    query.push(pair("pageId", "none"));
    query.push(pair("_reqid", "100000"));
    query.push(pair("rt", "c"));
    let mut headers: Vec<(String, String)> = Vec::new();
    headers.push(pair("Origin", "https://gemini.google.com"));
    headers.push(pair("Referer", "https://gemini.google.com/"));
    headers.push(pair("X-Same-Domain", "1"));
    headers.push((String::from_str("x-goog-ext-525001261-jspb"), model_header));
    headers.push((String::from_str("x-goog-ext-525005358-jspb"), turn_header));
    headers.push(pair("x-goog-ext-73010989-jspb", "[0]"));
    headers.push(pair("x-goog-ext-73010990-jspb", "[0,0,0]"));
    let mut form: Vec<(String, String)> = Vec::new();
    form.push(pair("at", session.access_token.as_str()));
    form.push(pair("f.req", freq));
    let r = HttpRequest {
        method: Method::Post,
        url: generate_endpoint(authuser),
        query,
        headers,
        form,
        body: None,
    };
    proof {
        let spec = generate_request_spec(session@, authuser as nat, model_uuid@, turn_uuid@, freq@);
        assert(r@.query =~= spec.query);
        assert(r@.headers =~= spec.headers);
        assert(r@.form =~= spec.form);
    }
    r
}

/// The `StreamGenerate` request for a prompt, given the random bytes of the
/// turn id, the model-session id and the request id: the body is encoded,
/// wrapped as `[null, body]` and encoded again. The encoding cannot fail, so
/// the request always comes back.
pub fn generate_request_with(
    session: &Session,
    authuser: u32,
    prompt: &str,
    turn: &Vec<u8>,
    model: &Vec<u8>,
    req: &Vec<u8>,
) -> (r: Result<HttpRequest, GeminiError>)
    requires
        turn@.len() == 16,
        model@.len() == 16,
        req@.len() == 16,
    ensures
        r is Ok,
        r matches Ok(rq) ==> rq@ == generate_request_spec(
            session@,
            authuser as nat,
            hyphenated(model@, true),
            hyphenated(turn@, true),
            json_encode(
                freq_spec(
                    json_encode(inner_spec(prompt@, hyphenated(turn@, true), hex_of(req@, false))),
                ),
            ),
        ),
{
    let turn_uuid = uuid_hyphenated_upper(turn);
    let model_uuid = uuid_hyphenated_upper(model);
    let req_hex = uuid_simple(req);
    let inner = build_inner(prompt, turn_uuid.as_str(), req_hex.as_str());
    let inner_str = match encode(&inner) {
        Ok(s) => s,
        Err(e) => {
            return Err(GeminiError::Json(e));
        },
    };
    let mut pair_items: Vec<Payload> = Vec::new();
    push_item(&mut pair_items, null());
    push_item(&mut pair_items, text_of(&inner_str));
    let ghost pair_v = payloads_view(pair_items@);
    assert(pair_v =~= seq![PayloadV::Null, PayloadV::Text(inner_str@)]);
    let freq_payload = list(pair_items);
    let freq = match encode(&freq_payload) {
        Ok(s) => s,
        Err(e) => {
            return Err(GeminiError::Json(e));
        },
    };
    Ok(generate_request_for(session, authuser, model_uuid.as_str(), turn_uuid.as_str(), freq.as_str()))
}

/// The `StreamGenerate` request for a prompt, with fresh random ids: some
/// version-4 UUIDs stand for the turn, the model session and the request.
/// The request always comes back.
pub fn generate_request(session: &Session, authuser: u32, prompt: &str) -> (r: Result<
    HttpRequest,
    GeminiError,
>)
    ensures
        r is Ok,
        r matches Ok(rq) ==> exists|turn: Seq<u8>, model: Seq<u8>, req: Seq<u8>|
            {
                &&& is_v4(turn)
                &&& is_v4(model)
                &&& is_v4(req)
                &&& rq@ == generate_request_spec(
                    session@,
                    authuser as nat,
                    hyphenated(model, true),
                    hyphenated(turn, true),
                    json_encode(
                        freq_spec(
                            json_encode(
                                inner_spec(prompt@, hyphenated(turn, true), hex_of(req, false)),
                            ),
                        ),
                    ),
                )
            },
{
    let turn = random_uuid();
    let model = random_uuid();
    let req = random_uuid();
    generate_request_with(session, authuser, prompt, &turn, &model, &req)
}

} // verus!
