//! Downloading a generated image: the `c8o8Fe` batchexecute request that
//! mints its download url, the reading of that url from the answer, and the
//! walk along Google's `alr=yes` redirect chain to the image bytes.
use vstd::prelude::*;
use vstd::string::*;
use crate::auth::{Session, SessionV};
use crate::endpoints::{batchexecute, batchexecute_url, decimal_string};
use crate::error::{Failure, GeminiError};
use crate::frames::{frames_fit, lemma_decimal_digits, split_frames, split_frames_spec};
use crate::images::{
    frame_payloads, lemma_parts_prefix, part_payload_exec, parts_payloads, GeneratedImage, ImageV,
};
use crate::json::{
    as_arr, decode, encode, get_arr, get_str_at, integer, json_decode, json_encode, list, null,
    nulls, payloads_view, push_item, push_nulls, str_at, text, text_of, Json, Payload, PayloadV,
};
use crate::request::{HttpRequest, Method, RequestV, is_success, pair};
use crate::text::{chars_of, decimal, ends_with, starts_with, starts_with_exec, string_of, trim, trim_chars};

verus! {

/// Watermark flow the download descriptor names.
pub const WATERMARK: &'static str = "imagen_default.complaintflow.updated_watermark";

/// Flow token the download descriptor and references carry.
pub const FLOW_TOKEN: &'static str = "e15ltne15ltne15l";

/// Most pages the redirect walk loads before it gives up.
pub const MAX_HOPS: usize = 6;

/// The `c8o8Fe` request body for an image: its blob, placeholder and ids in
/// the positions the RPC expects.
pub open spec fn download_descriptor(img: ImageV) -> PayloadV {
    let secret = PayloadV::List(
        seq![
            PayloadV::Null,
            PayloadV::Null,
            PayloadV::Null,
            PayloadV::List(nulls(5).push(PayloadV::Text(img.blob))),
        ],
    );
    let detail = PayloadV::List(
        seq![PayloadV::Int(20), PayloadV::Text(""@)] + nulls(14) + seq![
            PayloadV::Int(0),
            PayloadV::Null,
            PayloadV::Text(WATERMARK@),
        ],
    );
    let descriptor = PayloadV::List(
        seq![
            secret,
            PayloadV::List(seq![PayloadV::Text(img.placeholder), PayloadV::Int(0)]),
            PayloadV::Null,
            detail,
        ] + nulls(5) + seq![PayloadV::Text(FLOW_TOKEN@)],
    );
    let refs = PayloadV::List(
        seq![
            PayloadV::Text(img.response_id),
            PayloadV::Text(img.candidate_id),
            PayloadV::Text(img.conversation_id),
            PayloadV::Null,
            PayloadV::Text(FLOW_TOKEN@),
        ],
    );
    PayloadV::List(
        seq![descriptor, refs, PayloadV::Int(1), PayloadV::Int(0), PayloadV::Int(1)],
    )
}

/// Builds the `c8o8Fe` request body for an image.
pub fn build_request(image: &GeneratedImage) -> (p: Payload)
    ensures
        p@ == download_descriptor(image@),
{
    let mut inner_secret: Vec<Payload> = Vec::new();
    push_nulls(&mut inner_secret, 5);
    push_item(&mut inner_secret, text_of(&image.blob));
    let mut secret: Vec<Payload> = Vec::new();
    push_item(&mut secret, null());
    push_item(&mut secret, null());
    push_item(&mut secret, null());
    let ghost inner_secret_v = payloads_view(inner_secret@);
    push_item(&mut secret, list(inner_secret));
    let mut detail: Vec<Payload> = Vec::new();
    push_item(&mut detail, integer(20));
    push_item(&mut detail, text(""));
    push_nulls(&mut detail, 14);
    push_item(&mut detail, integer(0));
    push_item(&mut detail, null());
    push_item(&mut detail, text(WATERMARK));
    let mut placeholder: Vec<Payload> = Vec::new();
    push_item(&mut placeholder, text_of(&image.placeholder));
    push_item(&mut placeholder, integer(0));
    let ghost secret_v = payloads_view(secret@);
    let ghost detail_v = payloads_view(detail@);
    let ghost placeholder_v = payloads_view(placeholder@);
    let mut descriptor: Vec<Payload> = Vec::new();
    push_item(&mut descriptor, list(secret));
    push_item(&mut descriptor, list(placeholder));
    push_item(&mut descriptor, null());
    push_item(&mut descriptor, list(detail));
    push_nulls(&mut descriptor, 5);
    push_item(&mut descriptor, text(FLOW_TOKEN));
    let mut refs: Vec<Payload> = Vec::new();
    push_item(&mut refs, text_of(&image.response_id));
    push_item(&mut refs, text_of(&image.candidate_id));
    push_item(&mut refs, text_of(&image.conversation_id));
    push_item(&mut refs, null());
    push_item(&mut refs, text(FLOW_TOKEN));
    let ghost descriptor_v = payloads_view(descriptor@);
    let ghost refs_v = payloads_view(refs@);
    let mut top: Vec<Payload> = Vec::new();
    push_item(&mut top, list(descriptor));
    push_item(&mut top, list(refs));
    push_item(&mut top, integer(1));
    push_item(&mut top, integer(0));
    push_item(&mut top, integer(1));
    let ghost top_v = payloads_view(top@);
    let ghost img = image@;
    assert(inner_secret_v =~= nulls(5).push(PayloadV::Text(img.blob)));
    assert(secret_v =~= seq![
        PayloadV::Null,
        PayloadV::Null,
        PayloadV::Null,
        PayloadV::List(nulls(5).push(PayloadV::Text(img.blob))),
    ]);
    assert(detail_v =~= seq![PayloadV::Int(20), PayloadV::Text(""@)] + nulls(14) + seq![
        PayloadV::Int(0),
        PayloadV::Null,
        PayloadV::Text(WATERMARK@),
    ]);
    assert(placeholder_v =~= seq![PayloadV::Text(img.placeholder), PayloadV::Int(0)]);
    assert(descriptor_v =~= seq![
        PayloadV::List(secret_v),
        PayloadV::List(placeholder_v),
        PayloadV::Null,
        PayloadV::List(detail_v),
    ] + nulls(5) + seq![PayloadV::Text(FLOW_TOKEN@)]);
    assert(refs_v =~= seq![
        PayloadV::Text(img.response_id),
        PayloadV::Text(img.candidate_id),
        PayloadV::Text(img.conversation_id),
        PayloadV::Null,
        PayloadV::Text(FLOW_TOKEN@),
    ]);
    assert(top_v =~= seq![
        PayloadV::List(descriptor_v),
        PayloadV::List(refs_v),
        PayloadV::Int(1),
        PayloadV::Int(0),
        PayloadV::Int(1),
    ]);
    list(top)
}

/// The batchexecute envelope around an encoded RPC body:
/// `[[["c8o8Fe", body, null, "generic"]]]`.
pub open spec fn envelope_spec(inner: Seq<char>) -> PayloadV {
    PayloadV::List(
        seq![
            PayloadV::List(
                seq![
                    PayloadV::List(
                        seq![
                            PayloadV::Text("c8o8Fe"@),
                            PayloadV::Text(inner),
                            PayloadV::Null,
                            PayloadV::Text("generic"@),
                        ],
                    ),
                ],
            ),
        ],
    )
}

/// Wraps an encoded RPC body in the batchexecute envelope.
pub fn envelope(inner: &String) -> (p: Payload)
    ensures
        p@ == envelope_spec(inner@),
{
    let mut call: Vec<Payload> = Vec::new();
    push_item(&mut call, text("c8o8Fe"));
    push_item(&mut call, text_of(inner));
    push_item(&mut call, null());
    push_item(&mut call, text("generic"));
    let ghost call_v = payloads_view(call@);
    let mut mid: Vec<Payload> = Vec::new();
    push_item(&mut mid, list(call));
    let ghost mid_v = payloads_view(mid@);
    let mut top: Vec<Payload> = Vec::new();
    push_item(&mut top, list(mid));
    let ghost top_v = payloads_view(top@);
    assert(call_v =~= seq![
        PayloadV::Text("c8o8Fe"@),
        PayloadV::Text(inner@),
        PayloadV::Null,
        PayloadV::Text("generic"@),
    ]);
    assert(mid_v =~= seq![PayloadV::List(call_v)]);
    assert(top_v =~= seq![PayloadV::List(mid_v)]);
    list(top)
}

/// The batchexecute request that mints an image's download url, carrying
/// the encoded envelope `freq`.
pub open spec fn download_request_spec(s: SessionV, authuser: nat, freq: Seq<char>) -> RequestV {
    RequestV {
        method: Method::Post,
        url: batchexecute_url(authuser),
        query: seq![
            ("rpcids"@, "c8o8Fe"@),
            ("source-path"@, "/u/"@ + decimal(authuser) + "/app"@),
            ("bl"@, s.build_label),
            ("f.sid"@, s.session_id),
            ("hl"@, "en"@),
            ("pageId"@, "none"@),
            ("_reqid"@, "200000"@),
            ("rt"@, "c"@),
        ],
        headers: seq![
            ("Origin"@, "https://gemini.google.com"@),
            ("Referer"@, "https://gemini.google.com/"@),
            ("X-Same-Domain"@, "1"@),
        ],
        form: seq![("f.req"@, freq), ("at"@, s.access_token)],
        body: None,
    }
}

/// The batchexecute request for an already encoded envelope.
pub fn download_request_for(session: &Session, authuser: u32, freq: &String) -> (r: HttpRequest)
    ensures
        r@ == download_request_spec(session@, authuser as nat, freq@),
{
    let n = decimal_string(authuser);
    let mut source_path = String::from_str("/u/");
    source_path.append(n.as_str());
    source_path.append("/app");
    let mut query: Vec<(String, String)> = Vec::new();
    query.push(pair("rpcids", "c8o8Fe"));
    query.push((String::from_str("source-path"), source_path));
    query.push(pair("bl", session.build_label.as_str()));
    query.push(pair("f.sid", session.session_id.as_str()));
    query.push(pair("hl", "en"));
    query.push(pair("pageId", "none"));
    query.push(pair("_reqid", "200000"));
    query.push(pair("rt", "c"));
    let mut headers: Vec<(String, String)> = Vec::new();
    headers.push(pair("Origin", "https://gemini.google.com"));
    headers.push(pair("Referer", "https://gemini.google.com/"));
    headers.push(pair("X-Same-Domain", "1"));
    let mut form: Vec<(String, String)> = Vec::new();
    form.push(pair("f.req", freq.as_str()));
    form.push(pair("at", session.access_token.as_str()));
    let r = HttpRequest {
        method: Method::Post,
        url: batchexecute(authuser),
        query,
        headers,
        form,
        body: None,
    };
    proof {
        let spec = download_request_spec(session@, authuser as nat, freq@);
        assert(r@.query =~= spec.query);
        assert(r@.headers =~= spec.headers);
        assert(r@.form =~= spec.form);
    }
    r
}

/// Builds the request that mints the download url of `image`: its
/// descriptor is encoded, wrapped in the envelope, and the envelope encoded
/// in turn. The encoding cannot fail, so the request always comes back.
pub fn download_request(image: &GeneratedImage, session: &Session, authuser: u32) -> (r: Result<
    HttpRequest,
    GeminiError,
>)
    ensures
        r is Ok,
        r matches Ok(req) ==> req@ == download_request_spec(
            session@,
            authuser as nat,
            json_encode(envelope_spec(json_encode(download_descriptor(image@)))),
        ),
{
    let inner = build_request(image);
    let inner_str = match encode(&inner) {
        Ok(s) => s,
        Err(e) => {
            return Err(GeminiError::Json(e));
        },
    };
    let env = envelope(&inner_str);
    let freq = match encode(&env) {
        Ok(s) => s,
        Err(e) => {
            return Err(GeminiError::Json(e));
        },
    };
    Ok(download_request_for(session, authuser, &freq))
}

/// How a scan for the download url ends.
pub enum Scan {
    Found(Seq<char>),
    Broken,
    Absent,
}

/// Scans payload texts from position `i`: the first that does not decode
/// breaks the scan, the first whose `/0` is a string is the url.
pub open spec fn scan_payloads(ps: Seq<Seq<char>>, i: int) -> Scan
    decreases ps.len() - i,
{
    if 0 <= i < ps.len() {
        match json_decode(ps[i]) {
            None => Scan::Broken,
            Some(v) => match str_at(v, seq![0]) {
                Some(u) => Scan::Found(u),
                None => scan_payloads(ps, i + 1),
            },
        }
    } else {
        Scan::Absent
    }
}

/// Scans frame texts from position `i`, each frame's `wrb.fr` payloads in turn.
pub open spec fn scan_frames(fs: Seq<Seq<char>>, i: int) -> Scan
    decreases fs.len() - i,
{
    if 0 <= i < fs.len() {
        match json_decode(fs[i]) {
            None => Scan::Broken,
            Some(f) => match scan_payloads(frame_payloads(f, false), 0) {
                Scan::Absent => scan_frames(fs, i + 1),
                other => other,
            },
        }
    } else {
        Scan::Absent
    }
}

/// The download url a batchexecute answer yields.
pub open spec fn download_url_spec(body: Seq<char>) -> Result<Seq<char>, Failure> {
    match scan_frames(split_frames_spec(body), 0) {
        Scan::Found(u) => Ok(u),
        Scan::Broken => Err(Failure::Json),
        Scan::Absent => Err(Failure::DownloadUrlAbsent),
    }
}

/// The download url a decoded `c8o8Fe` payload carries at `/0`.
pub fn url_in_payload(payload: &Json) -> (r: Option<&String>)
    ensures
        match r {
            Some(u) => str_at(payload@, seq![0]) == Some(u@),
            None => str_at(payload@, seq![0]) is None,
        },
{
    let p: [usize; 1] = [0];
    assert(p@.map_values(|k: usize| k as nat) =~= seq![0nat]);
    get_str_at(payload, &p)
}

/// Scans one decoded frame's `wrb.fr` payloads for the download url.
fn frame_download_url(frame: &Json) -> (r: Result<Option<String>, serde_json::Error>)
    ensures
        match r {
            Ok(Some(u)) => scan_payloads(frame_payloads(frame@, false), 0) == Scan::Found(u@),
            Ok(None) => scan_payloads(frame_payloads(frame@, false), 0) == Scan::Absent,
            Err(_) => scan_payloads(frame_payloads(frame@, false), 0) == Scan::Broken,
        },
{
    let parts = match get_arr(frame) {
        Some(p) => p,
        None => {
            return Ok(None);
        },
    };
    let ghost pv = Seq::new(parts@.len(), |k: int| parts@[k]@);
    let ghost full = parts_payloads(pv, false);
    let mut j: usize = 0;
    while j < parts.len()
        invariant
            j <= parts@.len(),
            pv == Seq::new(parts@.len(), |k: int| parts@[k]@),
            as_arr(frame@) == Some(pv),
            full == parts_payloads(pv, false),
            full == frame_payloads(frame@, false),
            parts_payloads(pv.take(j as int), false).is_prefix_of(full),
            scan_payloads(full, parts_payloads(pv.take(j as int), false).len() as int)
                == scan_payloads(full, 0),
        decreases parts@.len() - j,
    {
        let ghost done = parts_payloads(pv.take(j as int), false);
        assert(pv.take(j + 1).drop_last() =~= pv.take(j as int));
        assert(pv.take(j + 1).last() == parts@[j as int]@);
        proof {
            lemma_parts_prefix(pv, false, j + 1, pv.len() as int);
            assert(pv.take(pv.len() as int) =~= pv);
        }
        match part_payload_exec(&parts[j]) {
            Some(s) => {
                assert(parts_payloads(pv.take(j + 1), false) == done.push(s@));
                assert(full[done.len() as int] == s@) by {
                    assert(full.subrange(0, done.len() + 1int)[done.len() as int] == full[done.len() as int]);
                }
                match decode(s.as_str()) {
                    Ok(v) => {
                        match url_in_payload(&v) {
                            Some(u) => {
                                return Ok(Some(u.clone()));
                            },
                            None => {},
                        }
                    },
                    Err(e) => {
                        return Err(e);
                    },
                }
            },
            None => {},
        }
        j = j + 1;
    }
    assert(pv.take(j as int) =~= pv);
    Ok(None)
}

/// Reads the download url out of a `c8o8Fe` batchexecute answer: the first
/// `wrb.fr` payload, in frame order, whose decoded value holds a string at
/// `/0`. A frame or a payload met before it that is not JSON fails with
/// `Json`; no such payload at all fails with `DownloadUrlAbsent`.
pub fn parse_download_url(body: &str) -> (r: Result<String, GeminiError>)
    requires
        frames_fit(body@),
    ensures
        match r {
            Ok(u) => download_url_spec(body@) == Ok::<Seq<char>, Failure>(u@),
            Err(e) => download_url_spec(body@) == Err::<Seq<char>, Failure>(e.failure()),
        },
{
    let frames = split_frames(body);
    let ghost fv = frames@.map_values(|f: String| f@);
    let mut i: usize = 0;
    while i < frames.len()
        invariant
            i <= frames@.len(),
            fv == frames@.map_values(|f: String| f@),
            fv == split_frames_spec(body@),
            scan_frames(fv, i as int) == scan_frames(fv, 0),
        decreases frames@.len() - i,
    {
        let frame = match decode(frames[i].as_str()) {
            Ok(f) => f,
            Err(e) => {
                return Err(GeminiError::Json(e));
            },
        };
        match frame_download_url(&frame) {
            Ok(Some(u)) => {
                return Ok(u);
            },
            Ok(None) => {},
            Err(e) => {
                return Err(GeminiError::Json(e));
            },
        }
        i = i + 1;
    }
    Err(GeminiError::DownloadUrlAbsent)
}

/// First page of the redirect walk for a minted download url.
pub open spec fn walk_start_url(base: Seq<char>, authuser: nat) -> Seq<char> {
    base + "=d-I?authuser="@ + decimal(authuser) + "&alr=yes"@
}

/// Walk-start law: for every account, the walk's first url is the minted
/// url, then `=d-I?authuser=`, then the account's decimal index, then
/// `&alr=yes`; so it always asks for the `alr=yes` redirect chain, and two
/// accounts never start at the same url.
pub proof fn law_walk_starts_with_alr(base: Seq<char>, authuser: nat, other: nat)
    ensures
        starts_with(walk_start_url(base, authuser), base + "=d-I?authuser="@),
        ends_with(walk_start_url(base, authuser), "&alr=yes"@),
        walk_start_url(base, authuser).len() == base.len() + 22 + decimal(authuser).len(),
        walk_start_url(base, authuser).subrange(
            base.len() + 14int,
            base.len() + 14int + decimal(authuser).len(),
        ) == decimal(authuser),
        authuser != other ==> walk_start_url(base, authuser) != walk_start_url(base, other),
{
    reveal_strlit("=d-I?authuser=");
    reveal_strlit("&alr=yes");
    let u = walk_start_url(base, authuser);
    let p = base + "=d-I?authuser="@;
    let d = decimal(authuser);
    assert(u == p + d + "&alr=yes"@);
    assert(u.subrange(0, p.len() as int) =~= p);
    assert(u.subrange(u.len() - 8, u.len() as int) =~= "&alr=yes"@);
    assert(u.subrange(p.len() as int, (p.len() + d.len()) as int) =~= d);
    if authuser != other {
        let v = walk_start_url(base, other);
        let e = decimal(other);
        lemma_decimal_digits(authuser);
        lemma_decimal_digits(other);
        if u == v {
            assert(v.subrange(p.len() as int, (p.len() + e.len()) as int) =~= e);
            assert(d.len() == e.len());
            assert(d == e);
            assert(false);
        }
    }
}

/// A GET of one page of the redirect walk.
pub open spec fn hop_request_spec(url: Seq<char>) -> RequestV {
    RequestV {
        method: Method::Get,
        url,
        query: Seq::empty(),
        headers: seq![("Referer"@, "https://gemini.google.com/"@)],
        form: Seq::empty(),
        body: None,
    }
}

/// What a page of the walk turns out to be, from its status and
/// `content-type`: an error status fails, a missing content type means the
/// chain broke off, `image/...` is the image itself, anything else a page
/// whose text is the next url.
pub open spec fn hop_outcome(status: u16, content_type: Option<Seq<u8>>) -> Result<bool, Failure> {
    if !is_success(status) {
        Err(Failure::BadStatus { status })
    } else {
        match content_type {
            None => Err(Failure::DownloadUrlAbsent),
            Some(ct) => Ok(ct.len() >= 6 && ct.subrange(0, 6) == image_prefix()),
        }
    }
}

/// The bytes of `image/`.
pub open spec fn image_prefix() -> Seq<u8> {
    seq![105u8, 109, 97, 103, 101, 47]
}

/// Decides on a page of the walk: `Ok(true)` when its body is the image,
/// `Ok(false)` when its body is the next url.
pub fn classify_hop(status: u16, content_type: Option<&[u8]>) -> (r: Result<bool, GeminiError>)
    ensures
        match r {
            Ok(b) => hop_outcome(status, opt_bytes(content_type)) == Ok::<bool, Failure>(b),
            Err(e) => hop_outcome(status, opt_bytes(content_type)) == Err::<bool, Failure>(
                e.failure(),
            ),
        },
{
    if !(200 <= status && status <= 299) {
        return Err(GeminiError::BadStatus { status });
    }
    let ct = match content_type {
        Some(ct) => ct,
        None => {
            return Err(GeminiError::DownloadUrlAbsent);
        },
    };
    let prefix: [u8; 6] = [105, 109, 97, 103, 101, 47];
    if ct.len() < 6 {
        return Ok(false);
    }
    let mut k: usize = 0;
    while k < 6
        invariant
            k <= 6,
            ct@.len() >= 6,
            opt_bytes(content_type) == Some(ct@),
            is_success(status),
            prefix@ == image_prefix(),
            forall|t: int| 0 <= t < k ==> ct@[t] == prefix@[t],
        decreases 6 - k,
    {
        if ct[k] != prefix[k] {
            assert(ct@.subrange(0, 6)[k as int] != image_prefix()[k as int]);
            return Ok(false);
        }
        k = k + 1;
    }
    assert(ct@.subrange(0, 6) =~= image_prefix());
    Ok(true)
}

/// View of an optional byte slice.
pub open spec fn opt_bytes(o: Option<&[u8]>) -> Option<Seq<u8>> {
    match o {
        Some(b) => Some(b@),
        None => None,
    }
}

/// A walk state as the contracts see it: the next url and the redirects followed.
pub struct WalkV {
    pub url: Seq<char>,
    pub hops: nat,
}

/// The walk after a page whose text names the next url: the trimmed text
/// must begin with `http` and the budget of `MAX_HOPS` redirects must not be
/// spent; `None` means the chain broke off.
pub open spec fn walk_step(w: WalkV, page: Seq<char>) -> Option<WalkV> {
    if w.hops < MAX_HOPS && starts_with(trim(page), "http"@) {
        Some(WalkV { url: trim(page), hops: w.hops + 1 })
    } else {
        None
    }
}

/// The walk after following the redirect pages `pages` in order from `w`.
pub open spec fn walk_after(w: WalkV, pages: Seq<Seq<char>>) -> Option<WalkV>
    decreases pages.len(),
{
    if pages.len() == 0 {
        Some(w)
    } else {
        match walk_after(w, pages.drop_last()) {
            Some(v) => walk_step(v, pages.last()),
            None => None,
        }
    }
}

/// The walk along Google's `alr=yes` redirect chain: the page to load next
/// and how many redirects were followed.
pub struct AlrWalk {
    url: String,
    hops: usize,
}

impl AlrWalk {
    /// The walk's state.
    pub closed spec fn state(&self) -> WalkV {
        WalkV { url: self.url@, hops: self.hops as nat }
    }

    /// Starts the walk at the minted url `base` for account `authuser`.
    pub fn start(base: &str, authuser: u32) -> (w: AlrWalk)
        ensures
            w.state() == (WalkV { url: walk_start_url(base@, authuser as nat), hops: 0 }),
    {
        let n = decimal_string(authuser);
        let mut url = String::from_str(base);
        url.append("=d-I?authuser=");
        url.append(n.as_str());
        url.append("&alr=yes");
        AlrWalk { url, hops: 0 }
    }

    /// The next page to load: none once `MAX_HOPS` pages redirected, which
    /// ends the walk with `DownloadUrlAbsent`.
    pub fn next_request(&self) -> (r: Result<HttpRequest, GeminiError>)
        ensures
            self.state().hops < MAX_HOPS ==> (r matches Ok(req) && req@ == hop_request_spec(
                self.state().url,
            )),
            self.state().hops >= MAX_HOPS ==> (r matches Err(e) && e.failure()
                == Failure::DownloadUrlAbsent),
    {
        if self.hops >= MAX_HOPS {
            return Err(GeminiError::DownloadUrlAbsent);
        }
        let mut headers: Vec<(String, String)> = Vec::new();
        headers.push(pair("Referer", "https://gemini.google.com/"));
        let r = HttpRequest {
            method: Method::Get,
            url: self.url.clone(),
            query: Vec::new(),
            headers,
            form: Vec::new(),
            body: None,
        };
        proof {
            let spec = hop_request_spec(self.state().url);
            assert(r@.query =~= spec.query);
            assert(r@.headers =~= spec.headers);
            assert(r@.form =~= spec.form);
        }
        Ok(r)
    }

    /// Follows a page whose text names the next url (see `walk_step`); where
    /// the chain broke off the walk ends with `DownloadUrlAbsent` and stays
    /// as it was.
    pub fn on_redirect(&mut self, page: &str) -> (r: Result<(), GeminiError>)
        ensures
            match walk_step(old(self).state(), page@) {
                Some(v) => r is Ok && final(self).state() == v,
                None => (r matches Err(e) && e.failure() == Failure::DownloadUrlAbsent)
                    && final(self).state() == old(self).state(),
            },
    {
        if self.hops >= MAX_HOPS {
            return Err(GeminiError::DownloadUrlAbsent);
        }
        let trimmed = trim_chars(&chars_of(page));
        if !starts_with_exec(&trimmed, &chars_of("http")) {
            return Err(GeminiError::DownloadUrlAbsent);
        }
        self.url = string_of(&trimmed);
        self.hops = self.hops + 1;
        Ok(())
    }
}

/// Walk law: from the start, the walk follows each redirect page once and
/// never more than `MAX_HOPS` of them, so it loads at most `MAX_HOPS` pages
/// that redirect; the url it loads next is the last page's trimmed text.
pub proof fn law_walk_budget(base: Seq<char>, authuser: nat, pages: Seq<Seq<char>>)
    ensures
        walk_after(WalkV { url: walk_start_url(base, authuser), hops: 0 }, pages) matches Some(w)
            ==> w.hops == pages.len() && pages.len() <= MAX_HOPS && (pages.len() > 0 ==> w.url
            == trim(pages.last())),
    decreases pages.len(),
{
    if pages.len() > 0 {
        law_walk_budget(base, authuser, pages.drop_last());
    }
}

} // verus!
