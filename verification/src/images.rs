//! The images of a generation answer: which frames and payloads carry them,
//! where in a candidate they sit, and how repeats are dropped.
use vstd::prelude::*;
use vstd::string::*;
use crate::error::{Failure, GeminiError};
use crate::frames::{frames_fit, split_frames, split_frames_spec};
use crate::json::{
    as_arr, as_str, decode, get_arr, get_index, get_pointer, get_str, get_str_at, index,
    json_decode, pointer, str_at, Json, JsonV,
};
use crate::text::{chars_of, string_of, trim, trim_chars};

verus! {

/// An image produced by a generation request.
pub struct GeneratedImage {
    /// The image URL from the generation response (also the dedup key).
    pub url: String,
    pub blob: String,
    pub placeholder: String,
    pub candidate_id: String,
    pub response_id: String,
    pub conversation_id: String,
}

/// The mathematical content of a generated image.
pub struct ImageV {
    pub url: Seq<char>,
    pub blob: Seq<char>,
    pub placeholder: Seq<char>,
    pub candidate_id: Seq<char>,
    pub response_id: Seq<char>,
    pub conversation_id: Seq<char>,
}

impl View for GeneratedImage {
    type V = ImageV;

    open spec fn view(&self) -> ImageV {
        ImageV {
            url: self.url@,
            blob: self.blob@,
            placeholder: self.placeholder@,
            candidate_id: self.candidate_id@,
            response_id: self.response_id@,
            conversation_id: self.conversation_id@,
        }
    }
}

pub open spec fn images_view(v: Seq<GeneratedImage>) -> Seq<ImageV> {
    v.map_values(|g: GeneratedImage| g@)
}

pub open spec fn opt_image_view(o: Option<GeneratedImage>) -> Option<ImageV> {
    match o {
        Some(g) => Some(g@),
        None => None,
    }
}

/// The image one entry of a candidate's image list describes: url at
/// `/0/3/3`, blob at `/0/3/5`, placeholder (trimmed) at `/1/0`.
pub open spec fn entry_image(
    entry: JsonV,
    candidate_id: Seq<char>,
    response_id: Seq<char>,
    conversation_id: Seq<char>,
) -> Option<ImageV> {
    match (str_at(entry, seq![0, 3, 3]), str_at(entry, seq![0, 3, 5]), str_at(entry, seq![1, 0])) {
        (Some(url), Some(blob), Some(placeholder)) => Some(
            ImageV {
                url,
                blob,
                placeholder: trim(placeholder),
                candidate_id,
                response_id,
                conversation_id,
            },
        ),
        _ => None,
    }
}

/// The images of an image list, entries that describe none skipped.
pub open spec fn list_images(
    list: Seq<JsonV>,
    candidate_id: Seq<char>,
    response_id: Seq<char>,
    conversation_id: Seq<char>,
) -> Seq<ImageV>
    decreases list.len(),
{
    if list.len() == 0 {
        Seq::empty()
    } else {
        let before = list_images(list.drop_last(), candidate_id, response_id, conversation_id);
        match entry_image(list.last(), candidate_id, response_id, conversation_id) {
            Some(im) => before.push(im),
            None => before,
        }
    }
}

/// The images of the list at `path` in a candidate, none if there is no list.
pub open spec fn images_at(
    cand: JsonV,
    path: Seq<nat>,
    candidate_id: Seq<char>,
    response_id: Seq<char>,
    conversation_id: Seq<char>,
) -> Seq<ImageV> {
    match pointer(cand, path) {
        Some(v) => match as_arr(v) {
            Some(list) => list_images(list, candidate_id, response_id, conversation_id),
            None => Seq::empty(),
        },
        None => Seq::empty(),
    }
}

/// A candidate's images: those listed at `/12/7/0`, then those at `/12/0/8/0`.
pub open spec fn candidate_images_spec(
    cand: JsonV,
    candidate_id: Seq<char>,
    response_id: Seq<char>,
    conversation_id: Seq<char>,
) -> Seq<ImageV> {
    images_at(cand, seq![12, 7, 0], candidate_id, response_id, conversation_id) + images_at(
        cand,
        seq![12, 0, 8, 0],
        candidate_id,
        response_id,
        conversation_id,
    )
}

/// The images of the candidates of one payload, candidates without an id skipped.
pub open spec fn candidates_images(
    cands: Seq<JsonV>,
    response_id: Seq<char>,
    conversation_id: Seq<char>,
) -> Seq<ImageV>
    decreases cands.len(),
{
    if cands.len() == 0 {
        Seq::empty()
    } else {
        let before = candidates_images(cands.drop_last(), response_id, conversation_id);
        match str_at(cands.last(), seq![0]) {
            Some(cid) => before + candidate_images_spec(
                cands.last(),
                cid,
                response_id,
                conversation_id,
            ),
            None => before,
        }
    }
}

/// The images one decoded `wrb.fr` payload carries: conversation id at
/// `/1/0`, response id at `/1/1`, candidates in element 4.
pub open spec fn payload_images(inner: JsonV) -> Seq<ImageV> {
    match (str_at(inner, seq![1, 0]), str_at(inner, seq![1, 1])) {
        (Some(conversation_id), Some(response_id)) => match index(inner, 4) {
            Some(c) => match as_arr(c) {
                Some(cands) => candidates_images(cands, response_id, conversation_id),
                None => Seq::empty(),
            },
            None => Seq::empty(),
        },
        _ => Seq::empty(),
    }
}

/// The images of a sequence of decoded payloads, in order, repeats kept.
pub open spec fn all_payload_images(ps: Seq<JsonV>) -> Seq<ImageV>
    decreases ps.len(),
{
    if ps.len() == 0 {
        Seq::empty()
    } else {
        all_payload_images(ps.drop_last()) + payload_images(ps.last())
    }
}

/// Some image of `s` has the url `url`.
pub open spec fn has_url(s: Seq<ImageV>, url: Seq<char>) -> bool {
    exists|k: int| 0 <= k < s.len() && s[k].url == url
}

/// `x` added to `d` unless `d` already has an image with its url.
pub open spec fn push_unique(d: Seq<ImageV>, x: ImageV) -> Seq<ImageV> {
    if has_url(d, x.url) {
        d
    } else {
        d.push(x)
    }
}

/// The images of `b` added in order to `d`, each unless its url is already there.
pub open spec fn extend_unique(d: Seq<ImageV>, b: Seq<ImageV>) -> Seq<ImageV>
    decreases b.len(),
{
    if b.len() == 0 {
        d
    } else {
        push_unique(extend_unique(d, b.drop_last()), b.last())
    }
}

/// The images of `s` with later repeats of a url dropped.
pub open spec fn dedup(s: Seq<ImageV>) -> Seq<ImageV> {
    extend_unique(Seq::empty(), s)
}

pub proof fn lemma_extend_concat(d: Seq<ImageV>, a: Seq<ImageV>, b: Seq<ImageV>)
    ensures
        extend_unique(d, a + b) == extend_unique(extend_unique(d, a), b),
    decreases b.len(),
{
    if b.len() == 0 {
        assert(a + b =~= a);
    } else {
        assert((a + b).drop_last() =~= a + b.drop_last());
        assert((a + b).last() == b.last());
        lemma_extend_concat(d, a, b.drop_last());
    }
}

proof fn lemma_extend_props(d: Seq<ImageV>, b: Seq<ImageV>)
    requires
        forall|i: int, j: int| 0 <= i < j < d.len() ==> d[i].url != d[j].url,
    ensures
        forall|i: int, j: int|
            0 <= i < j < extend_unique(d, b).len() ==> extend_unique(d, b)[i].url != extend_unique(
                d,
                b,
            )[j].url,
        forall|k: int| 0 <= k < b.len() ==> has_url(extend_unique(d, b), #[trigger] b[k].url),
        forall|k: int| 0 <= k < d.len() ==> has_url(extend_unique(d, b), #[trigger] d[k].url),
        forall|k: int|
            0 <= k < extend_unique(d, b).len() ==> has_url(d, #[trigger] extend_unique(d, b)[k].url)
                || (exists|m: int| 0 <= m < b.len() && b[m] == extend_unique(d, b)[k]),
    decreases b.len(),
{
    if b.len() > 0 {
        let prev = extend_unique(d, b.drop_last());
        lemma_extend_props(d, b.drop_last());
        let x = b.last();
        let e = extend_unique(d, b);
        assert(e == push_unique(prev, x));
        if !has_url(prev, x.url) {
            assert forall|i: int, j: int| 0 <= i < j < e.len() implies e[i].url != e[j].url by {
                if j == prev.len() {
                    assert(e[i] == prev[i]);
                }
            }
            assert(e[prev.len() as int] == x);
        }
        assert forall|k: int| 0 <= k < b.len() implies has_url(e, #[trigger] b[k].url) by {
            if k < b.len() - 1 {
                assert(b.drop_last()[k] == b[k]);
                let w = choose|w: int| 0 <= w < prev.len() && prev[w].url == b[k].url;
                assert(e[w] == prev[w]);
            } else if has_url(prev, x.url) {
                let w = choose|w: int| 0 <= w < prev.len() && prev[w].url == x.url;
                assert(e[w] == prev[w]);
            } else {
                assert(e[prev.len() as int] == x);
            }
        }
        assert forall|k: int| 0 <= k < d.len() implies has_url(e, #[trigger] d[k].url) by {
            let w = choose|w: int| 0 <= w < prev.len() && prev[w].url == d[k].url;
            assert(e[w] == prev[w]);
        }
        assert forall|k: int| 0 <= k < e.len() implies has_url(d, #[trigger] e[k].url) || (exists|
            m: int,
        | 0 <= m < b.len() && b[m] == e[k]) by {
            if k < prev.len() {
                assert(e[k] == prev[k]);
                if !has_url(d, e[k].url) {
                    let m = choose|m: int| 0 <= m < b.drop_last().len() && b.drop_last()[m] == prev[k];
                    assert(b[m] == b.drop_last()[m]);
                }
            } else {
                assert(b[b.len() - 1] == e[k]);
            }
        }
    }
}

/// Dedup law: the images kept have pairwise distinct urls, every url of the
/// input is kept, and every image kept is one of the input's.
pub proof fn law_dedup(s: Seq<ImageV>)
    ensures
        forall|i: int, j: int| 0 <= i < j < dedup(s).len() ==> dedup(s)[i].url != dedup(s)[j].url,
        forall|k: int| 0 <= k < s.len() ==> has_url(dedup(s), #[trigger] s[k].url),
        forall|k: int|
            0 <= k < dedup(s).len() ==> exists|m: int| 0 <= m < s.len() && s[m] == #[trigger] dedup(s)[k],
{
    lemma_extend_props(Seq::empty(), s);
}

/// Extraction law: the images extracted from an answer never repeat a url.
pub proof fn law_extracted_urls_distinct(body: Seq<char>)
    ensures
        extract_spec(body) matches Ok(v) ==> forall|i: int, j: int|
            0 <= i < j < v.len() ==> v[i].url != v[j].url,
{
    let texts = frames_payloads(split_frames_spec(body));
    law_dedup(all_payload_images(decoded(texts)));
}

/// An entry of an image list that carries a url (`/0/3/3`), a blob
/// (`/0/3/5`) and a placeholder (`/1/0`), all strings.
pub open spec fn describes_image(entry: JsonV) -> bool {
    &&& str_at(entry, seq![0, 3, 3]) is Some
    &&& str_at(entry, seq![0, 3, 5]) is Some
    &&& str_at(entry, seq![1, 0]) is Some
}

/// Image-list law: every entry of an image list that carries a url, a blob
/// and a placeholder yields one image, in list order, and nothing else
/// does: the k-th image is made of the k-th such entry's url, blob and
/// trimmed placeholder, under the given ids.
pub proof fn law_every_entry_yields_an_image(
    list: Seq<JsonV>,
    candidate_id: Seq<char>,
    response_id: Seq<char>,
    conversation_id: Seq<char>,
)
    ensures
        ({
            let imgs = list_images(list, candidate_id, response_id, conversation_id);
            let ds = list.filter(|e: JsonV| describes_image(e));
            &&& imgs.len() == ds.len()
            &&& forall|k: int|
                0 <= k < ds.len() ==> #[trigger] imgs[k] == (ImageV {
                    url: str_at(ds[k], seq![0, 3, 3])->Some_0,
                    blob: str_at(ds[k], seq![0, 3, 5])->Some_0,
                    placeholder: trim(str_at(ds[k], seq![1, 0])->Some_0),
                    candidate_id,
                    response_id,
                    conversation_id,
                })
        }),
    decreases list.len(),
{
    reveal(Seq::filter);
    if list.len() > 0 {
        law_every_entry_yields_an_image(
            list.drop_last(),
            candidate_id,
            response_id,
            conversation_id,
        );
        let ds = list.filter(|e: JsonV| describes_image(e));
        let ds0 = list.drop_last().filter(|e: JsonV| describes_image(e));
        let imgs = list_images(list, candidate_id, response_id, conversation_id);
        let imgs0 = list_images(list.drop_last(), candidate_id, response_id, conversation_id);
        if describes_image(list.last()) {
            assert(ds == ds0.push(list.last()));
            assert(imgs == imgs0.push(entry_image(list.last(), candidate_id, response_id, conversation_id)->Some_0));
            assert forall|k: int| 0 <= k < ds.len() implies #[trigger] imgs[k] == (ImageV {
                url: str_at(ds[k], seq![0, 3, 3])->Some_0,
                blob: str_at(ds[k], seq![0, 3, 5])->Some_0,
                placeholder: trim(str_at(ds[k], seq![1, 0])->Some_0),
                candidate_id,
                response_id,
                conversation_id,
            }) by {
                if k < ds0.len() {
                    assert(imgs[k] == imgs0[k]);
                    assert(ds[k] == ds0[k]);
                }
            }
        } else {
            assert(ds == ds0);
            assert(imgs == imgs0);
        }
    }
}

/// The string a `wrb.fr` part carries in element 2.
pub open spec fn part_payload(part: JsonV) -> Option<Seq<char>> {
    match as_arr(part) {
        Some(arr) => if arr.len() > 0 && as_str(arr[0]) == Some("wrb.fr"@) && arr.len() > 2 {
            as_str(arr[2])
        } else {
            None
        },
        None => None,
    }
}

/// Payload law: a part tagged `wrb.fr` carries, as its payload, the string
/// at its element 2, whatever elements follow; a part whose element 2 is
/// not a string, or that is not tagged `wrb.fr`, carries none.
pub proof fn law_payload_is_element_two(a: Seq<JsonV>)
    ensures
        a.len() > 2 && a[0] == JsonV::Str("wrb.fr"@) ==> match a[2] {
            JsonV::Str(s) => part_payload(JsonV::Arr(a)) == Some(s),
            _ => part_payload(JsonV::Arr(a)) is None,
        },
        a.len() <= 2 ==> part_payload(JsonV::Arr(a)) is None,
        a.len() > 0 && !(a[0] == JsonV::Str("wrb.fr"@)) ==> part_payload(JsonV::Arr(a)) is None,
        forall|extra: Seq<JsonV>|
            a.len() > 2 ==> #[trigger] part_payload(JsonV::Arr(a + extra)) == part_payload(
                JsonV::Arr(a),
            ),
{
    assert forall|extra: Seq<JsonV>| a.len() > 2 implies #[trigger] part_payload(
        JsonV::Arr(a + extra),
    ) == part_payload(JsonV::Arr(a)) by {
        if a.len() > 2 {
            assert((a + extra)[0] == a[0]);
            assert((a + extra)[2] == a[2]);
        }
    }
}

/// The payload strings of a frame's parts, in order; empty ones dropped
/// where `skip_empty`.
pub open spec fn parts_payloads(parts: Seq<JsonV>, skip_empty: bool) -> Seq<Seq<char>>
    decreases parts.len(),
{
    if parts.len() == 0 {
        Seq::empty()
    } else {
        let before = parts_payloads(parts.drop_last(), skip_empty);
        match part_payload(parts.last()) {
            Some(s) => if skip_empty && s.len() == 0 {
                before
            } else {
                before.push(s)
            },
            None => before,
        }
    }
}

/// The payload strings of a decoded frame; none unless it is an array.
pub open spec fn frame_payloads(frame: JsonV, skip_empty: bool) -> Seq<Seq<char>> {
    match as_arr(frame) {
        Some(parts) => parts_payloads(parts, skip_empty),
        None => Seq::empty(),
    }
}

/// The non-empty payload strings of a sequence of frame texts, each frame
/// taken as it decodes.
pub open spec fn frames_payloads(frames: Seq<Seq<char>>) -> Seq<Seq<char>>
    decreases frames.len(),
{
    if frames.len() == 0 {
        Seq::empty()
    } else {
        frames_payloads(frames.drop_last()) + frame_payloads(
            json_decode(frames.last()).unwrap(),
            true,
        )
    }
}

/// Every text of `ts` decodes as JSON.
pub open spec fn all_decode(ts: Seq<Seq<char>>) -> bool {
    forall|k: int| 0 <= k < ts.len() ==> (#[trigger] json_decode(ts[k])) is Some
}

/// The decoded values of texts that all decode.
pub open spec fn decoded(ts: Seq<Seq<char>>) -> Seq<JsonV> {
    ts.map_values(|t: Seq<char>| json_decode(t).unwrap())
}

/// What a generation answer yields: its frames and their non-empty
/// `wrb.fr` payloads must all be JSON; then the images of the payloads in
/// order, each url once.
pub open spec fn extract_spec(body: Seq<char>) -> Result<Seq<ImageV>, Failure> {
    let frames = split_frames_spec(body);
    let texts = frames_payloads(frames);
    if all_decode(frames) && all_decode(texts) {
        Ok(dedup(all_payload_images(decoded(texts))))
    } else {
        Err(Failure::Json)
    }
}

fn entry_image_exec(entry: &Json, cid: &String, rid: &String, conv: &String) -> (r: Option<
    GeneratedImage,
>)
    ensures
        opt_image_view(r) == entry_image(entry@, cid@, rid@, conv@),
{
    let p_url: [usize; 3] = [0, 3, 3];
    let p_blob: [usize; 3] = [0, 3, 5];
    let p_ph: [usize; 2] = [1, 0];
    assert(p_url@.map_values(|k: usize| k as nat) =~= seq![0nat, 3, 3]);
    assert(p_blob@.map_values(|k: usize| k as nat) =~= seq![0nat, 3, 5]);
    assert(p_ph@.map_values(|k: usize| k as nat) =~= seq![1nat, 0]);
    let url = match get_str_at(entry, &p_url) {
        Some(u) => u,
        None => {
            return None;
        },
    };
    let blob = match get_str_at(entry, &p_blob) {
        Some(b) => b,
        None => {
            return None;
        },
    };
    let ph = match get_str_at(entry, &p_ph) {
        Some(p) => p,
        None => {
            return None;
        },
    };
    let trimmed = trim_chars(&chars_of(ph.as_str()));
    Some(
        GeneratedImage {
            url: url.clone(),
            blob: blob.clone(),
            placeholder: string_of(&trimmed),
            candidate_id: cid.clone(),
            response_id: rid.clone(),
            conversation_id: conv.clone(),
        },
    )
}

/// Images of the list at a pointer, appended to `out`.
fn list_images_exec(
    out: &mut Vec<GeneratedImage>,
    cand: &Json,
    path: &[usize],
    cid: &String,
    rid: &String,
    conv: &String,
)
    ensures
        images_view(final(out)@) == images_view(old(out)@) + images_at(
            cand@,
            path@.map_values(|k: usize| k as nat),
            cid@,
            rid@,
            conv@,
        ),
{
    let list = match get_pointer(cand, path) {
        Some(v) => match get_arr(v) {
            Some(l) => l,
            None => {
                assert(images_view(out@) + Seq::<ImageV>::empty() =~= images_view(out@));
                return ;
            },
        },
        None => {
            assert(images_view(out@) + Seq::<ImageV>::empty() =~= images_view(out@));
            return ;
        },
    };
    let ghost lv = Seq::new(list@.len(), |i: int| list@[i]@);
    let ghost start = images_view(out@);
    let mut i: usize = 0;
    while i < list.len()
        invariant
            i <= list@.len(),
            lv == Seq::new(list@.len(), |i: int| list@[i]@),
            start == images_view(old(out)@),
            images_view(out@) == start + list_images(lv.take(i as int), cid@, rid@, conv@),
        decreases list@.len() - i,
    {
        let ghost before = images_view(out@);
        assert(lv.take(i + 1).drop_last() =~= lv.take(i as int));
        assert(lv.take(i + 1).last() == list@[i as int]@);
        match entry_image_exec(&list[i], cid, rid, conv) {
            Some(im) => {
                out.push(im);
                assert(images_view(out@) =~= before.push(im@));
            },
            None => {},
        }
        i = i + 1;
    }
    assert(lv.take(i as int) =~= lv);
}

/// A candidate's images, listed at `/12/7/0` then at `/12/0/8/0`.
pub fn candidate_images(cand: &Json, cid: &String, rid: &String, conv: &String) -> (r: Vec<
    GeneratedImage,
>)
    ensures
        images_view(r@) == candidate_images_spec(cand@, cid@, rid@, conv@),
{
    let mut out: Vec<GeneratedImage> = Vec::new();
    let p1: [usize; 3] = [12, 7, 0];
    let p2: [usize; 4] = [12, 0, 8, 0];
    assert(p1@.map_values(|k: usize| k as nat) =~= seq![12nat, 7, 0]);
    assert(p2@.map_values(|k: usize| k as nat) =~= seq![12nat, 0, 8, 0]);
    assert(images_view(out@) =~= Seq::<ImageV>::empty());
    list_images_exec(&mut out, cand, &p1, cid, rid, conv);
    list_images_exec(&mut out, cand, &p2, cid, rid, conv);
    assert(Seq::<ImageV>::empty() + images_at(cand@, seq![12, 7, 0], cid@, rid@, conv@)
        =~= images_at(cand@, seq![12, 7, 0], cid@, rid@, conv@));
    out
}

/// Adds `img` to `images` unless an image with its url is already there.
fn push_unique_exec(images: &mut Vec<GeneratedImage>, img: GeneratedImage)
    ensures
        images_view(final(images)@) == push_unique(images_view(old(images)@), img@),
{
    let ghost d = images_view(images@);
    let mut i: usize = 0;
    while i < images.len()
        invariant
            i <= images@.len(),
            d == images_view(images@),
            d == images_view(old(images)@),
            forall|k: int| 0 <= k < i ==> d[k].url != img.url@,
        decreases images@.len() - i,
    {
        if images[i].url == img.url {
            assert(d[i as int].url == img.url@);
            return ;
        }
        i = i + 1;
    }
    images.push(img);
    assert(images_view(images@) =~= d.push(img@));
}

/// Adds the images of one decoded payload to `images`, each url once.
fn payload_images_exec(images: &mut Vec<GeneratedImage>, inner: &Json)
    ensures
        images_view(final(images)@) == extend_unique(
            images_view(old(images)@),
            payload_images(inner@),
        ),
{
    let p_conv: [usize; 2] = [1, 0];
    let p_resp: [usize; 2] = [1, 1];
    let p_cid: [usize; 1] = [0];
    assert(p_conv@.map_values(|k: usize| k as nat) =~= seq![1nat, 0]);
    assert(p_resp@.map_values(|k: usize| k as nat) =~= seq![1nat, 1]);
    assert(p_cid@.map_values(|k: usize| k as nat) =~= seq![0nat]);
    let conv = match get_str_at(inner, &p_conv) {
        Some(s) => s,
        None => {
            return ;
        },
    };
    let resp = match get_str_at(inner, &p_resp) {
        Some(s) => s,
        None => {
            return ;
        },
    };
    let cands = match get_index(inner, 4) {
        Some(c) => match get_arr(c) {
            Some(a) => a,
            None => {
                return ;
            },
        },
        None => {
            return ;
        },
    };
    let ghost cv = Seq::new(cands@.len(), |i: int| cands@[i]@);
    let ghost start = images_view(images@);
    let mut i: usize = 0;
    while i < cands.len()
        invariant
            i <= cands@.len(),
            cv == Seq::new(cands@.len(), |i: int| cands@[i]@),
            start == images_view(old(images)@),
            p_cid@.map_values(|k: usize| k as nat) == seq![0nat],
            images_view(images@) == extend_unique(
                start,
                candidates_images(cv.take(i as int), resp@, conv@),
            ),
        decreases cands@.len() - i,
    {
        assert(cv.take(i + 1).drop_last() =~= cv.take(i as int));
        assert(cv.take(i + 1).last() == cands@[i as int]@);
        let cand = &cands[i];
        match get_str_at(cand, &p_cid) {
            Some(cid) => {
                let found = candidate_images(cand, cid, resp, conv);
                let ghost fv = images_view(found@);
                let ghost mid = images_view(images@);
                let mut j: usize = 0;
                while j < found.len()
                    invariant
                        j <= found@.len(),
                        fv == images_view(found@),
                        images_view(images@) == extend_unique(mid, fv.take(j as int)),
                    decreases found@.len() - j,
                {
                    assert(fv.take(j + 1).drop_last() =~= fv.take(j as int));
                    let im = GeneratedImage {
                        url: found[j].url.clone(),
                        blob: found[j].blob.clone(),
                        placeholder: found[j].placeholder.clone(),
                        candidate_id: found[j].candidate_id.clone(),
                        response_id: found[j].response_id.clone(),
                        conversation_id: found[j].conversation_id.clone(),
                    };
                    assert(im@ == fv[j as int]);
                    push_unique_exec(images, im);
                    j = j + 1;
                }
                assert(fv.take(j as int) =~= fv);
                proof {
                    lemma_extend_concat(
                        start,
                        candidates_images(cv.take(i as int), resp@, conv@),
                        fv,
                    );
                }
            },
            None => {},
        }
        i = i + 1;
    }
    assert(cv.take(i as int) =~= cv);
}

/// The images of decoded `wrb.fr` payloads, in order, each url once.
pub fn images_from_payloads(payloads: &Vec<Json>) -> (r: Vec<GeneratedImage>)
    ensures
        images_view(r@) == dedup(
            all_payload_images(Seq::new(payloads@.len(), |i: int| payloads@[i]@)),
        ),
{
    let ghost pv = Seq::new(payloads@.len(), |i: int| payloads@[i]@);
    let mut images: Vec<GeneratedImage> = Vec::new();
    let mut i: usize = 0;
    assert(images_view(images@) =~= Seq::<ImageV>::empty());
    while i < payloads.len()
        invariant
            i <= payloads@.len(),
            pv == Seq::new(payloads@.len(), |i: int| payloads@[i]@),
            images_view(images@) == dedup(all_payload_images(pv.take(i as int))),
        decreases payloads@.len() - i,
    {
        assert(pv.take(i + 1).drop_last() =~= pv.take(i as int));
        assert(pv.take(i + 1).last() == payloads@[i as int]@);
        proof {
            lemma_extend_concat(
                Seq::empty(),
                all_payload_images(pv.take(i as int)),
                payload_images(payloads@[i as int]@),
            );
        }
        payload_images_exec(&mut images, &payloads[i]);
        i = i + 1;
    }
    assert(pv.take(i as int) =~= pv);
    images
}

pub proof fn lemma_parts_prefix(parts: Seq<JsonV>, skip_empty: bool, j: int, k: int)
    requires
        0 <= j <= k <= parts.len(),
    ensures
        parts_payloads(parts.take(j), skip_empty).is_prefix_of(
            parts_payloads(parts.take(k), skip_empty),
        ),
    decreases k - j,
{
    if j < k {
        lemma_parts_prefix(parts, skip_empty, j, k - 1);
        assert(parts.take(k).drop_last() =~= parts.take(k - 1));
    }
}

proof fn lemma_frames_prefix(frames: Seq<Seq<char>>, j: int, k: int)
    requires
        0 <= j <= k <= frames.len(),
    ensures
        frames_payloads(frames.take(j)).is_prefix_of(frames_payloads(frames.take(k))),
    decreases k - j,
{
    if j < k {
        lemma_frames_prefix(frames, j, k - 1);
        assert(frames.take(k).drop_last() =~= frames.take(k - 1));
    }
}

/// The payload string of a `wrb.fr` part.
pub fn part_payload_exec(part: &Json) -> (r: Option<&String>)
    ensures
        match r {
            Some(s) => part_payload(part@) == Some(s@),
            None => part_payload(part@) is None,
        },
{
    let arr = match get_arr(part) {
        Some(a) => a,
        None => {
            return None;
        },
    };
    if arr.len() == 0 {
        return None;
    }
    let tag = match get_str(&arr[0]) {
        Some(t) => t,
        None => {
            return None;
        },
    };
    let wrb = String::from_str("wrb.fr");
    if *tag != wrb || arr.len() <= 2 {
        return None;
    }
    get_str(&arr[2])
}

/// A text that does not decode stays a witness of failure in any longer
/// sequence that begins with it.
proof fn lemma_prefix_decode(a: Seq<Seq<char>>, b: Seq<Seq<char>>)
    requires
        a.is_prefix_of(b),
        !all_decode(a),
    ensures
        !all_decode(b),
{
    let k = choose|k: int| 0 <= k < a.len() && (#[trigger] json_decode(a[k])) is None;
    assert(b.subrange(0, a.len() as int)[k] == b[k]);
}

/// Decodes the non-empty payloads of one decoded frame, in order, appending
/// them to `out`; fails at the first that does not decode.
fn decode_frame_payloads(frame: &Json, out: &mut Vec<Json>) -> (r: Result<(), serde_json::Error>)
    ensures
        match r {
            Ok(()) => {
                let fp = frame_payloads(frame@, true);
                &&& all_decode(fp)
                &&& final(out)@.len() == old(out)@.len() + fp.len()
                &&& forall|k: int| 0 <= k < old(out)@.len() ==> #[trigger] final(out)@[k] == old(out)@[k]
                &&& forall|k: int|
                    0 <= k < fp.len() ==> Some(#[trigger] final(out)@[old(out)@.len() + k]@)
                        == json_decode(fp[k])
            },
            Err(_) => !all_decode(frame_payloads(frame@, true)),
        },
{
    let parts = match get_arr(frame) {
        Some(p) => p,
        None => {
            return Ok(());
        },
    };
    let ghost pv = Seq::new(parts@.len(), |k: int| parts@[k]@);
    let ghost n0 = out@.len();
    let mut j: usize = 0;
    while j < parts.len()
        invariant
            j <= parts@.len(),
            pv == Seq::new(parts@.len(), |k: int| parts@[k]@),
            as_arr(frame@) == Some(pv),
            n0 == old(out)@.len(),
            out@.len() == n0 + parts_payloads(pv.take(j as int), true).len(),
            forall|k: int| 0 <= k < n0 ==> #[trigger] out@[k] == old(out)@[k],
            forall|k: int|
                0 <= k < parts_payloads(pv.take(j as int), true).len() ==> Some(
                    #[trigger] out@[n0 + k]@,
                ) == json_decode(parts_payloads(pv.take(j as int), true)[k]),
        decreases parts@.len() - j,
    {
        let ghost done = parts_payloads(pv.take(j as int), true);
        assert(pv.take(j + 1).drop_last() =~= pv.take(j as int));
        assert(pv.take(j + 1).last() == parts@[j as int]@);
        match part_payload_exec(&parts[j]) {
            Some(s) => {
                if !s.as_str().is_empty() {
                    assert(parts_payloads(pv.take(j + 1), true) == done.push(s@));
                    match decode(s.as_str()) {
                        Ok(inner) => {
                            out.push(inner);
                        },
                        Err(e) => {
                            proof {
                                lemma_parts_prefix(pv, true, j + 1, pv.len() as int);
                                assert(pv.take(pv.len() as int) =~= pv);
                                assert(!all_decode(done.push(s@))) by {
                                    assert(json_decode(done.push(s@)[done.len() as int]) is None);
                                }
                                lemma_prefix_decode(done.push(s@), frame_payloads(frame@, true));
                            }
                            return Err(e);
                        },
                    }
                }
            },
            None => {},
        }
        j = j + 1;
    }
    assert(pv.take(j as int) =~= pv);
    assert forall|k: int| 0 <= k < frame_payloads(frame@, true).len() implies (#[trigger] json_decode(
        frame_payloads(frame@, true)[k],
    )) is Some by {
        assert(Some(out@[n0 + k]@) == json_decode(frame_payloads(frame@, true)[k]));
    }
    Ok(())
}

/// Extracts the generated images from a `StreamGenerate` answer body: every
/// frame and every non-empty `wrb.fr` payload is decoded as JSON (the first
/// that does not decode fails the whole), the images of the payloads are
/// taken in order and an image whose url was already seen is dropped.
pub fn extract_images(body: &str) -> (r: Result<Vec<GeneratedImage>, GeminiError>)
    requires
        frames_fit(body@),
    ensures
        match r {
            Ok(v) => extract_spec(body@) == Ok::<Seq<ImageV>, Failure>(images_view(v@)),
            Err(e) => extract_spec(body@) == Err::<Seq<ImageV>, Failure>(e.failure()),
        },
{
    let frames = split_frames(body);
    let ghost fv = frames@.map_values(|f: String| f@);
    let mut payloads: Vec<Json> = Vec::new();
    let mut i: usize = 0;
    while i < frames.len()
        invariant
            i <= frames@.len(),
            fv == frames@.map_values(|f: String| f@),
            fv == split_frames_spec(body@),
            forall|k: int| 0 <= k < i ==> (#[trigger] json_decode(fv[k])) is Some,
            payloads@.len() == frames_payloads(fv.take(i as int)).len(),
            forall|k: int|
                0 <= k < payloads@.len() ==> Some(#[trigger] payloads@[k]@) == json_decode(
                    frames_payloads(fv.take(i as int))[k],
                ),
        decreases frames@.len() - i,
    {
        let frame = match decode(frames[i].as_str()) {
            Ok(f) => f,
            Err(e) => {
                assert(json_decode(fv[i as int]) is None);
                assert(!all_decode(fv));
                return Err(GeminiError::Json(e));
            },
        };
        let ghost base = frames_payloads(fv.take(i as int));
        assert(fv.take(i + 1).drop_last() =~= fv.take(i as int));
        assert(fv.take(i + 1).last() == fv[i as int]);
        assert(frames_payloads(fv.take(i + 1)) == base + frame_payloads(frame@, true));
        let ghost before = payloads@;
        match decode_frame_payloads(&frame, &mut payloads) {
            Ok(()) => {},
            Err(e) => {
                proof {
                    let fp = frame_payloads(frame@, true);
                    let k = choose|k: int| 0 <= k < fp.len() && (#[trigger] json_decode(fp[k])) is None;
                    assert((base + fp)[base.len() + k] == fp[k]);
                    assert(!all_decode(base + fp));
                    lemma_frames_prefix(fv, i + 1, fv.len() as int);
                    assert(fv.take(fv.len() as int) =~= fv);
                    lemma_prefix_decode(base + fp, frames_payloads(fv));
                }
                return Err(GeminiError::Json(e));
            },
        }
        proof {
            let fp = frame_payloads(frame@, true);
            assert forall|k: int| 0 <= k < payloads@.len() implies Some(#[trigger] payloads@[k]@)
                == json_decode(frames_payloads(fv.take(i + 1))[k]) by {
                if k < base.len() {
                    assert(payloads@[k] == before[k]);
                    assert((base + fp)[k] == base[k]);
                } else {
                    assert(Some(payloads@[base.len() + (k - base.len())]@) == json_decode(
                        fp[k - base.len()],
                    ));
                    assert((base + fp)[k] == fp[k - base.len()]);
                }
            }
        }
        i = i + 1;
    }
    assert(fv.take(i as int) =~= fv);
    let ghost texts = frames_payloads(fv);
    assert(Seq::new(payloads@.len(), |k: int| payloads@[k]@) =~= decoded(texts));
    assert forall|k: int| 0 <= k < texts.len() implies (#[trigger] json_decode(texts[k])) is Some by {
        assert(Some(payloads@[k]@) == json_decode(texts[k]));
    }
    Ok(images_from_payloads(&payloads))
}

} // verus!
