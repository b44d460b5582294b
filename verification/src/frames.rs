//! Splitting of a length-prefixed frame stream, the framing of Gemini's
//! streamed RPC answers: an optional `)]}'` guard, then frames each written
//! as a decimal length in UTF-16 units followed by that much content.
use vstd::prelude::*;
use crate::text::{
    back_ws, chars_of, decimal, digit_char, is_ws, lemma_trim_ends, lemma_trim_noop, strip_from, is_ascii_digit, is_digit, lemma_skip_ws, skip_ws, slice_of, string_of, strip_all,
    strip_all_exec, trim, trim_chars, whitespace_end,
};

verus! {

/// End of the run of ASCII digits that starts at `i`.
pub open spec fn digits_end(s: Seq<char>, i: int) -> int
    decreases s.len() - i,
{
    if 0 <= i < s.len() && is_digit(s[i]) {
        digits_end(s, i + 1)
    } else {
        i
    }
}

/// Value of a run of ASCII digits read as a decimal number.
pub open spec fn digits_value(s: Seq<char>) -> nat
    decreases s.len(),
{
    if s.len() == 0 {
        0
    } else {
        digits_value(s.drop_last()) * 10 + ((s.last() as int - 48) as nat)
    }
}

/// UTF-16 length of one character.
pub open spec fn unit_width(c: char) -> nat {
    if (c as u32) > 0xFFFF {
        2
    } else {
        1
    }
}

/// End of the content that starts at `i` and must cover `need` UTF-16 units
/// (or runs to the end of `s`).
pub open spec fn units_end(s: Seq<char>, i: int, need: int) -> int
    decreases s.len() - i,
{
    if 0 <= i < s.len() && need > 0 {
        units_end(s, i + 1, need - unit_width(s[i]))
    } else {
        i
    }
}

pub proof fn lemma_digits_end(s: Seq<char>, i: int)
    requires
        0 <= i <= s.len(),
    ensures
        i <= digits_end(s, i) <= s.len(),
        forall|k: int| i <= k < digits_end(s, i) ==> is_digit(#[trigger] s[k]),
        digits_end(s, i) < s.len() ==> !is_digit(s[digits_end(s, i)]),
    decreases s.len() - i,
{
    if i < s.len() && is_digit(s[i]) {
        lemma_digits_end(s, i + 1);
    }
}

pub proof fn lemma_units_end(s: Seq<char>, i: int, need: int)
    requires
        0 <= i <= s.len(),
    ensures
        i <= units_end(s, i, need) <= s.len(),
        need > 0 && i < s.len() ==> i < units_end(s, i, need),
    decreases s.len() - i,
{
    if i < s.len() && need > 0 {
        lemma_units_end(s, i + 1, need - unit_width(s[i]));
    }
}

/// Where the frame whose header search starts at `i` begins its digits, ends
/// its digits, and ends its content.
pub open spec fn frame_bounds(s: Seq<char>, i: int) -> (int, int, int) {
    let a = skip_ws(s, i);
    let d = digits_end(s, a);
    (a, d, units_end(s, d, digits_value(s.subrange(a, d)) as int))
}

pub proof fn lemma_frame_bounds(s: Seq<char>, i: int)
    requires
        0 <= i <= s.len(),
    ensures
        ({
            let (a, d, e) = frame_bounds(s, i);
            &&& i <= a <= d <= e <= s.len()
            &&& a < d ==> i < e
        }),
{
    lemma_skip_ws(s, i);
    let a = skip_ws(s, i);
    lemma_digits_end(s, a);
    let d = digits_end(s, a);
    lemma_units_end(s, d, digits_value(s.subrange(a, d)) as int);
}

/// The frames of `s` from position `i` on: trimmed, empty ones dropped.
pub open spec fn frames_at(s: Seq<char>, i: int) -> Seq<Seq<char>>
    decreases s.len() - i,
{
    if 0 <= i <= s.len() {
        let (a, d, e) = frame_bounds(s, i);
        if a < d {
            proof {
                lemma_frame_bounds(s, i);
            }
            let chunk = trim(s.subrange(d, e));
            if chunk.len() > 0 {
                seq![chunk] + frames_at(s, e)
            } else {
                frames_at(s, e)
            }
        } else {
            Seq::empty()
        }
    } else {
        Seq::empty()
    }
}

/// Every frame length from position `i` on fits in a `usize`.
pub open spec fn fits_at(s: Seq<char>, i: int) -> bool
    decreases s.len() - i,
{
    if 0 <= i <= s.len() {
        let (a, d, e) = frame_bounds(s, i);
        if a < d {
            proof {
                lemma_frame_bounds(s, i);
            }
            digits_value(s.subrange(a, d)) <= usize::MAX && fits_at(s, e)
        } else {
            true
        }
    } else {
        true
    }
}

/// The guard that prefixes Google's JSON answers.
pub open spec fn guard() -> Seq<char> {
    seq![')', ']', '}', '\'']
}

/// The frames of a response body.
pub open spec fn split_frames_spec(body: Seq<char>) -> Seq<Seq<char>> {
    frames_at(strip_all(body, guard()), 0)
}

/// Every frame length announced in the body fits in a `usize`.
pub open spec fn frames_fit(body: Seq<char>) -> bool {
    fits_at(strip_all(body, guard()), 0)
}

proof fn lemma_digits_value_monotone(s: Seq<char>, a: int, j: int, d: int)
    requires
        0 <= a <= j <= d <= s.len(),
        forall|k: int| a <= k < d ==> is_digit(#[trigger] s[k]),
    ensures
        digits_value(s.subrange(a, j)) <= digits_value(s.subrange(a, d)),
    decreases d - j,
{
    if j < d {
        lemma_digits_value_monotone(s, a, j + 1, d);
        assert(s.subrange(a, j + 1).drop_last() =~= s.subrange(a, j));
    }
}

fn guard_chars() -> (g: Vec<char>)
    ensures
        g@ == guard(),
{
    let mut g: Vec<char> = Vec::new();
    g.push(')');
    g.push(']');
    g.push('}');
    g.push('\'');
    assert(g@ =~= guard());
    g
}

/// The digit run of the frame header searched for from `i`.
fn header_bounds(s: &Vec<char>, i: usize) -> (r: (usize, usize))
    requires
        i <= s@.len(),
    ensures
        r.0 == frame_bounds(s@, i as int).0,
        r.1 == frame_bounds(s@, i as int).1,
        i <= r.0 <= r.1 <= s@.len(),
{
    let a = whitespace_end(s, i);
    let mut d = a;
    proof {
        lemma_digits_end(s@, a as int);
    }
    while d < s.len() && is_ascii_digit(s[d])
        invariant
            a <= d <= s@.len(),
            digits_end(s@, d as int) == digits_end(s@, a as int),
        decreases s@.len() - d,
    {
        d = d + 1;
    }
    (a, d)
}

/// The value of the digit run `s[a..d]`, `None` where it exceeds `usize::MAX`.
fn header_value(s: &Vec<char>, a: usize, d: usize) -> (r: Option<usize>)
    requires
        a <= d <= s@.len(),
        forall|k: int| a <= k < d ==> is_digit(#[trigger] s@[k]),
    ensures
        r matches Some(v) ==> v == digits_value(s@.subrange(a as int, d as int)),
        r is None <==> digits_value(s@.subrange(a as int, d as int)) > usize::MAX,
{
    let mut length: usize = 0;
    let mut j = a;
    assert(s@.subrange(a as int, a as int) =~= Seq::<char>::empty());
    while j < d
        invariant
            a <= j <= d <= s@.len(),
            forall|k: int| a <= k < d ==> is_digit(#[trigger] s@[k]),
            length == digits_value(s@.subrange(a as int, j as int)),
        decreases d - j,
    {
        let dig = (s[j] as u32 - 48) as usize;
        assert(s@.subrange(a as int, j + 1).drop_last() =~= s@.subrange(a as int, j as int));
        assert(s@.subrange(a as int, j + 1).last() == s@[j as int]);
        match length.checked_mul(10) {
            Some(x) => match x.checked_add(dig) {
                Some(y) => {
                    length = y;
                },
                None => {
                    proof {
                        lemma_digits_value_monotone(s@, a as int, j + 1, d as int);
                    }
                    return None;
                },
            },
            None => {
                proof {
                    lemma_digits_value_monotone(s@, a as int, j + 1, d as int);
                }
                return None;
            },
        }
        j = j + 1;
    }
    Some(length)
}

/// End of the content that starts at `d` and covers `need` UTF-16 units.
fn content_end(s: &Vec<char>, d: usize, need: usize) -> (e: usize)
    requires
        d <= s@.len(),
    ensures
        e == units_end(s@, d as int, need as int),
        d <= e <= s@.len(),
{
    let mut k = d;
    let mut rem = need;
    proof {
        lemma_units_end(s@, d as int, need as int);
    }
    while k < s.len() && rem > 0
        invariant
            d <= k <= s@.len(),
            units_end(s@, k as int, rem as int) == units_end(s@, d as int, need as int),
        decreases s@.len() - k,
    {
        let w: usize = if (s[k] as u32) > 0xFFFF {
            2
        } else {
            1
        };
        assert(w == unit_width(s@[k as int]));
        let ghost k0 = k as int;
        let ghost r0 = rem as int;
        rem = if rem > w {
            rem - w
        } else {
            0
        };
        k = k + 1;
        assert(units_end(s@, k0, r0) == units_end(s@, k0 + 1, r0 - w));
        assert(units_end(s@, k as int, rem as int) == units_end(s@, k0 + 1, r0 - w));
    }
    k
}

/// Whether every frame length the body announces fits in a `usize`;
/// `split_frames` needs it.
pub fn frames_fit_exec(body: &str) -> (r: bool)
    ensures
        r == frames_fit(body@),
{
    let g = guard_chars();
    let raw = chars_of(body);
    let s = strip_all_exec(&raw, &g);
    let mut i: usize = 0;
    loop
        invariant
            i <= s@.len(),
            s@ == strip_all(body@, guard()),
            fits_at(s@, i as int) == fits_at(s@, 0),
        decreases s@.len() - i,
    {
        let (a, d) = header_bounds(&s, i);
        proof {
            lemma_frame_bounds(s@, i as int);
            lemma_digits_end(s@, a as int);
        }
        if d == a {
            return true;
        }
        match header_value(&s, a, d) {
            Some(len) => {
                let e = content_end(&s, d, len);
                i = e;
            },
            None => {
                return false;
            },
        }
    }
}

/// Splits a length-prefixed frame stream into its trimmed, non-empty frames.
pub fn split_frames(body: &str) -> (frames: Vec<String>)
    requires
        frames_fit(body@),
    ensures
        frames@.map_values(|f: String| f@) == split_frames_spec(body@),
{
    let g = guard_chars();
    let raw = chars_of(body);
    let s = strip_all_exec(&raw, &g);
    let mut frames: Vec<String> = Vec::new();
    let mut i: usize = 0;
    loop
        invariant
            i <= s@.len(),
            s@ == strip_all(body@, guard()),
            fits_at(s@, i as int),
            frames@.map_values(|f: String| f@) + frames_at(s@, i as int) == frames_at(s@, 0),
        decreases s@.len() - i,
    {
        let ghost before = frames@.map_values(|f: String| f@);
        let (a, d) = header_bounds(&s, i);
        proof {
            lemma_frame_bounds(s@, i as int);
            lemma_digits_end(s@, a as int);
        }
        if d == a {
            assert(frames@.map_values(|f: String| f@) + frames_at(s@, i as int) =~= frames@.map_values(
                |f: String| f@,
            ));
            return frames;
        }
        let len = match header_value(&s, a, d) {
            Some(v) => v,
            None => {
                return frames;
            },
        };
        let e = content_end(&s, d, len);
        let chunk = slice_of(&s, d, e);
        let trimmed = trim_chars(&chunk);
        if trimmed.len() > 0 {
            frames.push(string_of(&trimmed));
            assert(frames@.map_values(|f: String| f@) =~= before.push(trimmed@));
            assert(before.push(trimmed@) + frames_at(s@, e as int) =~= before + (seq![trimmed@]
                + frames_at(s@, e as int)));
        }
        i = e;
    }
}

/// UTF-16 length of a character sequence.
pub open spec fn utf16_len(f: Seq<char>) -> nat
    decreases f.len(),
{
    if f.len() == 0 {
        0
    } else {
        unit_width(f[0]) + utf16_len(f.drop_first())
    }
}

/// What the stream writes after a frame's length header: the frame itself,
/// behind a newline when `nl` (the form Google's answers take).
pub open spec fn frame_content(f: Seq<char>, nl: bool) -> Seq<char> {
    if nl {
        seq!['\n'] + f
    } else {
        f
    }
}

/// A frame the stream can carry unchanged: non-empty, trimmed, with a length
/// that fits in a `usize`, and, where no newline separates it from its
/// header, not starting with a digit (it would run into the header).
pub open spec fn carriable(f: Seq<char>, nl: bool) -> bool {
    &&& f.len() > 0
    &&& !is_ws(f[0])
    &&& !is_ws(f.last())
    &&& (!nl ==> !is_digit(f[0]))
    &&& utf16_len(frame_content(f, nl)) <= usize::MAX
}

/// The stream that carries `fs`: each frame's content written after its
/// length in UTF-16 units.
pub open spec fn encode_frames(fs: Seq<Seq<char>>, nl: bool) -> Seq<char>
    decreases fs.len(),
{
    if fs.len() == 0 {
        Seq::empty()
    } else {
        let c = frame_content(fs[0], nl);
        decimal(utf16_len(c)) + c + encode_frames(fs.drop_first(), nl)
    }
}

proof fn lemma_trim_newline(f: Seq<char>)
    requires
        f.len() > 0,
        !is_ws(f[0]),
        !is_ws(f.last()),
    ensures
        trim(seq!['\n'] + f) == f,
{
    let c = seq!['\n'] + f;
    assert(c[0] == '\n');
    assert(c[1] == f[0]);
    assert(skip_ws(c, 1) == 1);
    assert(skip_ws(c, 0) == 1);
    assert(c[c.len() - 1] == f.last());
    assert(back_ws(c, 1, c.len() as int) == c.len());
    assert(c.subrange(1, c.len() as int) =~= f);
}

pub proof fn lemma_decimal_digits(n: nat)
    ensures
        decimal(n).len() > 0,
        forall|k: int| 0 <= k < decimal(n).len() ==> is_digit(#[trigger] decimal(n)[k]),
        digits_value(decimal(n)) == n,
    decreases n,
{
    let d = (n % 10) as nat;
    assert((digit_char(d) as int) == 48 + d);
    if n >= 10 {
        lemma_decimal_digits(n / 10);
        assert(decimal(n).drop_last() =~= decimal(n / 10));
        assert(decimal(n).last() == digit_char(d));
        assert((n / 10) * 10 + n % 10 == n) by (nonlinear_arith);
        assert(digits_value(decimal(n)) == digits_value(decimal(n / 10)) * 10 + d);
        assert(digits_value(decimal(n)) == n);
    } else {
        assert(decimal(n).drop_last() =~= Seq::<char>::empty());
        assert(decimal(n).last() == digit_char(d));
        assert(d == n);
        assert(digits_value(decimal(n)) == digits_value(Seq::<char>::empty()) * 10 + d);
        assert(digits_value(decimal(n)) == n);
    }
}

proof fn lemma_units_cover(s: Seq<char>, d: int, f: Seq<char>, k: int)
    requires
        0 <= d,
        d + f.len() <= s.len(),
        s.subrange(d, d + f.len()) == f,
        0 <= k <= f.len(),
    ensures
        units_end(s, d + k, utf16_len(f.skip(k)) as int) == d + f.len(),
    decreases f.len() - k,
{
    if k < f.len() {
        assert(s[d + k] == f[k]);
        assert(f.skip(k).drop_first() =~= f.skip(k + 1));
        lemma_units_cover(s, d, f, k + 1);
    } else {
        assert(f.skip(k).len() == 0);
    }
}

proof fn lemma_frames_of_encoding(s: Seq<char>, i: int, fs: Seq<Seq<char>>, nl: bool)
    requires
        0 <= i <= s.len(),
        s.subrange(i, s.len() as int) == encode_frames(fs, nl),
        forall|k: int| 0 <= k < fs.len() ==> carriable(#[trigger] fs[k], nl),
    ensures
        frames_at(s, i) == fs,
        fits_at(s, i),
    decreases fs.len(),
{
    if fs.len() == 0 {
        assert(i == s.len());
        assert(skip_ws(s, i) == i);
        assert(digits_end(s, i) == i);
    } else {
        let f = fs[0];
        assert(carriable(f, nl));
        let c = frame_content(f, nl);
        let n = utf16_len(c);
        let dec = decimal(n);
        lemma_decimal_digits(n);
        let rest = encode_frames(fs.drop_first(), nl);
        assert(encode_frames(fs, nl) == dec + c + rest);
        let d = i + dec.len();
        let e = d + c.len();
        assert forall|k: int| i <= k < d implies s[k] == dec[k - i] by {
            assert(s.subrange(i, s.len() as int)[k - i] == s[k]);
        }
        assert(s[i] == dec[0]);
        assert(is_digit(s[i]));
        assert(skip_ws(s, i) == i);
        assert(s.subrange(d, e) =~= c) by {
            assert forall|k: int| 0 <= k < c.len() implies s.subrange(d, e)[k] == c[k] by {
                assert(s.subrange(i, s.len() as int)[d - i + k] == s[d + k]);
            }
        }
        assert(s[d] == c[0]) by {
            assert(s.subrange(d, e)[0] == s[d]);
        }
        assert(!is_digit(c[0]));
        assert forall|k: int| i <= k <= d implies digits_end(s, k) == d by {
            lemma_digits_tail(s, k, d);
        }
        assert(s.subrange(i, d) =~= dec);
        lemma_units_cover(s, d, c, 0);
        assert(c.skip(0) =~= c);
        assert(frame_bounds(s, i) == (i, d, e));
        if nl {
            lemma_trim_newline(f);
        } else {
            lemma_trim_noop(f);
        }
        assert(trim(s.subrange(d, e)) == f);
        assert(s.subrange(e, s.len() as int) =~= rest) by {
            assert forall|k: int| 0 <= k < rest.len() implies s.subrange(e, s.len() as int)[k]
                == rest[k] by {
                assert(s.subrange(i, s.len() as int)[e - i + k] == s[e + k]);
            }
        }
        assert forall|k: int| 0 <= k < fs.drop_first().len() implies carriable(
            #[trigger] fs.drop_first()[k],
            nl,
        ) by {
            assert(fs.drop_first()[k] == fs[k + 1]);
        }
        lemma_frames_of_encoding(s, e, fs.drop_first(), nl);
        assert(seq![f] + fs.drop_first() =~= fs);
    }
}

proof fn lemma_digits_tail(s: Seq<char>, k: int, d: int)
    requires
        0 <= k <= d < s.len(),
        forall|t: int| k <= t < d ==> is_digit(#[trigger] s[t]),
        !is_digit(s[d]),
    ensures
        digits_end(s, k) == d,
    decreases d - k,
{
    if k < d {
        lemma_digits_tail(s, k + 1, d);
    }
}

/// Framing law: splitting the stream that carries some frames gives back
/// exactly those frames, whether each frame follows its length header
/// directly or after a newline (the newline counted in the length), with or
/// without the `)]}'` guard in front; and such a stream meets
/// `split_frames`'s precondition.
pub proof fn law_split_frames_inverts_encoding(fs: Seq<Seq<char>>, nl: bool)
    requires
        forall|k: int| 0 <= k < fs.len() ==> carriable(#[trigger] fs[k], nl),
    ensures
        split_frames_spec(encode_frames(fs, nl)) == fs,
        split_frames_spec(guard() + encode_frames(fs, nl)) == fs,
        frames_fit(encode_frames(fs, nl)),
        frames_fit(guard() + encode_frames(fs, nl)),
{
    let s = encode_frames(fs, nl);
    let g = guard();
    if fs.len() > 0 {
        lemma_decimal_digits(utf16_len(frame_content(fs[0], nl)));
        assert(s[0] == decimal(utf16_len(frame_content(fs[0], nl)))[0]);
    }
    assert(strip_from(s, g, 0) == 0) by {
        if fs.len() > 0 && s.len() >= 4 {
            assert(s.subrange(0, 4)[0] == s[0]);
        }
    }
    assert(s.skip(0) =~= s);
    assert(s.subrange(0, s.len() as int) =~= s);
    lemma_frames_of_encoding(s, 0, fs, nl);
    let t = g + s;
    assert(t.subrange(0, 4) =~= g);
    assert(strip_from(t, g, 4) == 4) by {
        if fs.len() > 0 && t.len() >= 8 {
            assert(t.subrange(4, 8)[0] == t[4]);
            assert(t[4] == s[0]);
        }
    }
    assert(strip_from(t, g, 0) == 4);
    assert(t.skip(4) =~= s);
}

/// Every frame `split_frames` yields is non-empty and trimmed.
pub proof fn law_frames_are_trimmed(body: Seq<char>)
    ensures
        forall|k: int|
            0 <= k < split_frames_spec(body).len() ==> {
                let f = #[trigger] split_frames_spec(body)[k];
                &&& f.len() > 0
                &&& !is_ws(f[0])
                &&& !is_ws(f.last())
            },
{
    lemma_frames_at_trimmed(strip_all(body, guard()), 0);
}

proof fn lemma_frames_at_trimmed(s: Seq<char>, i: int)
    ensures
        forall|k: int|
            0 <= k < frames_at(s, i).len() ==> {
                let f = #[trigger] frames_at(s, i)[k];
                &&& f.len() > 0
                &&& !is_ws(f[0])
                &&& !is_ws(f.last())
            },
    decreases s.len() - i,
{
    if 0 <= i <= s.len() {
        let (a, d, e) = frame_bounds(s, i);
        if a < d {
            lemma_frame_bounds(s, i);
            lemma_frames_at_trimmed(s, e);
            let chunk = trim(s.subrange(d, e));
            lemma_trim_ends(s.subrange(d, e));
            if chunk.len() > 0 {
                assert forall|k: int| 0 <= k < frames_at(s, i).len() implies {
                    let f = #[trigger] frames_at(s, i)[k];
                    &&& f.len() > 0
                    &&& !is_ws(f[0])
                    &&& !is_ws(f.last())
                } by {
                    if k > 0 {
                        assert(frames_at(s, i)[k] == frames_at(s, e)[k - 1]);
                    }
                }
            }
        }
    }
}

} // verus!
