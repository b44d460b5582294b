//! Character-level primitives over `Seq<char>`: whitespace, trimming, prefix
//! and suffix tests, substring search, decimal rendering.
use vstd::prelude::*;

verus! {

/// The Unicode `White_Space` property, as `char::is_whitespace` tests it.
pub open spec fn is_ws(c: char) -> bool {
    let n = c as u32;
    ||| 9 <= n <= 13
    ||| n == 32
    ||| n == 0x85
    ||| n == 0xA0
    ||| n == 0x1680
    ||| 0x2000 <= n <= 0x200A
    ||| n == 0x2028
    ||| n == 0x2029
    ||| n == 0x202F
    ||| n == 0x205F
    ||| n == 0x3000
}

/// `char::is_ascii_digit`.
pub open spec fn is_digit(c: char) -> bool {
    '0' <= c <= '9'
}

pub fn is_whitespace(c: char) -> (r: bool)
    ensures
        r == is_ws(c),
{
    let n = c as u32;
    (9 <= n && n <= 13) || n == 32 || n == 0x85 || n == 0xA0 || n == 0x1680 || (0x2000 <= n && n
        <= 0x200A) || n == 0x2028 || n == 0x2029 || n == 0x202F || n == 0x205F || n == 0x3000
}

pub fn is_ascii_digit(c: char) -> (r: bool)
    ensures
        r == is_digit(c),
{
    '0' <= c && c <= '9'
}

/// First position at or after `i` that does not hold whitespace.
pub open spec fn skip_ws(s: Seq<char>, i: int) -> int
    decreases s.len() - i,
{
    if 0 <= i < s.len() && is_ws(s[i]) {
        skip_ws(s, i + 1)
    } else {
        i
    }
}

/// Moving down from `j`, the end of the span once trailing whitespace above
/// `lo` is dropped.
pub open spec fn back_ws(s: Seq<char>, lo: int, j: int) -> int
    decreases j - lo,
{
    if lo < j <= s.len() && is_ws(s[j - 1]) {
        back_ws(s, lo, j - 1)
    } else {
        j
    }
}

/// `str::trim`: leading and trailing whitespace removed.
pub open spec fn trim(s: Seq<char>) -> Seq<char> {
    let a = skip_ws(s, 0);
    s.subrange(a, back_ws(s, a, s.len() as int))
}

/// `p` is a prefix of `s`.
pub open spec fn starts_with(s: Seq<char>, p: Seq<char>) -> bool {
    p.len() <= s.len() && s.subrange(0, p.len() as int) == p
}

/// `p` is a suffix of `s`.
pub open spec fn ends_with(s: Seq<char>, p: Seq<char>) -> bool {
    p.len() <= s.len() && s.subrange(s.len() - p.len(), s.len() as int) == p
}

/// `p` occurs in `s` starting at position `i`.
pub open spec fn occurs_at(s: Seq<char>, p: Seq<char>, i: int) -> bool {
    0 <= i && i + p.len() <= s.len() && s.subrange(i, i + p.len()) == p
}

/// `str::contains` with a string pattern.
pub open spec fn contains(s: Seq<char>, p: Seq<char>) -> bool {
    exists|i: int| occurs_at(s, p, i)
}

/// Position after repeatedly removing the non-empty prefix `p` from `s[i..]`.
pub open spec fn strip_from(s: Seq<char>, p: Seq<char>, i: int) -> int
    decreases s.len() - i,
{
    if p.len() > 0 && 0 <= i && occurs_at(s, p, i) {
        strip_from(s, p, i + p.len())
    } else {
        i
    }
}

/// `str::trim_start_matches` with a string pattern.
pub open spec fn strip_all(s: Seq<char>, p: Seq<char>) -> Seq<char> {
    s.skip(strip_from(s, p, 0))
}

pub proof fn lemma_strip_from(s: Seq<char>, p: Seq<char>, i: int)
    requires
        0 <= i <= s.len(),
        p.len() > 0,
    ensures
        i <= strip_from(s, p, i) <= s.len(),
        !occurs_at(s, p, strip_from(s, p, i)),
    decreases s.len() - i,
{
    if occurs_at(s, p, i) {
        lemma_strip_from(s, p, i + p.len());
    }
}

/// Prefix law: once `str::trim_start_matches` has removed a non-empty
/// pattern, the rest no longer begins with it.
pub proof fn law_strip_all_removes_prefix(s: Seq<char>, p: Seq<char>)
    requires
        p.len() > 0,
    ensures
        !starts_with(strip_all(s, p), p),
{
    lemma_strip_from(s, p, 0);
    let r = strip_from(s, p, 0);
    if starts_with(strip_all(s, p), p) {
        assert(s.subrange(r, r + p.len()) =~= s.skip(r).subrange(0, p.len() as int));
    }
}

pub proof fn lemma_skip_ws(s: Seq<char>, i: int)
    requires
        0 <= i <= s.len(),
    ensures
        i <= skip_ws(s, i) <= s.len(),
        forall|k: int| i <= k < skip_ws(s, i) ==> is_ws(#[trigger] s[k]),
        skip_ws(s, i) < s.len() ==> !is_ws(s[skip_ws(s, i)]),
    decreases s.len() - i,
{
    if i < s.len() && is_ws(s[i]) {
        lemma_skip_ws(s, i + 1);
    }
}

pub proof fn lemma_back_ws(s: Seq<char>, lo: int, j: int)
    requires
        0 <= lo <= j <= s.len(),
    ensures
        lo <= back_ws(s, lo, j) <= j,
        forall|k: int| back_ws(s, lo, j) <= k < j ==> is_ws(#[trigger] s[k]),
        back_ws(s, lo, j) > lo ==> !is_ws(s[back_ws(s, lo, j) - 1]),
    decreases j - lo,
{
    if lo < j && is_ws(s[j - 1]) {
        lemma_back_ws(s, lo, j - 1);
    }
}

/// A trimmed sequence neither begins nor ends with whitespace.
pub proof fn lemma_trim_ends(s: Seq<char>)
    ensures
        trim(s).len() > 0 ==> !is_ws(trim(s)[0]) && !is_ws(trim(s).last()),
        trim(s).len() <= s.len(),
{
    lemma_skip_ws(s, 0);
    let a = skip_ws(s, 0);
    lemma_back_ws(s, a, s.len() as int);
}

/// Trimming a sequence that neither begins nor ends with whitespace leaves it as it is.
pub proof fn lemma_trim_noop(s: Seq<char>)
    requires
        s.len() > 0,
        !is_ws(s[0]),
        !is_ws(s.last()),
    ensures
        trim(s) == s,
{
    assert(skip_ws(s, 0) == 0);
    assert(back_ws(s, 0, s.len() as int) == s.len());
    assert(s.subrange(0, s.len() as int) =~= s);
}

pub fn whitespace_end(s: &Vec<char>, i: usize) -> (r: usize)
    requires
        i <= s@.len(),
    ensures
        r == skip_ws(s@, i as int),
        i <= r <= s@.len(),
{
    proof {
        lemma_skip_ws(s@, i as int);
    }
    let mut k = i;
    while k < s.len() && is_whitespace(s[k])
        invariant
            i <= k <= s@.len(),
            skip_ws(s@, k as int) == skip_ws(s@, i as int),
        decreases s@.len() - k,
    {
        k = k + 1;
    }
    k
}

/// Copy of `s[a..b]`.
pub fn slice_of(s: &Vec<char>, a: usize, b: usize) -> (r: Vec<char>)
    requires
        a <= b <= s@.len(),
    ensures
        r@ == s@.subrange(a as int, b as int),
{
    let mut r: Vec<char> = Vec::new();
    let mut k = a;
    while k < b
        invariant
            a <= k <= b <= s@.len(),
            r@ == s@.subrange(a as int, k as int),
        decreases b - k,
    {
        r.push(s[k]);
        k = k + 1;
        assert(r@ =~= s@.subrange(a as int, k as int));
    }
    r
}

/// `str::trim` on a character vector.
pub fn trim_chars(s: &Vec<char>) -> (r: Vec<char>)
    ensures
        r@ == trim(s@),
{
    let a = whitespace_end(s, 0);
    let mut b = s.len();
    proof {
        lemma_back_ws(s@, a as int, b as int);
    }
    while b > a && is_whitespace(s[b - 1])
        invariant
            a <= b <= s@.len(),
            back_ws(s@, a as int, b as int) == back_ws(s@, a as int, s@.len() as int),
        decreases b,
    {
        b = b - 1;
    }
    slice_of(s, a, b)
}

/// `s[i..]` begins with `p`.
pub fn occurs_at_exec(s: &Vec<char>, p: &Vec<char>, i: usize) -> (r: bool)
    requires
        i <= s@.len(),
    ensures
        r == occurs_at(s@, p@, i as int),
{
    if p.len() > s.len() - i {
        return false;
    }
    let mut k: usize = 0;
    while k < p.len()
        invariant
            i + p@.len() <= s@.len(),
            s@.len() == s.len(),
            k <= p@.len(),
            forall|t: int| 0 <= t < k ==> s@[i + t] == p@[t],
        decreases p@.len() - k,
    {
        if s[i + k] != p[k] {
            assert(s@.subrange(i as int, i + p@.len())[k as int] != p@[k as int]);
            return false;
        }
        k = k + 1;
    }
    assert(s@.subrange(i as int, i + p@.len()) =~= p@);
    true
}

pub fn starts_with_exec(s: &Vec<char>, p: &Vec<char>) -> (r: bool)
    ensures
        r == starts_with(s@, p@),
{
    occurs_at_exec(s, p, 0)
}

pub fn ends_with_exec(s: &Vec<char>, p: &Vec<char>) -> (r: bool)
    ensures
        r == ends_with(s@, p@),
{
    if p.len() > s.len() {
        false
    } else {
        occurs_at_exec(s, p, s.len() - p.len())
    }
}

/// `str::contains` on character vectors.
pub fn contains_exec(s: &Vec<char>, p: &Vec<char>) -> (r: bool)
    ensures
        r == contains(s@, p@),
{
    let mut i: usize = 0;
    while i < s.len()
        invariant
            i <= s@.len(),
            forall|t: int| 0 <= t < i ==> !occurs_at(s@, p@, t),
        decreases s@.len() - i,
    {
        if occurs_at_exec(s, p, i) {
            return true;
        }
        i = i + 1;
    }
    let last = occurs_at_exec(s, p, s.len());
    assert(last || forall|t: int| !occurs_at(s@, p@, t)) by {
        assert forall|t: int| !last implies !occurs_at(s@, p@, t) by {
            if 0 <= t < i {
            }
        }
    }
    last
}

/// `str::trim_start_matches` with a non-empty string pattern.
pub fn strip_all_exec(s: &Vec<char>, p: &Vec<char>) -> (r: Vec<char>)
    ensures
        r@ == strip_all(s@, p@),
{
    let mut i: usize = 0;
    if p.len() > 0 {
        while i <= s.len() && occurs_at_exec(s, p, i)
            invariant
                p@.len() > 0,
                i <= s@.len(),
                strip_from(s@, p@, i as int) == strip_from(s@, p@, 0),
            decreases s@.len() - i,
        {
            i = i + p.len();
        }
    }
    slice_of(s, i, s.len())
}

/// The character of the decimal digit `d`.
pub open spec fn digit_char(d: nat) -> char {
    (48 + d) as char
}

/// Decimal rendering of `n`, as `Display` writes an unsigned integer.
pub open spec fn decimal(n: nat) -> Seq<char>
    decreases n,
{
    if n < 10 {
        seq![digit_char(n)]
    } else {
        decimal(n / 10).push(digit_char(n % 10))
    }
}

/// A hexadecimal digit, upper or lower case.
pub open spec fn hex_char(d: nat, upper: bool) -> char {
    if d < 10 {
        (48 + d) as char
    } else if upper {
        (55 + d) as char
    } else {
        (87 + d) as char
    }
}

/// Decimal rendering of a `u64`.
pub fn decimal_chars(n: u64) -> (r: Vec<char>)
    ensures
        r@ == decimal(n as nat),
    decreases n,
{
    let d = (n % 10) as u8;
    let c = (48u8 + d) as char;
    if n < 10 {
        let mut r: Vec<char> = Vec::new();
        r.push(c);
        r
    } else {
        let mut r = decimal_chars(n / 10);
        r.push(c);
        r
    }
}

/// Equality of two character vectors.
pub fn eq_chars(a: &Vec<char>, b: &Vec<char>) -> (r: bool)
    ensures
        r == (a@ == b@),
{
    if a.len() != b.len() {
        return false;
    }
    let r = occurs_at_exec(a, b, 0);
    proof {
        if r {
            assert(a@.subrange(0, b@.len() as int) =~= a@);
        } else {
            assert(a@.subrange(0, b@.len() as int) =~= a@);
        }
    }
    r
}

/// Views of a sequence of character vectors.
pub open spec fn chars_views(v: Seq<Vec<char>>) -> Seq<Seq<char>> {
    v.map_values(|x: Vec<char>| x@)
}

/// Position of the first `c` at or after `i`, or the length of `s`.
pub open spec fn find_from(s: Seq<char>, c: char, i: int) -> int
    decreases s.len() - i,
{
    if 0 <= i < s.len() && s[i] != c {
        find_from(s, c, i + 1)
    } else {
        i
    }
}

pub proof fn lemma_find_from(s: Seq<char>, c: char, i: int)
    requires
        0 <= i <= s.len(),
    ensures
        i <= find_from(s, c, i) <= s.len(),
        find_from(s, c, i) < s.len() ==> s[find_from(s, c, i)] == c,
    decreases s.len() - i,
{
    if i < s.len() && s[i] != c {
        lemma_find_from(s, c, i + 1);
    }
}

pub fn find_exec(s: &Vec<char>, c: char, i: usize) -> (r: usize)
    requires
        i <= s@.len(),
    ensures
        r == find_from(s@, c, i as int),
        i <= r <= s@.len(),
{
    proof {
        lemma_find_from(s@, c, i as int);
    }
    let mut k = i;
    while k < s.len() && s[k] != c
        invariant
            i <= k <= s@.len(),
            find_from(s@, c, k as int) == find_from(s@, c, i as int),
        decreases s@.len() - k,
    {
        k = k + 1;
    }
    k
}

/// The pieces of `s[i..]` between occurrences of `c` (`str::split` with a char).
pub open spec fn split_from(s: Seq<char>, c: char, i: int) -> Seq<Seq<char>>
    decreases s.len() + 1 - i,
{
    if 0 <= i <= s.len() {
        let n = find_from(s, c, i);
        if i <= n < s.len() {
            seq![s.subrange(i, n)] + split_from(s, c, n + 1)
        } else {
            seq![s.subrange(i, s.len() as int)]
        }
    } else {
        Seq::empty()
    }
}

/// `str::split` with a char pattern.
pub open spec fn split(s: Seq<char>, c: char) -> Seq<Seq<char>> {
    split_from(s, c, 0)
}

/// `str::split` with a char pattern, on a character vector.
pub fn split_exec(s: &Vec<char>, c: char) -> (r: Vec<Vec<char>>)
    ensures
        chars_views(r@) == split(s@, c),
{
    let mut r: Vec<Vec<char>> = Vec::new();
    let mut i: usize = 0;
    loop
        invariant
            i <= s@.len(),
            chars_views(r@) + split_from(s@, c, i as int) == split(s@, c),
        decreases s@.len() - i,
    {
        let ghost before = chars_views(r@);
        let n = find_exec(s, c, i);
        let piece = slice_of(s, i, n);
        r.push(piece);
        assert(chars_views(r@) =~= before.push(piece@));
        if n < s.len() {
            assert(before.push(piece@) + split_from(s@, c, n + 1) =~= before + (seq![piece@]
                + split_from(s@, c, n + 1)));
            i = n + 1;
        } else {
            assert(before.push(piece@) =~= before + seq![piece@]);
            return r;
        }
    }
}

/// `s[i..n]` with one final `\r` removed: a line of `str::lines` that ended in a newline.
pub open spec fn strip_cr(line: Seq<char>) -> Seq<char> {
    if line.len() > 0 && line.last() == '\r' {
        line.drop_last()
    } else {
        line
    }
}

/// The lines of `s[i..]`, as `str::lines` yields them: split at `\n`, a
/// `\r` right before a `\n` dropped, no empty line after a final `\n`.
pub open spec fn lines_from(s: Seq<char>, i: int) -> Seq<Seq<char>>
    decreases s.len() - i,
{
    if 0 <= i < s.len() {
        let n = find_from(s, '\n', i);
        if i <= n < s.len() {
            seq![strip_cr(s.subrange(i, n))] + lines_from(s, n + 1)
        } else {
            seq![s.subrange(i, s.len() as int)]
        }
    } else {
        Seq::empty()
    }
}

/// `str::lines`.
pub open spec fn lines(s: Seq<char>) -> Seq<Seq<char>> {
    lines_from(s, 0)
}

/// `str::lines`, on a character vector.
pub fn lines_exec(s: &Vec<char>) -> (r: Vec<Vec<char>>)
    ensures
        chars_views(r@) == lines(s@),
{
    let mut r: Vec<Vec<char>> = Vec::new();
    let mut i: usize = 0;
    while i < s.len()
        invariant
            i <= s@.len(),
            chars_views(r@) + lines_from(s@, i as int) == lines(s@),
        decreases s@.len() - i,
    {
        let ghost before = chars_views(r@);
        let n = find_exec(s, '\n', i);
        if n < s.len() {
            let mut e = n;
            if e > i && s[e - 1] == '\r' {
                e = e - 1;
            }
            let line = slice_of(s, i, e);
            assert(line@ == strip_cr(s@.subrange(i as int, n as int))) by {
                if n > i && s@[n - 1] == '\r' {
                    assert(s@.subrange(i as int, n as int).drop_last() =~= line@);
                }
            }
            r.push(line);
            assert(chars_views(r@) =~= before.push(line@));
            assert(before.push(line@) + lines_from(s@, n + 1) =~= before + (seq![line@]
                + lines_from(s@, n + 1)));
            i = n + 1;
        } else {
            let line = slice_of(s, i, n);
            r.push(line);
            assert(chars_views(r@) =~= before.push(line@));
            assert(lines_from(s@, n as int) =~= Seq::<Seq<char>>::empty());
            assert(before.push(line@) =~= before + seq![line@]);
            i = n;
        }
    }
    assert(lines_from(s@, i as int) =~= Seq::<Seq<char>>::empty());
    assert(chars_views(r@) + Seq::<Seq<char>>::empty() =~= chars_views(r@));
    r
}

/// The characters of a string slice.
pub fn chars_of(s: &str) -> (v: Vec<char>)
    ensures
        v@ == s@,
{
    let mut v: Vec<char> = Vec::new();
    for c in it: s.chars()
        invariant
            v@ == it.seq().take(it.index()),
            it.seq() == s@,
    {
        v.push(c);
    }
    v
}

/// `String` from characters (`FromIterator<char>` of std).
#[verifier::external_body]
pub fn string_of(v: &Vec<char>) -> (s: String)
    ensures
        s@ == v@,
{
    v.iter().collect()
}

} // verus!
