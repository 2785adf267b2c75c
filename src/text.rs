//! Byte-string primitives shared by the manifest pipeline.
use vstd::prelude::*;

verus! {

/// `needle` occurs in `hay` at byte offset `i`.
pub open spec fn occurs_at(hay: Seq<u8>, needle: Seq<u8>, i: int) -> bool {
    0 <= i && i + needle.len() <= hay.len() && hay.subrange(i, i + needle.len()) == needle
}

/// `needle` occurs somewhere in `hay`.
pub open spec fn has_substring(hay: Seq<u8>, needle: Seq<u8>) -> bool {
    exists|i: int| #[trigger] occurs_at(hay, needle, i)
}

pub open spec fn has_prefix(hay: Seq<u8>, prefix: Seq<u8>) -> bool {
    prefix.len() <= hay.len() && hay.subrange(0, prefix.len() as int) == prefix
}

pub open spec fn has_suffix(hay: Seq<u8>, suffix: Seq<u8>) -> bool {
    suffix.len() <= hay.len() && hay.subrange(hay.len() - suffix.len(), hay.len() as int) == suffix
}

/// The pieces of `text` between non-overlapping, leftmost occurrences of `sep`,
/// scanning from `pos` with the current piece starting at `start`.
pub open spec fn split_scan(text: Seq<u8>, sep: Seq<u8>, start: int, pos: int) -> Seq<Seq<u8>>
    decreases text.len() - pos,
{
    if pos < 0 || pos >= text.len() || pos + sep.len() > text.len() || sep.len() == 0 {
        seq![text.subrange(start, text.len() as int)]
    } else if occurs_at(text, sep, pos) {
        seq![text.subrange(start, pos)] + split_scan(text, sep, pos + sep.len(), pos + sep.len())
    } else {
        split_scan(text, sep, start, pos + 1)
    }
}

/// The pieces of `text` separated by `sep`, as `str::split` yields them.
pub open spec fn split_on(text: Seq<u8>, sep: Seq<u8>) -> Seq<Seq<u8>> {
    split_scan(text, sep, 0, 0)
}

/// The views of a sequence of byte vectors.
pub open spec fn views(v: Seq<Vec<u8>>) -> Seq<Seq<u8>> {
    v.map_values(|x: Vec<u8>| x@)
}

/// The bytes of an ASCII text.
pub open spec fn ascii(s: Seq<char>) -> Seq<u8> {
    Seq::new(s.len(), |i: int| s[i] as u8)
}

/// The bytes of an ASCII string literal.
pub fn lit(s: &str) -> (r: &[u8])
    requires
        s.is_ascii(),
    ensures
        r@ == ascii(s@),
{
    broadcast use vstd::string::is_ascii_spec_bytes;
    s.as_bytes()
}

/// The views of a sequence of strings.
pub open spec fn string_views(v: Seq<String>) -> Seq<Seq<char>> {
    v.map_values(|s: String| s@)
}

/// ASCII whitespace, as `u8::is_ascii_whitespace` defines it.
pub open spec fn is_space(b: u8) -> bool {
    b == 0x20 || b == 0x09 || b == 0x0a || b == 0x0c || b == 0x0d
}

/// Every byte is ASCII whitespace.
pub open spec fn is_blank(s: Seq<u8>) -> bool {
    forall|i: int| 0 <= i < s.len() ==> is_space(#[trigger] s[i])
}

/// The length of the UTF-8 encoded Unicode white-space character that ends
/// `s`, or 0: U+0009 to U+000D, U+0020, U+0085, U+00A0, U+1680, U+2000 to
/// U+200A, U+2028, U+2029, U+202F, U+205F and U+3000.
pub open spec fn white_space_suffix(s: Seq<u8>) -> int {
    let n = s.len() as int;
    if n >= 1 && (s[n - 1] == 0x20 || (0x09 <= s[n - 1] && s[n - 1] <= 0x0d)) {
        1
    } else if n >= 2 && s[n - 2] == 0xc2 && (s[n - 1] == 0x85 || s[n - 1] == 0xa0) {
        2
    } else if n >= 3 && ((s[n - 3] == 0xe1 && s[n - 2] == 0x9a && s[n - 1] == 0x80) || (s[n - 3]
        == 0xe2 && s[n - 2] == 0x80 && ((0x80 <= s[n - 1] && s[n - 1] <= 0x8a) || s[n - 1] == 0xa8
        || s[n - 1] == 0xa9 || s[n - 1] == 0xaf)) || (s[n - 3] == 0xe2 && s[n - 2] == 0x81 && s[n
        - 1] == 0x9f) || (s[n - 3] == 0xe3 && s[n - 2] == 0x80 && s[n - 1] == 0x80)) {
        3
    } else {
        0
    }
}

/// `s` without its trailing Unicode white space, as `str::trim_end` removes it.
pub open spec fn trim_end(s: Seq<u8>) -> Seq<u8>
    decreases s.len(),
{
    let k = white_space_suffix(s);
    if k > 0 {
        trim_end(s.subrange(0, s.len() - k))
    } else {
        s
    }
}

/// Decimal digits of `n`, most significant first.
pub open spec fn decimal(n: nat) -> Seq<u8>
    decreases n,
{
    if n < 10 {
        seq![(48 + n) as u8]
    } else {
        decimal(n / 10).push((48 + n % 10) as u8)
    }
}

pub fn push_all(out: &mut Vec<u8>, s: &[u8])
    ensures
        final(out)@ == old(out)@ + s@,
{
    let mut i: usize = 0;
    while i < s.len()
        invariant
            i <= s.len(),
            out@ == old(out)@ + s@.subrange(0, i as int),
        decreases s.len() - i,
    {
        out.push(s[i]);
        i = i + 1;
        assert(s@.subrange(0, i as int) == s@.subrange(0, i - 1).push(s@[i - 1]));
    }
    assert(s@.subrange(0, s.len() as int) == s@);
}

pub fn push_decimal(out: &mut Vec<u8>, n: usize)
    ensures
        final(out)@ == old(out)@ + decimal(n as nat),
    decreases n,
{
    if n >= 10 {
        push_decimal(out, n / 10);
    }
    out.push((48 + n % 10) as u8);
    assert(n < 10 ==> n % 10 == n);
}

pub fn occurs_at_exec(hay: &[u8], needle: &[u8], i: usize) -> (r: bool)
    ensures
        r == occurs_at(hay@, needle@, i as int),
{
    if needle.len() > hay.len() || i > hay.len() - needle.len() {
        return false;
    }
    let mut k: usize = 0;
    while k < needle.len()
        invariant
            k <= needle.len(),
            i + needle.len() <= hay.len(),
            forall|j: int| 0 <= j < k ==> hay@[i + j] == needle@[j],
        decreases needle.len() - k,
    {
        if hay[i + k] != needle[k] {
            assert(hay@.subrange(i as int, i + needle.len())[k as int] != needle@[k as int]);
            return false;
        }
        k = k + 1;
    }
    assert(hay@.subrange(i as int, i + needle.len()) =~= needle@);
    true
}

pub fn has_substring_exec(hay: &[u8], needle: &[u8]) -> (r: bool)
    ensures
        r == has_substring(hay@, needle@),
{
    let mut i: usize = 0;
    while i < hay.len()
        invariant
            i <= hay.len(),
            forall|j: int| 0 <= j < i ==> !occurs_at(hay@, needle@, j),
        decreases hay.len() - i,
    {
        if occurs_at_exec(hay, needle, i) {
            return true;
        }
        i = i + 1;
    }
    if occurs_at_exec(hay, needle, i) {
        return true;
    }
    assert forall|j: int| !occurs_at(hay@, needle@, j) by {
        if occurs_at(hay@, needle@, j) {
            assert(j <= hay.len());
        }
    }
    false
}

pub fn has_prefix_exec(hay: &[u8], prefix: &[u8]) -> (r: bool)
    ensures
        r == has_prefix(hay@, prefix@),
{
    let r = occurs_at_exec(hay, prefix, 0);
    r
}

/// A copy of `s[from..to]`.
pub fn copy_range(s: &[u8], from: usize, to: usize) -> (r: Vec<u8>)
    requires
        from <= to <= s@.len(),
    ensures
        r@ == s@.subrange(from as int, to as int),
{
    let mut r: Vec<u8> = Vec::new();
    let mut i: usize = from;
    while i < to
        invariant
            from <= i <= to <= s@.len(),
            r@ == s@.subrange(from as int, i as int),
        decreases to - i,
    {
        r.push(s[i]);
        i = i + 1;
        assert(s@.subrange(from as int, i as int) == s@.subrange(from as int, i - 1).push(s@[i - 1]));
    }
    r
}

/// The pieces of `text` between occurrences of `sep`.
pub fn split_bytes(text: &[u8], sep: &[u8]) -> (r: Vec<Vec<u8>>)
    ensures
        views(r@) == split_on(text@, sep@),
{
    let mut pieces: Vec<Vec<u8>> = Vec::new();
    let mut start: usize = 0;
    let mut pos: usize = 0;
    while pos < text.len() && sep.len() > 0 && sep.len() <= text.len() - pos
        invariant
            start <= pos <= text@.len(),
            views(pieces@) + split_scan(text@, sep@, start as int, pos as int) == split_on(
                text@,
                sep@,
            ),
        decreases text@.len() - pos,
    {
        if occurs_at_exec(text, sep, pos) {
            let ghost start0 = start as int;
            let ghost pos0 = pos as int;
            let piece = copy_range(text, start, pos);
            let ghost before = pieces@;
            pieces.push(piece);
            assert(views(pieces@) == views(before).push(piece@));
            pos = pos + sep.len();
            start = pos;
            assert(split_scan(text@, sep@, start0, pos0) == seq![text@.subrange(start0, pos0)] + split_scan(
                text@,
                sep@,
                start as int,
                pos as int,
            ));
            assert(views(before) + split_scan(text@, sep@, start0, pos0) =~= views(pieces@) + split_scan(
                text@,
                sep@,
                start as int,
                pos as int,
            ));
        } else {
            pos = pos + 1;
        }
    }
    let last = copy_range(text, start, text.len());
    let ghost before = pieces@;
    pieces.push(last);
    assert(views(pieces@) == views(before).push(last@));
    assert(views(pieces@) =~= views(before) + split_scan(text@, sep@, start as int, pos as int));
    pieces
}

/// The length of `s` without its trailing ASCII whitespace.
pub fn trim_end_len(s: &[u8]) -> (r: usize)
    ensures
        r <= s@.len(),
        trim_end(s@) == s@.subrange(0, r as int),
{
    let mut n: usize = s.len();
    assert(s@.subrange(0, n as int) == s@);
    loop
        invariant
            n <= s@.len(),
            trim_end(s@) == trim_end(s@.subrange(0, n as int)),
        decreases n,
    {
        let k = white_space_suffix_exec(s, n);
        if k == 0 {
            return n;
        }
        assert(s@.subrange(0, n as int).subrange(0, n - k) == s@.subrange(0, n - k));
        n = n - k;
    }
}

/// The length of the white-space character that ends `s[..n]`, or 0.
fn white_space_suffix_exec(s: &[u8], n: usize) -> (r: usize)
    requires
        n <= s@.len(),
    ensures
        r == white_space_suffix(s@.subrange(0, n as int)),
        r <= n,
{
    let ghost t = s@.subrange(0, n as int);
    assert(forall|i: int| 0 <= i < n ==> t[i] == s@[i]);
    if n >= 1 && (s[n - 1] == 0x20 || (0x09 <= s[n - 1] && s[n - 1] <= 0x0d)) {
        return 1;
    }
    if n >= 2 && s[n - 2] == 0xc2 && (s[n - 1] == 0x85 || s[n - 1] == 0xa0) {
        return 2;
    }
    if n >= 3 {
        let (a, b, c) = (s[n - 3], s[n - 2], s[n - 1]);
        if (a == 0xe1 && b == 0x9a && c == 0x80) || (a == 0xe2 && b == 0x80 && ((0x80 <= c && c
            <= 0x8a) || c == 0xa8 || c == 0xa9 || c == 0xaf)) || (a == 0xe2 && b == 0x81 && c
            == 0x9f) || (a == 0xe3 && b == 0x80 && c == 0x80) {
            return 3;
        }
    }
    0
}

pub fn is_blank_exec(s: &[u8]) -> (r: bool)
    ensures
        r == is_blank(s@),
{
    let mut i: usize = 0;
    while i < s.len()
        invariant
            i <= s.len(),
            forall|j: int| 0 <= j < i ==> is_space(#[trigger] s@[j]),
        decreases s.len() - i,
    {
        let b = s[i];
        if !(b == 0x20 || b == 0x09 || b == 0x0a || b == 0x0c || b == 0x0d) {
            return false;
        }
        i = i + 1;
    }
    true
}

} // verus!
