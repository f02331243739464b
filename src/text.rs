//! Conversions between strings and character vectors.

use vstd::prelude::*;
use vstd::utf8::{char_is_scalar, encode_scalar, encode_utf8};

verus! {

/// The number of bytes of the UTF-8 encoding of `c`.
pub open spec fn utf8_len(c: char) -> nat {
    if (c as u32) < 0x80 {
        1
    } else if (c as u32) < 0x800 {
        2
    } else if (c as u32) < 0x10000 {
        3
    } else {
        4
    }
}

/// The number of bytes of the UTF-8 encoding of `s`.
pub open spec fn byte_len(s: Seq<char>) -> nat
    decreases s.len(),
{
    if s.len() == 0 {
        0
    } else {
        utf8_len(s[0]) + byte_len(s.drop_first())
    }
}

/// The byte offset at which the character `s[i]` starts.
pub open spec fn byte_pos(s: Seq<char>, i: int) -> nat {
    byte_len(s.subrange(0, i))
}

/// The number of characters of `s` that start before the byte offset `b`, from `k` on.
pub open spec fn char_index_from(s: Seq<char>, b: nat, k: nat) -> nat
    decreases s.len() - k,
{
    if k < s.len() && byte_pos(s, k as int) < b {
        char_index_from(s, b, k + 1)
    } else {
        k
    }
}

/// The index of the character that starts at byte offset `b` (or the end of the text).
pub open spec fn char_index(s: Seq<char>, b: nat) -> nat {
    char_index_from(s, b, 0)
}

proof fn lemma_utf8_len_encode(c: char)
    ensures
        encode_scalar(c as u32).len() == utf8_len(c),
{
    char_is_scalar(c);
}

pub proof fn lemma_byte_len_encode(s: Seq<char>)
    ensures
        byte_len(s) == encode_utf8(s).len(),
    decreases s.len(),
{
    if s.len() > 0 {
        lemma_utf8_len_encode(s[0]);
        lemma_byte_len_encode(s.drop_first());
    }
}

pub proof fn lemma_byte_len_concat(a: Seq<char>, b: Seq<char>)
    ensures
        byte_len(a + b) == byte_len(a) + byte_len(b),
    decreases a.len(),
{
    if a.len() == 0 {
        assert(a + b =~= b);
    } else {
        assert((a + b).drop_first() =~= a.drop_first() + b);
        assert((a + b)[0] == a[0]);
        lemma_byte_len_concat(a.drop_first(), b);
    }
}

/// Each character adds its own width to the byte offset.
pub proof fn lemma_byte_pos_step(s: Seq<char>, i: int)
    requires
        0 <= i < s.len(),
    ensures
        byte_pos(s, i + 1) == byte_pos(s, i) + utf8_len(s[i]),
{
    assert(s.subrange(0, i + 1) =~= s.subrange(0, i) + seq![s[i]]);
    lemma_byte_len_concat(s.subrange(0, i), seq![s[i]]);
    assert(seq![s[i]].drop_first() =~= Seq::<char>::empty());
    assert(byte_len(seq![s[i]]) == utf8_len(s[i]) + byte_len(Seq::<char>::empty()));
}

/// Byte offsets grow by at least one per character, up to the length of the text.
pub proof fn lemma_byte_pos_mono(s: Seq<char>, i: int, j: int)
    requires
        0 <= i <= j <= s.len(),
    ensures
        byte_pos(s, i) + (j - i) <= byte_pos(s, j) <= byte_len(s),
    decreases j - i,
{
    if i < j {
        lemma_byte_pos_mono(s, i, j - 1);
        lemma_byte_pos_step(s, j - 1);
    }
    assert(s =~= s.subrange(0, j) + s.subrange(j, s.len() as int));
    lemma_byte_len_concat(s.subrange(0, j), s.subrange(j, s.len() as int));
}

/// A suffix of a text has no more bytes than the text.
pub proof fn lemma_byte_len_suffix(s: Seq<char>, i: int)
    requires
        0 <= i <= s.len(),
    ensures
        byte_len(s.subrange(i, s.len() as int)) <= byte_len(s),
{
    assert(s =~= s.subrange(0, i) + s.subrange(i, s.len() as int));
    lemma_byte_len_concat(s.subrange(0, i), s.subrange(i, s.len() as int));
}

proof fn lemma_char_index_from(s: Seq<char>, i: int, k: nat)
    requires
        0 <= k <= i <= s.len(),
    ensures
        char_index_from(s, byte_pos(s, i), k) == i,
    decreases i - k,
{
    if k < i {
        lemma_byte_pos_mono(s, k as int, i);
        lemma_char_index_from(s, i, k + 1);
    }
}

/// The character that starts at the byte offset of character `i` is character `i`.
pub proof fn lemma_char_index_of_byte_pos(s: Seq<char>, i: int)
    requires
        0 <= i <= s.len(),
    ensures
        char_index(s, byte_pos(s, i)) == i,
{
    lemma_char_index_from(s, i, 0);
}

/// `~` and `)` take one byte each.
pub proof fn lemma_marks_width()
    ensures
        utf8_len('~') == 1,
        utf8_len(')') == 1,
{
    assert(('~' as u32) == 126u32);
    assert((')' as u32) == 41u32);
}

/// The number of bytes of the UTF-8 encoding of `c`.
pub fn char_width(c: char) -> (r: usize)
    ensures
        r == utf8_len(c),
{
    let u = c as u32;
    if u < 0x80 {
        1
    } else if u < 0x800 {
        2
    } else if u < 0x10000 {
        3
    } else {
        4
    }
}

/// The byte offset of character `e`, from that of character `i`.
pub fn advance_bytes(s: &Vec<char>, i: usize, b: usize, e: usize) -> (r: usize)
    requires
        i <= e <= s@.len(),
        b == byte_pos(s@, i as int),
        byte_len(s@) <= usize::MAX,
    ensures
        r == byte_pos(s@, e as int),
{
    let mut k = i;
    let mut pos = b;
    while k < e
        invariant
            i <= k <= e <= s@.len(),
            pos == byte_pos(s@, k as int),
            byte_len(s@) <= usize::MAX,
        decreases e - k,
    {
        proof {
            lemma_byte_pos_step(s@, k as int);
            lemma_byte_pos_mono(s@, k + 1, s@.len() as int);
        }
        pos = pos + char_width(s[k]);
        k += 1;
    }
    pos
}

/// The index of the character that starts at byte offset `b`.
pub fn char_index_of(s: &Vec<char>, b: usize) -> (r: usize)
    requires
        byte_len(s@) <= usize::MAX,
    ensures
        r == char_index(s@, b as nat),
        r <= s@.len(),
{
    let mut k: usize = 0;
    let mut pos: usize = 0;
    assert(s@.subrange(0, 0) =~= Seq::<char>::empty());
    while k < s.len() && pos < b
        invariant
            k <= s@.len(),
            pos == byte_pos(s@, k as int),
            byte_len(s@) <= usize::MAX,
            char_index_from(s@, b as nat, k as nat) == char_index(s@, b as nat),
        decreases s@.len() - k,
    {
        proof {
            lemma_byte_pos_step(s@, k as int);
            lemma_byte_pos_mono(s@, k + 1, s@.len() as int);
        }
        pos = pos + char_width(s[k]);
        k += 1;
    }
    k
}

/// The number of bytes of `s`.
pub fn byte_count(s: &str) -> (r: usize)
    ensures
        r == byte_len(s@),
{
    proof {
        lemma_byte_len_encode(s@);
    }
    s.as_bytes().len()
}

/// Unicode's `White_Space` characters.
pub open spec fn is_whitespace(c: char) -> bool {
    ||| '\t' <= c <= '\r'
    ||| c == ' '
    ||| c == '\u{85}'
    ||| c == '\u{a0}'
    ||| c == '\u{1680}'
    ||| '\u{2000}' <= c <= '\u{200a}'
    ||| c == '\u{2028}'
    ||| c == '\u{2029}'
    ||| c == '\u{202f}'
    ||| c == '\u{205f}'
    ||| c == '\u{3000}'
}

pub fn is_whitespace_char(c: char) -> (r: bool)
    ensures
        r == is_whitespace(c),
{
    ('\t' <= c && c <= '\r') || c == ' ' || c == '\u{85}' || c == '\u{a0}' || c == '\u{1680}' || (
    '\u{2000}' <= c && c <= '\u{200a}') || c == '\u{2028}' || c == '\u{2029}' || c == '\u{202f}'
        || c == '\u{205f}' || c == '\u{3000}'
}

/// The index of the first character of `s` at or after `i` that is not whitespace.
pub open spec fn trim_start(s: Seq<char>, i: nat) -> nat
    decreases s.len() - i,
{
    if i < s.len() && is_whitespace(s[i as int]) {
        trim_start(s, i + 1)
    } else {
        i
    }
}

/// The end of `s[lo..j]` once trailing whitespace is taken off.
pub open spec fn trim_end(s: Seq<char>, lo: nat, j: nat) -> nat
    decreases j,
{
    if lo < j && j <= s.len() && is_whitespace(s[j - 1]) {
        trim_end(s, lo, (j - 1) as nat)
    } else {
        j
    }
}

/// `s` without leading and trailing whitespace.
pub open spec fn trimmed(s: Seq<char>) -> Seq<char> {
    let lo = trim_start(s, 0);
    s.subrange(lo as int, trim_end(s, lo, s.len()) as int)
}

/// `s` without leading and trailing whitespace.
pub fn trim_string(s: &String) -> (r: String)
    ensures
        r@ == trimmed(s@),
{
    let c = chars_of(s.as_str());
    let mut lo: usize = 0;
    while lo < c.len() && is_whitespace_char(c[lo])
        invariant
            lo <= c@.len(),
            trim_start(c@, lo as nat) == trim_start(c@, 0),
        decreases c@.len() - lo,
    {
        lo += 1;
    }
    let mut hi: usize = c.len();
    while lo < hi && is_whitespace_char(c[hi - 1])
        invariant
            lo <= hi <= c@.len(),
            trim_end(c@, lo as nat, hi as nat) == trim_end(c@, lo as nat, c@.len()),
        decreases hi,
    {
        hi -= 1;
    }
    string_of(&c, lo, hi)
}

/// The characters of `s`, in order.
pub fn chars_of(s: &str) -> (r: Vec<char>)
    ensures
        r@ == s@,
        byte_len(r@) <= usize::MAX,
{
    let bytes = s.as_bytes();
    let n = bytes.len();
    proof {
        lemma_byte_len_encode(s@);
    }
    let mut r: Vec<char> = Vec::new();
    for c in it: s.chars()
        invariant
            r@ == it.seq().take(it.index() as int),
            it.seq() == s@,
    {
        r.push(c);
    }
    r
}

/// Relies on `String::push`, which appends one character to the string.
#[verifier::external_body]
pub fn push_char(s: &mut String, c: char)
    ensures
        final(s)@ == old(s)@.push(c),
{
    s.push(c);
}

/// The characters `s[lo..hi]` as a string.
pub fn string_of(s: &Vec<char>, lo: usize, hi: usize) -> (r: String)
    requires
        lo <= hi <= s@.len(),
    ensures
        r@ == s@.subrange(lo as int, hi as int),
{
    let mut r = String::new();
    let mut i = lo;
    while i < hi
        invariant
            lo <= i <= hi <= s@.len(),
            r@ == s@.subrange(lo as int, i as int),
        decreases hi - i,
    {
        push_char(&mut r, s[i]);
        i += 1;
        assert(r@ =~= s@.subrange(lo as int, i as int));
    }
    r
}

/// All of `v` as a string.
pub fn string_from(v: &Vec<char>) -> (r: String)
    ensures
        r@ == v@,
{
    let r = string_of(v, 0, v.len());
    assert(v@.subrange(0, v@.len() as int) =~= v@);
    r
}

/// Appends the characters `b[lo..hi]` to `a`.
pub fn concat_chars(a: &mut Vec<char>, b: &Vec<char>, lo: usize, hi: usize)
    requires
        lo <= hi <= b@.len(),
    ensures
        final(a)@ == old(a)@ + b@.subrange(lo as int, hi as int),
{
    let mut i = lo;
    while i < hi
        invariant
            lo <= i <= hi <= b@.len(),
            a@ == old(a)@ + b@.subrange(lo as int, i as int),
        decreases hi - i,
    {
        a.push(b[i]);
        i += 1;
        assert(a@ =~= old(a)@ + b@.subrange(lo as int, i as int));
    }
}

} // verus!
