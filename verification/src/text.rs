//! Character-level text helpers: conversion between strings and character
//! vectors, Unicode whitespace trimming and UTF-8 byte offsets.

use vstd::prelude::*;
use vstd::std_specs::iter::IteratorSpec;

verus! {

broadcast use vstd::string::group_string_axioms;

// ---------------------------------------------------------------------------
// Strings and character vectors
// ---------------------------------------------------------------------------

/// The characters of `s`, in order.
pub fn chars_of(s: &str) -> (v: Vec<char>)
    ensures
        v@ == s@,
{
    let mut v: Vec<char> = Vec::new();
    for c in it: s.chars()
        invariant
            v@ == it.seq().take(it.index() as int),
            it.seq() == s@,
    {
        v.push(c);
    }
    v
}

/// `String::push`: appends one character.
#[verifier::external_body]
pub(crate) fn push_char(s: &mut String, c: char)
    ensures
        final(s)@ == old(s)@.push(c),
{
    s.push(c);
}

/// The string made of the characters of `v`, in order.
pub fn string_from_chars(v: &[char]) -> (s: String)
    ensures
        s@ == v@,
{
    let mut s = String::new();
    let mut i: usize = 0;
    while i < v.len()
        invariant
            i <= v@.len(),
            s@ == v@.take(i as int),
        decreases v@.len() - i,
    {
        push_char(&mut s, v[i]);
        proof {
            assert(v@.take(i + 1) =~= v@.take(i as int).push(v@[i as int]));
        }
        i += 1;
    }
    proof {
        assert(v@.take(v@.len() as int) =~= v@);
    }
    s
}

/// Appends all characters of `src` to `dst`.
pub fn extend_chars(dst: &mut Vec<char>, src: &[char])
    ensures
        final(dst)@ == old(dst)@ + src@,
{
    let mut i: usize = 0;
    while i < src.len()
        invariant
            i <= src@.len(),
            dst@ == old(dst)@ + src@.take(i as int),
        decreases src@.len() - i,
    {
        dst.push(src[i]);
        proof {
            assert(src@.take(i + 1) =~= src@.take(i as int).push(src@[i as int]));
        }
        i += 1;
    }
    proof {
        assert(src@.take(src@.len() as int) =~= src@);
    }
}

/// Appends all characters of the string `src` to `dst`.
pub fn extend_str(dst: &mut Vec<char>, src: &str)
    ensures
        final(dst)@ == old(dst)@ + src@,
{
    let cs = chars_of(src);
    extend_chars(dst, cs.as_slice());
}

/// Whether the character sequences `a` and `b` are equal.
pub fn chars_equal(a: &[char], b: &[char]) -> (r: bool)
    ensures
        r == (a@ == b@),
{
    if a.len() != b.len() {
        return false;
    }
    let mut i: usize = 0;
    while i < a.len()
        invariant
            a@.len() == b@.len(),
            i <= a@.len(),
            forall|k: int| 0 <= k < i ==> a@[k] == b@[k],
        decreases a@.len() - i,
    {
        if a[i] != b[i] {
            return false;
        }
        i += 1;
    }
    proof {
        assert(a@ =~= b@);
    }
    true
}

/// Whether `c` occurs in `s`.
pub fn contains_char(s: &[char], c: char) -> (r: bool)
    ensures
        r == s@.contains(c),
{
    let mut i: usize = 0;
    while i < s.len()
        invariant
            i <= s@.len(),
            forall|k: int| 0 <= k < i ==> s@[k] != c,
        decreases s@.len() - i,
    {
        if s[i] == c {
            proof {
                assert(s@[i as int] == c);
            }
            return true;
        }
        i += 1;
    }
    false
}

// ---------------------------------------------------------------------------
// Unicode whitespace and trimming
// ---------------------------------------------------------------------------

/// The Unicode `White_Space` property: U+0009..U+000D, U+0020, U+0085,
/// U+00A0, U+1680, U+2000..U+200A, U+2028, U+2029, U+202F, U+205F, U+3000.
pub open spec fn is_white_space(c: char) -> bool {
    let u = c as u32;
    ||| 0x09 <= u <= 0x0D
    ||| u == 0x20
    ||| u == 0x85
    ||| u == 0xA0
    ||| u == 0x1680
    ||| 0x2000 <= u <= 0x200A
    ||| u == 0x2028
    ||| u == 0x2029
    ||| u == 0x202F
    ||| u == 0x205F
    ||| u == 0x3000
}

/// Whether `c` has the Unicode `White_Space` property, as
/// `char::is_whitespace` decides.
pub fn char_is_whitespace(c: char) -> (b: bool)
    ensures
        b == is_white_space(c),
{
    let u = c as u32;
    (0x09 <= u && u <= 0x0D) || u == 0x20 || u == 0x85 || u == 0xA0 || u == 0x1680 || (0x2000
        <= u && u <= 0x200A) || u == 0x2028 || u == 0x2029 || u == 0x202F || u == 0x205F || u
        == 0x3000
}

/// `s` without its leading whitespace.
pub open spec fn trim_start_spec(s: Seq<char>) -> Seq<char>
    decreases s.len(),
{
    if s.len() > 0 && is_white_space(s[0]) {
        trim_start_spec(s.drop_first())
    } else {
        s
    }
}

/// `s` without its trailing whitespace.
pub open spec fn trim_end_spec(s: Seq<char>) -> Seq<char>
    decreases s.len(),
{
    if s.len() > 0 && is_white_space(s.last()) {
        trim_end_spec(s.drop_last())
    } else {
        s
    }
}

/// `s` without leading and trailing whitespace.
pub open spec fn trim_spec(s: Seq<char>) -> Seq<char> {
    trim_end_spec(trim_start_spec(s))
}

/// The index of the first character of `v` that is not whitespace (or the
/// length of `v`).
pub fn trim_start_index(v: &[char]) -> (i: usize)
    ensures
        i <= v@.len(),
        v@.subrange(i as int, v@.len() as int) == trim_start_spec(v@),
{
    let n = v.len();
    let mut i: usize = 0;
    proof {
        assert(v@.subrange(0, n as int) =~= v@);
    }
    while i < n && char_is_whitespace(v[i])
        invariant
            n == v@.len(),
            i <= n,
            trim_start_spec(v@) == trim_start_spec(v@.subrange(i as int, n as int)),
        decreases n - i,
    {
        proof {
            let t = v@.subrange(i as int, n as int);
            assert(t.drop_first() =~= v@.subrange(i + 1, n as int));
        }
        i += 1;
    }
    i
}

/// The bounds of `v` with leading and trailing whitespace removed.
pub fn trim_bounds(v: &[char]) -> (r: (usize, usize))
    ensures
        r.0 <= r.1 <= v@.len(),
        v@.subrange(r.0 as int, r.1 as int) == trim_spec(v@),
{
    let n = v.len();
    let i = trim_start_index(v);
    let mut j: usize = n;
    let ghost t = v@.subrange(i as int, n as int);
    proof {
        assert(t =~= v@.subrange(i as int, j as int));
    }
    while j > i && char_is_whitespace(v[j - 1])
        invariant
            n == v@.len(),
            i <= j <= n,
            t == v@.subrange(i as int, n as int),
            trim_end_spec(t) == trim_end_spec(v@.subrange(i as int, j as int)),
        decreases j,
    {
        proof {
            let u = v@.subrange(i as int, j as int);
            assert(u.drop_last() =~= v@.subrange(i as int, j - 1));
        }
        j -= 1;
    }
    (i, j)
}

/// The characters of `s` without leading and trailing whitespace (`str::trim`).
pub fn trim_chars(s: &str) -> (v: Vec<char>)
    ensures
        v@ == trim_spec(s@),
{
    let cs = chars_of(s);
    let (i, j) = trim_bounds(cs.as_slice());
    let mut v: Vec<char> = Vec::new();
    let mut k: usize = i;
    while k < j
        invariant
            i <= k <= j <= cs@.len(),
            v@ == cs@.subrange(i as int, k as int),
        decreases j - k,
    {
        v.push(cs[k]);
        proof {
            assert(cs@.subrange(i as int, k + 1) =~= cs@.subrange(i as int, k as int).push(cs@[k as int]));
        }
        k += 1;
    }
    v
}

/// `str::trim` returned as an owned string.
pub fn trim(s: &str) -> (t: String)
    ensures
        t@ == trim_spec(s@),
{
    let v = trim_chars(s);
    string_from_chars(v.as_slice())
}

/// The characters of `s` without leading whitespace (`str::trim_start`).
pub fn trim_start_chars(s: &[char]) -> (v: Vec<char>)
    ensures
        v@ == trim_start_spec(s@),
{
    let i = trim_start_index(s);
    let mut v: Vec<char> = Vec::new();
    let mut k: usize = i;
    while k < s.len()
        invariant
            i <= k <= s@.len(),
            v@ == s@.subrange(i as int, k as int),
        decreases s@.len() - k,
    {
        v.push(s[k]);
        proof {
            assert(s@.subrange(i as int, k + 1) =~= s@.subrange(i as int, k as int).push(s@[k as int]));
        }
        k += 1;
    }
    v
}

// ---------------------------------------------------------------------------
// UTF-8 byte offsets
// ---------------------------------------------------------------------------

/// The number of bytes of the UTF-8 encoding of `c`.
pub open spec fn char_len(c: char) -> nat {
    let u = c as u32;
    if u <= 0x7F {
        1
    } else if u <= 0x7FF {
        2
    } else if u <= 0xFFFF {
        3
    } else {
        4
    }
}

/// The number of bytes of the UTF-8 encoding of `s`.
pub open spec fn byte_len(s: Seq<char>) -> nat
    decreases s.len(),
{
    if s.len() == 0 {
        0
    } else {
        char_len(s[0]) + byte_len(s.drop_first())
    }
}

/// The byte offset at which the character of index `k` of `s` starts.
pub open spec fn byte_offset(s: Seq<char>, k: int) -> nat {
    byte_len(s.take(k))
}

/// Whether the byte offset `b` is the start of a character of `s`, or its end.
pub open spec fn is_boundary(s: Seq<char>, b: int) -> bool {
    exists|k: int| 0 <= k <= s.len() && #[trigger] byte_offset(s, k) == b
}

/// The index of the character that starts at the byte offset `b`.
pub open spec fn char_index(s: Seq<char>, b: int) -> int {
    choose|k: int| 0 <= k <= s.len() && #[trigger] byte_offset(s, k) == b
}

/// The byte offset of the character before the one at byte offset `b`, or 0
/// at the start.
pub open spec fn previous_boundary_spec(s: Seq<char>, b: int) -> int {
    if b <= 0 {
        0
    } else {
        byte_offset(s, char_index(s, b) - 1) as int
    }
}

/// The byte offset of the character after the one at byte offset `b`, or the
/// end of `s`.
pub open spec fn next_boundary_spec(s: Seq<char>, b: int) -> int {
    if char_index(s, b) >= s.len() {
        byte_len(s) as int
    } else {
        byte_offset(s, char_index(s, b) + 1) as int
    }
}

pub proof fn lemma_char_len_bounds(c: char)
    ensures
        1 <= char_len(c) <= 4,
{
}

pub proof fn lemma_byte_len_append(a: Seq<char>, b: Seq<char>)
    ensures
        byte_len(a + b) == byte_len(a) + byte_len(b),
    decreases a.len(),
{
    if a.len() == 0 {
        assert(a + b =~= b);
    } else {
        assert((a + b).drop_first() =~= a.drop_first() + b);
        lemma_byte_len_append(a.drop_first(), b);
    }
}

pub proof fn lemma_byte_len_push(a: Seq<char>, c: char)
    ensures
        byte_len(a.push(c)) == byte_len(a) + char_len(c),
{
    lemma_byte_len_append(a, seq![c]);
    assert(a.push(c) =~= a + seq![c]);
    assert(seq![c].drop_first() =~= Seq::<char>::empty());
    assert(byte_len(Seq::<char>::empty()) == 0);
    assert(byte_len(seq![c]) == char_len(seq![c][0]) + byte_len(seq![c].drop_first()));
}

/// The offset of the next character is the offset of this one plus its length.
pub proof fn lemma_byte_offset_step(s: Seq<char>, k: int)
    requires
        0 <= k < s.len(),
    ensures
        byte_offset(s, k + 1) == byte_offset(s, k) + char_len(s[k]),
{
    assert(s.take(k + 1) =~= s.take(k).push(s[k]));
    lemma_byte_len_push(s.take(k), s[k]);
}

pub proof fn lemma_byte_offset_end(s: Seq<char>)
    ensures
        byte_offset(s, s.len() as int) == byte_len(s),
{
    assert(s.take(s.len() as int) =~= s);
}

/// Byte offsets grow strictly with the character index.
pub proof fn lemma_byte_offset_strict(s: Seq<char>, j: int, k: int)
    requires
        0 <= j < k <= s.len(),
    ensures
        byte_offset(s, j) + k - j <= byte_offset(s, k),
    decreases k - j,
{
    lemma_byte_offset_step(s, k - 1);
    if j < k - 1 {
        lemma_byte_offset_strict(s, j, k - 1);
    }
}

pub proof fn lemma_byte_offset_le_len(s: Seq<char>, k: int)
    requires
        0 <= k <= s.len(),
    ensures
        byte_offset(s, k) <= byte_len(s),
{
    lemma_byte_offset_end(s);
    if k < s.len() {
        lemma_byte_offset_strict(s, k, s.len() as int);
    }
}

/// A byte offset determines the character index.
pub proof fn lemma_byte_offset_injective(s: Seq<char>, j: int, k: int)
    requires
        0 <= j <= s.len(),
        0 <= k <= s.len(),
        byte_offset(s, j) == byte_offset(s, k),
    ensures
        j == k,
{
    if j < k {
        lemma_byte_offset_strict(s, j, k);
    } else if k < j {
        lemma_byte_offset_strict(s, k, j);
    }
}

/// The character index at a boundary is the one that produced it.
pub proof fn lemma_char_index(s: Seq<char>, k: int)
    requires
        0 <= k <= s.len(),
    ensures
        is_boundary(s, byte_offset(s, k) as int),
        char_index(s, byte_offset(s, k) as int) == k,
{
    let b = byte_offset(s, k) as int;
    assert(0 <= k <= s.len() && byte_offset(s, k) == b);
    let c = char_index(s, b);
    lemma_byte_offset_injective(s, c, k);
}

/// `str::len`: the number of bytes of the UTF-8 encoding of `s`. A string
/// never holds more bytes than the address space, so the count is exact.
#[verifier::external_body]
pub(crate) fn str_len(s: &str) -> (n: usize)
    ensures
        n == byte_len(s@),
{
    s.len()
}

/// `char::len_utf8`, written out from its documented table.
pub fn char_utf8_len(c: char) -> (n: usize)
    ensures
        n == char_len(c),
{
    let u = c as u32;
    if u <= 0x7F {
        1
    } else if u <= 0x7FF {
        2
    } else if u <= 0xFFFF {
        3
    } else {
        4
    }
}

/// The character index of the boundary `cursor` in `s`, found by walking the
/// characters and summing their encoded lengths.
pub fn char_index_of(s: &[char], cursor: usize) -> (k: usize)
    requires
        is_boundary(s@, cursor as int),
    ensures
        k <= s@.len(),
        byte_offset(s@, k as int) == cursor,
        k == char_index(s@, cursor as int),
{
    let ghost kk = char_index(s@, cursor as int);
    let mut k: usize = 0;
    let mut offset: usize = 0;
    proof {
        assert(s@.take(0) =~= Seq::<char>::empty());
    }
    while offset < cursor
        invariant
            0 <= kk <= s@.len(),
            byte_offset(s@, kk) == cursor,
            k <= kk,
            offset == byte_offset(s@, k as int),
        decreases cursor - offset,
    {
        proof {
            if k == kk {
                assert(false);
            }
            lemma_byte_offset_step(s@, k as int);
            lemma_byte_offset_strict(s@, k as int, kk);
            if k + 1 < kk {
                lemma_byte_offset_strict(s@, k + 1, kk);
            }
        }
        let w = char_utf8_len(s[k]);
        offset = offset + w;
        k = k + 1;
    }
    proof {
        if k < kk {
            lemma_byte_offset_strict(s@, k as int, kk);
        }
        lemma_char_index(s@, k as int);
    }
    k
}

/// The byte offset of the character of index `k` of `s`.
pub fn offset_of_index(s: &[char], k: usize) -> (b: usize)
    requires
        k <= s@.len(),
        byte_len(s@) <= usize::MAX,
    ensures
        b == byte_offset(s@, k as int),
{
    let mut i: usize = 0;
    let mut offset: usize = 0;
    proof {
        assert(s@.take(0) =~= Seq::<char>::empty());
    }
    while i < k
        invariant
            i <= k <= s@.len(),
            byte_len(s@) <= usize::MAX,
            offset == byte_offset(s@, i as int),
        decreases k - i,
    {
        proof {
            lemma_byte_offset_step(s@, i as int);
            lemma_byte_offset_le_len(s@, i + 1);
        }
        let w = char_utf8_len(s[i]);
        offset = offset + w;
        i = i + 1;
    }
    offset
}

/// The byte offset of the character before the cursor, or 0 at the start of
/// `value`.
pub fn previous_boundary(value: &str, cursor: usize) -> (r: usize)
    requires
        is_boundary(value@, cursor as int),
    ensures
        r == previous_boundary_spec(value@, cursor as int),
        is_boundary(value@, r as int),
        r <= cursor,
        cursor > 0 ==> r < cursor,
{
    // The byte length of `value` fits in `usize`.
    let _ = str_len(value);
    let cs = chars_of(value);
    let k = char_index_of(cs.as_slice(), cursor);
    if k == 0 {
        proof {
            lemma_char_index(value@, 0);
        }
        0
    } else {
        let r = offset_of_index(cs.as_slice(), k - 1);
        proof {
            lemma_char_index(value@, k - 1);
            lemma_byte_offset_strict(value@, k - 1, k as int);
        }
        r
    }
}

/// The byte offset of the character after the cursor, or the end of `value`.
pub fn next_boundary(value: &str, cursor: usize) -> (r: usize)
    requires
        is_boundary(value@, cursor as int),
    ensures
        r == next_boundary_spec(value@, cursor as int),
        is_boundary(value@, r as int),
        cursor <= r <= byte_len(value@),
        cursor < byte_len(value@) ==> cursor < r,
{
    // The byte length of `value` fits in `usize`.
    let _ = str_len(value);
    let cs = chars_of(value);
    let k = char_index_of(cs.as_slice(), cursor);
    if k >= cs.len() {
        let r = offset_of_index(cs.as_slice(), cs.len());
        proof {
            lemma_byte_offset_end(value@);
            lemma_char_index(value@, value@.len() as int);
        }
        r
    } else {
        let r = offset_of_index(cs.as_slice(), k + 1);
        proof {
            lemma_char_index(value@, k + 1);
            lemma_byte_offset_strict(value@, k as int, k + 1);
            lemma_byte_offset_le_len(value@, k + 1);
        }
        r
    }
}

/// `s` with `c` inserted before the character of index `k`.
pub fn insert_char_at(s: &str, k: usize, c: char) -> (r: String)
    requires
        k <= s@.len(),
    ensures
        r@ == s@.insert(k as int, c),
{
    let cs = chars_of(s);
    let mut v: Vec<char> = Vec::new();
    let mut i: usize = 0;
    while i < k
        invariant
            i <= k <= cs@.len(),
            v@ == cs@.take(i as int),
        decreases k - i,
    {
        v.push(cs[i]);
        proof {
            assert(cs@.take(i + 1) =~= cs@.take(i as int).push(cs@[i as int]));
        }
        i += 1;
    }
    v.push(c);
    while i < cs.len()
        invariant
            k <= i <= cs@.len(),
            v@ == cs@.take(k as int).push(c) + cs@.subrange(k as int, i as int),
        decreases cs@.len() - i,
    {
        v.push(cs[i]);
        proof {
            assert(cs@.subrange(k as int, i + 1) =~= cs@.subrange(k as int, i as int).push(cs@[i as int]));
        }
        i += 1;
    }
    proof {
        assert(v@ =~= s@.insert(k as int, c));
    }
    string_from_chars(v.as_slice())
}

/// `s` without the character of index `k`.
pub fn remove_char_at(s: &str, k: usize) -> (r: String)
    requires
        k < s@.len(),
    ensures
        r@ == s@.remove(k as int),
{
    let cs = chars_of(s);
    let mut v: Vec<char> = Vec::new();
    let mut i: usize = 0;
    while i < cs.len()
        invariant
            k < cs@.len(),
            i <= cs@.len(),
            v@ == (if i <= k { cs@.take(i as int) } else { cs@.take(k as int) + cs@.subrange(k + 1, i as int) }),
        decreases cs@.len() - i,
    {
        if i != k {
            v.push(cs[i]);
        }
        proof {
            if i < k {
                assert(cs@.take(i + 1) =~= cs@.take(i as int).push(cs@[i as int]));
            } else if i == k {
                assert(cs@.take(k as int) + cs@.subrange(k + 1, i + 1) =~= cs@.take(k as int));
            } else {
                assert(cs@.take(k as int) + cs@.subrange(k + 1, i + 1) =~= (cs@.take(k as int)
                    + cs@.subrange(k + 1, i as int)).push(cs@[i as int]));
            }
        }
        i += 1;
    }
    proof {
        assert(v@ =~= s@.remove(k as int));
    }
    string_from_chars(v.as_slice())
}

/// The first `k` characters of `s`.
pub fn prefix_chars(s: &str, k: usize) -> (r: String)
    requires
        k <= s@.len(),
    ensures
        r@ == s@.take(k as int),
{
    let cs = chars_of(s);
    let mut v: Vec<char> = Vec::new();
    let mut i: usize = 0;
    while i < k
        invariant
            i <= k <= cs@.len(),
            v@ == cs@.take(i as int),
        decreases k - i,
    {
        v.push(cs[i]);
        proof {
            assert(cs@.take(i + 1) =~= cs@.take(i as int).push(cs@[i as int]));
        }
        i += 1;
    }
    string_from_chars(v.as_slice())
}

/// Moving right and then left returns to the same byte offset.
pub proof fn previous_undoes_next(s: Seq<char>, b: int)
    requires
        is_boundary(s, b),
        b < byte_len(s),
    ensures
        previous_boundary_spec(s, next_boundary_spec(s, b)) == b,
{
    let k = char_index(s, b);
    lemma_byte_offset_end(s);
    if k >= s.len() {
        assert(b == byte_len(s));
    }
    lemma_char_index(s, k + 1);
    lemma_byte_offset_step(s, k);
    lemma_char_len_bounds(s[k]);
}

/// Moving left and then right returns to the same byte offset.
pub proof fn next_undoes_previous(s: Seq<char>, b: int)
    requires
        is_boundary(s, b),
        b > 0,
    ensures
        next_boundary_spec(s, previous_boundary_spec(s, b)) == b,
{
    let k = char_index(s, b);
    if k == 0 {
        assert(s.take(0) =~= Seq::<char>::empty());
    }
    lemma_char_index(s, k - 1);
}

/// Offsets before an inserted character are unchanged; the offset after it
/// grows by its length.
pub proof fn lemma_byte_offset_insert(s: Seq<char>, k: int, c: char)
    requires
        0 <= k <= s.len(),
    ensures
        byte_offset(s.insert(k, c), k) == byte_offset(s, k),
        byte_offset(s.insert(k, c), k + 1) == byte_offset(s, k) + char_len(c),
{
    let t = s.insert(k, c);
    assert(t.take(k) =~= s.take(k));
    assert(t.take(k + 1) =~= s.take(k).push(c));
    lemma_byte_len_push(s.take(k), c);
}

} // verus!
