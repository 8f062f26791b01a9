//! Text as sequences of characters: decoding, trimming and searching.
//!
//! The rest of the crate reads and writes text through these functions. A text
//! is modelled by the sequence of its `char`s.

use vstd::prelude::*;
use vstd::slice::slice_subrange;
use vstd::utf8::{encode_scalar, encode_utf8, valid_utf8};

verus! {

// --- between strings and characters ----------------------------------------

/// `String::push` appends one character at the end of the string.
pub assume_specification[ String::push ](s: &mut String, c: char)
    ensures
        final(s)@ == old(s)@.push(c),
;

/// Calls `std::str::from_utf8`: it accepts exactly the byte strings that are
/// valid UTF-8, and hands back the text that those bytes encode.
#[verifier::external_body]
fn utf8_text(bytes: &[u8]) -> (r: Option<&str>)
    ensures
        r is Some <==> valid_utf8(bytes@),
        r matches Some(s) ==> encode_utf8(s@) == bytes@,
{
    std::str::from_utf8(bytes).ok()
}

/// The text that `bytes` encode in UTF-8, if they encode one.
pub open spec fn decoded(bytes: Seq<u8>) -> Option<Seq<char>> {
    if valid_utf8(bytes) {
        Some(vstd::utf8::decode_utf8(bytes))
    } else {
        None
    }
}

/// The encoding of a text decodes to that text.
pub proof fn lemma_decoded_encode(s: Seq<char>)
    ensures
        decoded(encode_utf8(s)) == Some(s),
{
    vstd::utf8::encode_utf8_valid_utf8(s);
    vstd::utf8::encode_utf8_decode_utf8(s);
}

/// The encoding of a concatenation is the concatenation of the encodings.
pub proof fn lemma_encode_concat(a: Seq<char>, b: Seq<char>)
    ensures
        encode_utf8(a + b) == encode_utf8(a) + encode_utf8(b),
    decreases a.len(),
{
    if a.len() == 0 {
        assert(a + b =~= b);
        assert(encode_utf8(a) + encode_utf8(b) =~= encode_utf8(b));
    } else {
        lemma_encode_concat(a.drop_first(), b);
        assert((a + b).drop_first() =~= a.drop_first() + b);
        assert(encode_utf8(a + b) =~= encode_utf8(a) + encode_utf8(b));
    }
}

/// An ASCII character is encoded as one byte, its own number.
pub proof fn lemma_encode_ascii(c: char)
    requires
        (c as u32) < 128,
    ensures
        encode_utf8(seq![c]) == seq![c as u8],
{
    let s = seq![c];
    assert(vstd::utf8::is_ascii_chars(s));
    vstd::utf8::is_ascii_chars_encode_utf8(s);
    assert(encode_utf8(s) =~= seq![c as u8]);
}

proof fn lemma_encode_scalar_free(u: u32, b: u8)
    requires
        b < 128,
        u != b,
    ensures
        !encode_scalar(u).contains(b),
{
    assert(u < 128 ==> (u & 0x7f) as u8 == u) by (bit_vector);
    assert(0xC0u8 | ((u >> 6) & 0x1F) as u8 >= 0x80) by (bit_vector);
    assert(0xE0u8 | ((u >> 12) & 0x0F) as u8 >= 0x80) by (bit_vector);
    assert(0xF0u8 | ((u >> 18) & 0x7) as u8 >= 0x80) by (bit_vector);
    assert(0x80u8 | (u & 0x3F) as u8 >= 0x80) by (bit_vector);
    assert(0x80u8 | ((u >> 6) & 0x3F) as u8 >= 0x80) by (bit_vector);
    assert(0x80u8 | ((u >> 12) & 0x3F) as u8 >= 0x80) by (bit_vector);
}

proof fn lemma_char_number(a: char, b: char)
    requires
        a != b,
    ensures
        a as u32 != b as u32,
{
}

/// The byte of an ASCII character stands only in encodings of texts that hold it.
pub proof fn lemma_encode_free(s: Seq<char>, c: char)
    requires
        (c as u32) < 128,
        !s.contains(c),
    ensures
        !encode_utf8(s).contains(c as u8),
    decreases s.len(),
{
    if s.len() > 0 {
        let rest = s.drop_first();
        assert(s.contains(s[0]));
        assert forall|x: char| rest.contains(x) implies s.contains(x) by {
            let i = choose|i: int| 0 <= i < rest.len() && rest[i] == x;
            assert(s[i + 1] == x);
        }
        lemma_encode_free(rest, c);
        lemma_char_number(s[0], c);
        lemma_encode_scalar_free(s[0] as u32, c as u8);
        let a = encode_scalar(s[0] as u32);
        let e = encode_utf8(s);
        assert forall|j: int| 0 <= j < e.len() implies e[j] != c as u8 by {
            if j < a.len() {
                assert(a.contains(a[j]));
            } else {
                assert(encode_utf8(rest).contains(encode_utf8(rest)[j - a.len()]));
            }
        }
    }
}

/// The characters of `s`, in order.
pub fn chars_of(s: &str) -> (r: Vec<char>)
    ensures
        r@ == s@,
{
    let mut r: Vec<char> = Vec::new();
    for c in it: s.chars()
        invariant
            r@ == it.seq().take(it.index()),
            it.seq() == s@,
    {
        r.push(c);
        assert(it.seq().take(it.index() + 1) =~= it.seq().take(it.index()).push(c));
    }
    assert(s@.take(s@.len() as int) =~= s@);
    r
}

/// The string made of the characters of `v`.
pub fn string_of(v: &[char]) -> (r: String)
    ensures
        r@ == v@,
{
    let mut r: String = String::new();
    let mut i: usize = 0;
    while i < v.len()
        invariant
            i <= v.len(),
            r@ == v@.take(i as int),
        decreases v.len() - i,
    {
        r.push(v[i]);
        assert(v@.take(i + 1) =~= v@.take(i as int).push(v[i as int]));
        i += 1;
    }
    assert(v@.take(v@.len() as int) =~= v@);
    r
}

/// The characters that `bytes` encode in UTF-8; `None` if they are not UTF-8.
pub fn decode(bytes: &[u8]) -> (r: Option<Vec<char>>)
    ensures
        r is Some <==> decoded(bytes@) is Some,
        r matches Some(v) ==> decoded(bytes@) == Some(v@),
{
    match utf8_text(bytes) {
        Some(s) => {
            proof {
                vstd::utf8::encode_utf8_decode_utf8(s@);
            }
            Some(chars_of(s))
        },
        None => None,
    }
}

/// The UTF-8 encoding of `s`.
pub fn bytes_of(s: &str) -> (r: Vec<u8>)
    ensures
        r@ == encode_utf8(s@),
{
    vstd::slice::slice_to_vec(s.as_bytes())
}

/// The texts of a list of strings.
pub open spec fn texts(v: Seq<String>) -> Seq<Seq<char>> {
    Seq::new(v.len(), |i: int| v[i]@)
}

/// The texts of a list of character slices.
pub open spec fn parts(v: Seq<&[char]>) -> Seq<Seq<char>> {
    Seq::new(v.len(), |i: int| v[i]@)
}

/// A copy of a list of strings.
pub fn copied(v: &Vec<String>) -> (r: Vec<String>)
    ensures
        texts(r@) == texts(v@),
{
    let n: usize = v.len();
    let mut r: Vec<String> = Vec::new();
    for i in 0..n
        invariant
            n == v@.len(),
            texts(r@) =~= texts(v@).take(i as int),
    {
        let ghost before = texts(r@);
        let s: String = v[i].clone();
        r.push(s);
        assert(texts(r@) =~= before.push(s@));
    }
    assert(texts(v@).take(n as int) =~= texts(v@));
    r
}

// --- character classes ------------------------------------------------------

/// The sets of characters that are trimmed off texts.
#[derive(Clone, Copy, Debug, PartialEq, Eq, Structural)]
pub enum CharClass {
    /// Unicode white space.
    White,
    /// The NUL character.
    Nul,
    /// Carriage return and line feed.
    LineEnd,
}

/// The characters with the Unicode property `White_Space`.
pub open spec fn is_white(c: char) -> bool {
    let u = c as u32;
    ||| 0x9 <= u <= 0xd
    ||| u == 0x20
    ||| u == 0x85
    ||| u == 0xa0
    ||| u == 0x1680
    ||| 0x2000 <= u <= 0x200a
    ||| u == 0x2028
    ||| u == 0x2029
    ||| u == 0x202f
    ||| u == 0x205f
    ||| u == 0x3000
}

/// Membership of a character in a class.
pub open spec fn in_class(k: CharClass, c: char) -> bool {
    match k {
        CharClass::White => is_white(c),
        CharClass::Nul => c == '\0',
        CharClass::LineEnd => c == '\r' || c == '\n',
    }
}

/// Tests membership of `c` in the class `k`.
pub fn is_in_class(k: CharClass, c: char) -> (r: bool)
    ensures
        r == in_class(k, c),
{
    match k {
        CharClass::White => {
            let u: u32 = c as u32;
            (u >= 0x9 && u <= 0xd) || u == 0x20 || u == 0x85 || u == 0xa0 || u == 0x1680 || (u
                >= 0x2000 && u <= 0x200a) || u == 0x2028 || u == 0x2029 || u == 0x202f || u
                == 0x205f || u == 0x3000
        },
        CharClass::Nul => c == '\0',
        CharClass::LineEnd => c == '\r' || c == '\n',
    }
}

// --- trimming ---------------------------------------------------------------

/// `s` without its longest prefix of characters of class `k`.
pub open spec fn trim_start(s: Seq<char>, k: CharClass) -> Seq<char>
    decreases s.len(),
{
    if s.len() > 0 && in_class(k, s[0]) {
        trim_start(s.drop_first(), k)
    } else {
        s
    }
}

/// `s` without its longest suffix of characters of class `k`.
pub open spec fn trim_end(s: Seq<char>, k: CharClass) -> Seq<char>
    decreases s.len(),
{
    if s.len() > 0 && in_class(k, s.last()) {
        trim_end(s.drop_last(), k)
    } else {
        s
    }
}

/// `s` without white space at either end.
pub open spec fn trim(s: Seq<char>) -> Seq<char> {
    trim_end(trim_start(s, CharClass::White), CharClass::White)
}

/// A text that starts and ends outside the white space keeps all its characters.
pub proof fn lemma_trim_same(s: Seq<char>)
    requires
        s.len() > 0,
        !is_white(s[0]),
        !is_white(s.last()),
    ensures
        trim(s) == s,
{
}

/// What is left after trimming is no longer than before, and does not start in the class.
pub proof fn lemma_trim_start_len(s: Seq<char>, k: CharClass)
    ensures
        trim_start(s, k).len() <= s.len(),
        trim_start(s, k).len() > 0 ==> !in_class(k, trim_start(s, k)[0]),
    decreases s.len(),
{
    if s.len() > 0 && in_class(k, s[0]) {
        lemma_trim_start_len(s.drop_first(), k);
    }
}

/// Drops the characters of class `k` at the start of `v`.
pub fn trimmed_start(v: &[char], k: CharClass) -> (r: &[char])
    ensures
        r@ == trim_start(v@, k),
{
    let mut i: usize = 0;
    assert(v@.skip(0) =~= v@);
    while i < v.len() && is_in_class(k, v[i])
        invariant
            i <= v.len(),
            trim_start(v@.skip(i as int), k) == trim_start(v@, k),
        decreases v.len() - i,
    {
        assert(v@.skip(i as int).drop_first() =~= v@.skip(i + 1));
        i += 1;
    }
    assert(v@.subrange(i as int, v@.len() as int) =~= v@.skip(i as int));
    slice_subrange(v, i, v.len())
}

/// Drops the characters of class `k` at the end of `v`.
pub fn trimmed_end(v: &[char], k: CharClass) -> (r: &[char])
    ensures
        r@ == trim_end(v@, k),
{
    let mut n: usize = v.len();
    assert(v@.take(n as int) =~= v@);
    while n > 0 && is_in_class(k, v[n - 1])
        invariant
            n <= v.len(),
            trim_end(v@.take(n as int), k) == trim_end(v@, k),
        decreases n,
    {
        assert(v@.take(n as int).drop_last() =~= v@.take(n - 1));
        n -= 1;
    }
    assert(v@.subrange(0, n as int) =~= v@.take(n as int));
    slice_subrange(v, 0, n)
}

/// Drops the white space at both ends of `v`.
pub fn trimmed(v: &[char]) -> (r: &[char])
    ensures
        r@ == trim(v@),
{
    trimmed_end(trimmed_start(v, CharClass::White), CharClass::White)
}

// --- searching --------------------------------------------------------------

/// The first position at which `t` stands in `s`.
pub open spec fn find<T>(s: Seq<T>, t: T) -> Option<int>
    decreases s.len(),
{
    if s.len() == 0 {
        None
    } else if s[0] == t {
        Some(0)
    } else {
        match find(s.drop_first(), t) {
            Some(i) => Some(i + 1),
            None => None,
        }
    }
}

/// `find` gives the first position, and `None` only if there is no position.
pub proof fn lemma_find<T>(s: Seq<T>, t: T)
    ensures
        match find(s, t) {
            Some(i) => {
                &&& 0 <= i < s.len()
                &&& s[i] == t
                &&& forall|j: int| 0 <= j < i ==> s[j] != t
            },
            None => forall|j: int| 0 <= j < s.len() ==> s[j] != t,
        },
    decreases s.len(),
{
    if s.len() > 0 && s[0] != t {
        let rest = s.drop_first();
        lemma_find(rest, t);
        match find(rest, t) {
            Some(i) => {
                assert forall|j: int| 0 <= j < i + 1 implies s[j] != t by {
                    if j > 0 {
                        assert(s[j] == rest[j - 1]);
                    }
                }
            },
            None => {
                assert forall|j: int| 0 <= j < s.len() implies s[j] != t by {
                    if j > 0 {
                        assert(s[j] == rest[j - 1]);
                    }
                }
            },
        }
    }
}

/// A position that is the first one is what `find` gives.
pub proof fn lemma_find_first<T>(s: Seq<T>, t: T, i: int)
    requires
        0 <= i < s.len(),
        s[i] == t,
        forall|j: int| 0 <= j < i ==> s[j] != t,
    ensures
        find(s, t) == Some(i),
{
    lemma_find(s, t);
}

/// `find` gives `None` where `t` does not stand in `s`.
pub proof fn lemma_find_none<T>(s: Seq<T>, t: T)
    requires
        forall|j: int| 0 <= j < s.len() ==> s[j] != t,
    ensures
        find(s, t) == None::<int>,
{
    lemma_find(s, t);
}

/// In `a + [t] + b`, where `a` is free of `t`, the first `t` stands after `a`.
pub proof fn lemma_find_after<T>(a: Seq<T>, t: T, b: Seq<T>)
    requires
        !a.contains(t),
    ensures
        find(a + seq![t] + b, t) == Some(a.len() as int),
        (a + seq![t] + b).take(a.len() as int) == a,
        (a + seq![t] + b).skip(a.len() as int + 1) == b,
{
    let s = a + seq![t] + b;
    assert forall|j: int| 0 <= j < a.len() implies s[j] != t by {
        assert(s[j] == a[j]);
    }
    lemma_find_first(s, t, a.len() as int);
    assert(s.take(a.len() as int) =~= a);
    assert(s.skip(a.len() as int + 1) =~= b);
}

/// The first position of the character `c` in `v`.
pub fn find_char(v: &[char], c: char) -> (r: Option<usize>)
    ensures
        match r {
            Some(i) => find(v@, c) == Some(i as int) && i < v@.len(),
            None => find(v@, c) is None,
        },
{
    let mut i: usize = 0;
    while i < v.len()
        invariant
            i <= v.len(),
            forall|j: int| 0 <= j < i ==> v@[j] != c,
        decreases v.len() - i,
    {
        if v[i] == c {
            proof {
                lemma_find_first(v@, c, i as int);
            }
            return Some(i);
        }
        i += 1;
    }
    proof {
        lemma_find_none(v@, c);
    }
    None
}

/// The first position of the byte `b` in `v`.
pub fn find_byte(v: &[u8], b: u8) -> (r: Option<usize>)
    ensures
        match r {
            Some(i) => find(v@, b) == Some(i as int) && i < v@.len(),
            None => find(v@, b) is None,
        },
{
    let mut i: usize = 0;
    while i < v.len()
        invariant
            i <= v.len(),
            forall|j: int| 0 <= j < i ==> v@[j] != b,
        decreases v.len() - i,
    {
        if v[i] == b {
            proof {
                lemma_find_first(v@, b, i as int);
            }
            return Some(i);
        }
        i += 1;
    }
    proof {
        lemma_find_none(v@, b);
    }
    None
}

/// `p` stands in `s` at position `i`.
pub open spec fn occurs_at(s: Seq<char>, p: Seq<char>, i: int) -> bool {
    &&& 0 <= i
    &&& i + p.len() <= s.len()
    &&& s.subrange(i, i + p.len()) == p
}

/// `p` stands somewhere in `s`.
pub open spec fn contains_text(s: Seq<char>, p: Seq<char>) -> bool {
    exists|i: int| occurs_at(s, p, i)
}

/// `i` is the first position at which `p` stands in `s`.
pub open spec fn occurs_first(s: Seq<char>, p: Seq<char>, i: int) -> bool {
    &&& occurs_at(s, p, i)
    &&& forall|j: int| 0 <= j < i ==> !occurs_at(s, p, j)
}

/// The first position at which `p` stands in `s`.
pub open spec fn find_text(s: Seq<char>, p: Seq<char>) -> Option<int> {
    if contains_text(s, p) {
        Some(choose|i: int| occurs_first(s, p, i))
    } else {
        None
    }
}

/// A position that is the first one is what `find_text` gives.
pub proof fn lemma_find_text_first(s: Seq<char>, p: Seq<char>, i: int)
    requires
        occurs_first(s, p, i),
    ensures
        find_text(s, p) == Some(i),
{
    let k = choose|k: int| occurs_first(s, p, k);
    assert(occurs_first(s, p, k));
    if k < i {
        assert(!occurs_at(s, p, k));
    } else if i < k {
        assert(!occurs_at(s, p, i));
    }
}

/// Tests whether `p` stands in `v` at position `i`.
fn is_at(v: &[char], p: &[char], i: usize) -> (r: bool)
    requires
        i + p@.len() <= v@.len(),
    ensures
        r == occurs_at(v@, p@, i as int),
{
    let mut j: usize = 0;
    while j < p.len()
        invariant
            j <= p.len(),
            i + p.len() <= v.len(),
            forall|k: int| 0 <= k < j ==> v@[i + k] == p@[k],
        decreases p.len() - j,
    {
        if v[i + j] != p[j] {
            assert(v@.subrange(i as int, i + p@.len())[j as int] != p@[j as int]);
            return false;
        }
        j += 1;
    }
    assert(v@.subrange(i as int, i + p@.len()) =~= p@);
    true
}

/// The first position at which `p` stands in `v`.
pub fn find_sub(v: &[char], p: &[char]) -> (r: Option<usize>)
    ensures
        match r {
            Some(i) => find_text(v@, p@) == Some(i as int) && occurs_first(v@, p@, i as int),
            None => find_text(v@, p@) is None,
        },
{
    if p.len() > v.len() {
        return None;
    }
    let last: usize = v.len() - p.len();
    let mut i: usize = 0;
    loop
        invariant
            p@.len() <= v@.len(),
            last == v@.len() - p@.len(),
            i <= last,
            forall|j: int| 0 <= j < i ==> !occurs_at(v@, p@, j),
        decreases last - i,
    {
        if is_at(v, p, i) {
            proof {
                lemma_find_text_first(v@, p@, i as int);
            }
            return Some(i);
        }
        if i == last {
            return None;
        }
        i += 1;
    }
}

/// Tests whether `p` stands somewhere in `s`.
pub fn has_text(s: &str, p: &str) -> (r: bool)
    ensures
        r == contains_text(s@, p@),
{
    let v: Vec<char> = chars_of(s);
    let w: Vec<char> = chars_of(p);
    match find_sub(v.as_slice(), w.as_slice()) {
        Some(_) => true,
        None => false,
    }
}

/// `s` starts with `p`.
pub open spec fn starts_with(s: Seq<char>, p: Seq<char>) -> bool {
    p.len() <= s.len() && s.take(p.len() as int) == p
}

/// Tests whether `v` starts with the text `p`.
pub fn has_prefix(v: &[char], p: &str) -> (r: bool)
    ensures
        r == starts_with(v@, p@),
{
    let w: Vec<char> = chars_of(p);
    if w.len() > v.len() {
        return false;
    }
    assert(v@.subrange(0, p@.len() as int) =~= v@.take(p@.len() as int));
    is_at(v, w.as_slice(), 0)
}

/// Tests whether the characters of `v` are those of `p`.
pub fn is_text(v: &[char], p: &str) -> (r: bool)
    ensures
        r == (v@ == p@),
{
    let w: Vec<char> = chars_of(p);
    if w.len() != v.len() {
        return false;
    }
    assert(v@.subrange(0, p@.len() as int) =~= v@);
    is_at(v, w.as_slice(), 0)
}

/// Tests whether two lists of bytes are equal.
pub fn same_bytes(a: &[u8], b: &[u8]) -> (r: bool)
    ensures
        r == (a@ == b@),
{
    if a.len() != b.len() {
        return false;
    }
    let mut i: usize = 0;
    while i < a.len()
        invariant
            a@.len() == b@.len(),
            i <= a@.len(),
            forall|j: int| 0 <= j < i ==> a@[j] == b@[j],
        decreases a.len() - i,
    {
        if a[i] != b[i] {
            return false;
        }
        i += 1;
    }
    assert(a@ =~= b@);
    true
}

// --- what trimming leaves ---------------------------------------------------

/// Every character is white space.
pub open spec fn all_white(s: Seq<char>) -> bool {
    forall|i: int| 0 <= i < s.len() ==> is_white(#[trigger] s[i])
}

/// Characters of the class before a text are trimmed off its start.
pub proof fn lemma_trim_start_pad(w: Seq<char>, s: Seq<char>, k: CharClass)
    requires
        forall|i: int| 0 <= i < w.len() ==> in_class(k, #[trigger] w[i]),
    ensures
        trim_start(w + s, k) == trim_start(s, k),
    decreases w.len(),
{
    if w.len() == 0 {
        assert(w + s =~= s);
    } else {
        let rest = w.drop_first();
        assert forall|i: int| 0 <= i < rest.len() implies in_class(k, #[trigger] rest[i]) by {
            assert(rest[i] == w[i + 1]);
        }
        lemma_trim_start_pad(rest, s, k);
        assert((w + s)[0] == w[0]);
        assert((w + s).drop_first() =~= rest + s);
    }
}

/// Characters of the class after a text are trimmed off its end.
pub proof fn lemma_trim_end_pad(s: Seq<char>, w: Seq<char>, k: CharClass)
    requires
        forall|i: int| 0 <= i < w.len() ==> in_class(k, #[trigger] w[i]),
    ensures
        trim_end(s + w, k) == trim_end(s, k),
    decreases w.len(),
{
    if w.len() == 0 {
        assert(s + w =~= s);
    } else {
        let rest = w.drop_last();
        assert forall|i: int| 0 <= i < rest.len() implies in_class(k, #[trigger] rest[i]) by {
            assert(rest[i] == w[i]);
        }
        lemma_trim_end_pad(s, rest, k);
        assert((s + w).last() == w[w.len() - 1]);
        assert((s + w).drop_last() =~= s + rest);
    }
}

/// White space around a text that starts and ends outside of it is trimmed off, and nothing
/// else.
pub proof fn white_space_around_is_trimmed(before: Seq<char>, s: Seq<char>, after: Seq<char>)
    requires
        all_white(before),
        all_white(after),
        s.len() > 0,
        !is_white(s[0]),
        !is_white(s.last()),
    ensures
        trim(before + s + after) == s,
{
    assert forall|i: int| 0 <= i < before.len() implies in_class(
        CharClass::White,
        #[trigger] before[i],
    ) by {
        assert(is_white(before[i]));
    }
    assert forall|i: int| 0 <= i < after.len() implies in_class(
        CharClass::White,
        #[trigger] after[i],
    ) by {
        assert(is_white(after[i]));
    }
    assert(before + s + after =~= before + (s + after));
    lemma_trim_start_pad(before, s + after, CharClass::White);
    assert((s + after)[0] == s[0]);
    lemma_trim_end_pad(s, after, CharClass::White);
    lemma_trim_same(s);
}

/// Of white space alone nothing is left.
pub proof fn white_space_alone_is_trimmed(s: Seq<char>)
    requires
        all_white(s),
    ensures
        trim(s).len() == 0,
{
    let none = Seq::<char>::empty();
    assert forall|i: int| 0 <= i < s.len() implies in_class(CharClass::White, #[trigger] s[i]) by {
        assert(is_white(s[i]));
    }
    lemma_trim_start_pad(s, none, CharClass::White);
    assert(s + none =~= s);
}

/// The blank, the tabulator and the line ends are white space, as are some characters outside of
/// ASCII; letters, digits and the signs in names and addresses are not.
pub proof fn plain_white_space(c: char)
    ensures
        c == ' ' || c == '\t' || c == '\n' || c == '\r' ==> is_white(c),
        '!' <= c <= '~' ==> !is_white(c),
        (c as u32) < 0x80 ==> (is_white(c) <==> c == ' ' || '\t' <= c <= '\r'),
        (c as u32) >= 0x80 ==> (is_white(c) <==> c == '\u{85}' || c == '\u{a0}' || c == '\u{1680}'
            || '\u{2000}' <= c <= '\u{200a}' || c == '\u{2028}' || c == '\u{2029}' || c
            == '\u{202f}' || c == '\u{205f}' || c == '\u{3000}'),
{
}

/// A text that starts outside the class still starts with the same character when its end is
/// trimmed.
pub proof fn lemma_trim_end_keeps_start(s: Seq<char>, k: CharClass)
    requires
        s.len() > 0,
        !in_class(k, s[0]),
    ensures
        trim_end(s, k).len() > 0,
        trim_end(s, k)[0] == s[0],
    decreases s.len(),
{
    if in_class(k, s.last()) {
        lemma_trim_end_keeps_start(s.drop_last(), k);
    }
}

/// What is left after trimming starts with the first character that is not white space.
pub proof fn trimmed_text_starts_with(before: Seq<char>, c: char, rest: Seq<char>)
    requires
        all_white(before),
        !is_white(c),
    ensures
        trim(before + seq![c] + rest).len() > 0,
        trim(before + seq![c] + rest)[0] == c,
{
    assert forall|i: int| 0 <= i < before.len() implies in_class(
        CharClass::White,
        #[trigger] before[i],
    ) by {
        assert(is_white(before[i]));
    }
    let s = seq![c] + rest;
    assert(before + seq![c] + rest =~= before + s);
    lemma_trim_start_pad(before, s, CharClass::White);
    lemma_trim_end_keeps_start(s, CharClass::White);
}

} // verus!
