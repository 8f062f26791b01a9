//! Cutting a text into parts: at a separator, into lines, into words.

use vstd::prelude::*;
use vstd::slice::slice_subrange;

use crate::text::{
    find, find_char, in_class, is_in_class, lemma_find, lemma_find_after, lemma_find_none,
    lemma_trim_start_len, lemma_trim_start_pad, parts, trim, trim_end, trim_start, trimmed_start,
    CharClass,
};

verus! {

/// The parts of `s` between the occurrences of `c`, in order.
pub open spec fn split<T>(s: Seq<T>, c: T) -> Seq<Seq<T>>
    decreases s.len(),
{
    proof {
        lemma_find(s, c);
    }
    match find(s, c) {
        Some(i) => seq![s.take(i)] + split(s.skip(i + 1), c),
        None => seq![s],
    }
}

/// What is free of the separator is one part.
pub proof fn lemma_split_one<T>(a: Seq<T>, c: T)
    requires
        !a.contains(c),
    ensures
        split(a, c) == seq![a],
{
    assert forall|j: int| 0 <= j < a.len() implies a[j] != c by {
        assert(a.contains(a[j]));
    }
    lemma_find_none(a, c);
}

/// What stands before the first separator is the first part.
pub proof fn lemma_split_cons<T>(a: Seq<T>, c: T, b: Seq<T>)
    requires
        !a.contains(c),
    ensures
        split(a + seq![c] + b, c) == seq![a] + split(b, c),
{
    lemma_find_after(a, c, b);
}

/// What stands after the last separator is the last part.
pub proof fn lemma_split_snoc<T>(a: Seq<T>, c: T, b: Seq<T>)
    requires
        !b.contains(c),
    ensures
        split(a + seq![c] + b, c) == split(a, c).push(b),
    decreases a.len(),
{
    lemma_find(a, c);
    match find(a, c) {
        None => {
            assert forall|j: int| 0 <= j < a.len() implies a[j] != c by {}
            assert(!a.contains(c));
            lemma_split_cons(a, c, b);
            lemma_split_one(b, c);
            assert(split(a + seq![c] + b, c) =~= split(a, c).push(b));
        },
        Some(i) => {
            let head = a.take(i);
            let tail = a.skip(i + 1);
            assert(!head.contains(c)) by {
                assert forall|j: int| 0 <= j < head.len() implies head[j] != c by {
                    assert(head[j] == a[j]);
                }
            }
            assert(a =~= head + seq![c] + tail);
            lemma_split_snoc(tail, c, b);
            assert(a + seq![c] + b =~= head + seq![c] + (tail + seq![c] + b));
            lemma_split_cons(head, c, tail + seq![c] + b);
            assert(split(a + seq![c] + b, c) =~= split(a, c).push(b));
        },
    }
}

/// Cuts `v` at every occurrence of `c`.
pub fn split_at_char<'a>(v: &'a [char], c: char) -> (r: Vec<&'a [char]>)
    ensures
        parts(r@) == split(v@, c),
{
    let mut r: Vec<&'a [char]> = Vec::new();
    let mut rest: &'a [char] = v;
    loop
        invariant
            split(v@, c) == parts(r@) + split(rest@, c),
        decreases rest@.len(),
    {
        let ghost before = parts(r@);
        proof {
            lemma_find(rest@, c);
        }
        let n: usize = rest.len();
        match find_char(rest, c) {
            Some(i) => {
                let piece: &'a [char] = slice_subrange(rest, 0, i);
                let tail: &'a [char] = slice_subrange(rest, i + 1, n);
                assert(piece@ =~= rest@.take(i as int));
                assert(tail@ =~= rest@.skip(i + 1));
                r.push(piece);
                assert(parts(r@) =~= before.push(piece@));
                assert(parts(r@) + split(tail@, c) =~= before + split(rest@, c));
                rest = tail;
            },
            None => {
                r.push(rest);
                assert(parts(r@) =~= before.push(rest@));
                assert(parts(r@) =~= before + split(rest@, c));
                return r;
            },
        }
    }
}

/// A line without the carriage return that it may end with.
pub open spec fn without_cr(s: Seq<char>) -> Seq<char> {
    if s.len() > 0 && s.last() == '\r' {
        s.drop_last()
    } else {
        s
    }
}

/// The lines of `s`. A line ends with a line feed, which may follow a carriage
/// return; neither belongs to the line. The last line needs no line feed, and no
/// empty line follows the last line feed.
pub open spec fn lines(s: Seq<char>) -> Seq<Seq<char>>
    decreases s.len(),
{
    proof {
        lemma_find(s, '\n');
    }
    if s.len() == 0 {
        seq![]
    } else {
        match find(s, '\n') {
            Some(i) => seq![without_cr(s.take(i))] + lines(s.skip(i + 1)),
            None => seq![s],
        }
    }
}

/// Cuts `v` into lines.
pub fn lines_of<'a>(v: &'a [char]) -> (r: Vec<&'a [char]>)
    ensures
        parts(r@) == lines(v@),
{
    let mut r: Vec<&'a [char]> = Vec::new();
    let mut rest: &'a [char] = v;
    while rest.len() > 0
        invariant
            lines(v@) =~= parts(r@) + lines(rest@),
        decreases rest@.len(),
    {
        let ghost before = parts(r@);
        proof {
            lemma_find(rest@, '\n');
        }
        match find_char(rest, '\n') {
            Some(i) => {
                let n: usize = if i > 0 && rest[i - 1] == '\r' {
                    i - 1
                } else {
                    i
                };
                let piece: &'a [char] = slice_subrange(rest, 0, n);
                let tail: &'a [char] = slice_subrange(rest, i + 1, rest.len());
                assert(piece@ =~= without_cr(rest@.take(i as int)));
                assert(tail@ =~= rest@.skip(i + 1));
                r.push(piece);
                assert(parts(r@) =~= before.push(piece@));
                assert(parts(r@) + lines(tail@) =~= before + lines(rest@));
                rest = tail;
            },
            None => {
                r.push(rest);
                assert(parts(r@) =~= before.push(rest@));
                assert(parts(r@) =~= before + lines(rest@));
                return r;
            },
        }
    }
    r
}

/// The number of characters of `s` before its first white space.
pub open spec fn word_len(s: Seq<char>) -> nat
    decreases s.len(),
{
    if s.len() == 0 || in_class(CharClass::White, s[0]) {
        0
    } else {
        word_len(s.drop_first()) + 1
    }
}

/// A word starts where there is no white space, and holds none.
pub proof fn lemma_word_len(s: Seq<char>)
    ensures
        word_len(s) <= s.len(),
        s.len() > 0 && !in_class(CharClass::White, s[0]) ==> word_len(s) > 0,
        forall|j: int| 0 <= j < word_len(s) ==> !in_class(CharClass::White, #[trigger] s[j]),
    decreases s.len(),
{
    if s.len() > 0 && !in_class(CharClass::White, s[0]) {
        let rest = s.drop_first();
        lemma_word_len(rest);
        assert forall|j: int| 0 <= j < word_len(s) implies !in_class(
            CharClass::White,
            #[trigger] s[j],
        ) by {
            if j > 0 {
                assert(s[j] == rest[j - 1]);
            }
        }
    }
}

/// The words of `s`: its longest pieces that are free of white space, in order.
pub open spec fn words(s: Seq<char>) -> Seq<Seq<char>>
    decreases s.len(),
{
    proof {
        lemma_trim_start_len(s, CharClass::White);
        lemma_word_len(trim_start(s, CharClass::White));
    }
    let t = trim_start(s, CharClass::White);
    if t.len() == 0 {
        seq![]
    } else {
        seq![t.take(word_len(t) as int)] + words(t.skip(word_len(t) as int))
    }
}

/// A word is neither empty nor does it hold white space.
pub proof fn lemma_words(s: Seq<char>)
    ensures
        forall|i: int|
            0 <= i < words(s).len() ==> {
                &&& (#[trigger] words(s)[i]).len() > 0
                &&& forall|j: int|
                    0 <= j < words(s)[i].len() ==> !in_class(
                        CharClass::White,
                        #[trigger] words(s)[i][j],
                    )
            },
    decreases s.len(),
{
    let t = trim_start(s, CharClass::White);
    lemma_trim_start_len(s, CharClass::White);
    lemma_word_len(t);
    if t.len() > 0 {
        let rest = t.skip(word_len(t) as int);
        lemma_words(rest);
        assert forall|i: int| 0 <= i < words(s).len() implies {
            &&& (#[trigger] words(s)[i]).len() > 0
            &&& forall|j: int|
                0 <= j < words(s)[i].len() ==> !in_class(
                    CharClass::White,
                    #[trigger] words(s)[i][j],
                )
        } by {
            if i > 0 {
                assert(words(s)[i] == words(rest)[i - 1]);
            } else {
                assert(words(s)[0] == t.take(word_len(t) as int));
            }
        }
    }
}

/// The number of characters of `v` before its first white space.
fn count_word(v: &[char]) -> (n: usize)
    ensures
        n == word_len(v@),
        n <= v@.len(),
{
    let mut n: usize = 0;
    assert(v@.skip(0) =~= v@);
    while n < v.len() && !is_in_class(CharClass::White, v[n])
        invariant
            n <= v@.len(),
            word_len(v@) == n + word_len(v@.skip(n as int)),
        decreases v.len() - n,
    {
        assert(v@.skip(n as int).drop_first() =~= v@.skip(n + 1));
        n += 1;
    }
    n
}

/// Cuts `v` into words.
pub fn words_of<'a>(v: &'a [char]) -> (r: Vec<&'a [char]>)
    ensures
        parts(r@) == words(v@),
{
    let mut r: Vec<&'a [char]> = Vec::new();
    let mut rest: &'a [char] = v;
    loop
        invariant
            words(v@) =~= parts(r@) + words(rest@),
        decreases rest@.len(),
    {
        let ghost before = parts(r@);
        let t: &'a [char] = trimmed_start(rest, CharClass::White);
        proof {
            lemma_trim_start_len(rest@, CharClass::White);
            lemma_word_len(t@);
        }
        if t.len() == 0 {
            return r;
        }
        let n: usize = count_word(t);
        let piece: &'a [char] = slice_subrange(t, 0, n);
        let tail: &'a [char] = slice_subrange(t, n, t.len());
        assert(piece@ =~= t@.take(n as int));
        assert(tail@ =~= t@.skip(n as int));
        r.push(piece);
        assert(parts(r@) =~= before.push(piece@));
        assert(parts(r@) + words(tail@) =~= before + words(rest@));
        rest = tail;
    }
}

// --- laws -------------------------------------------------------------------

/// What stands before the first line feed is the first line, without the carriage return that
/// it may end with; the other lines are those of what follows the line feed.
pub proof fn line_feed_ends_a_line(a: Seq<char>, b: Seq<char>)
    requires
        !a.contains('\n'),
    ensures
        lines(a + seq!['\n'] + b) == seq![
            if a.len() > 0 && a.last() == '\r' {
                a.drop_last()
            } else {
                a
            },
        ] + lines(b),
{
    lemma_find_after(a, '\n', b);
}

/// The last line needs no line feed; nothing has no lines.
pub proof fn last_line_needs_no_line_feed(a: Seq<char>)
    requires
        !a.contains('\n'),
    ensures
        lines(a) == if a.len() == 0 {
            seq![]
        } else {
            seq![a]
        },
{
    assert forall|j: int| 0 <= j < a.len() implies a[j] != '\n' by {
        assert(a.contains(a[j]));
    }
    lemma_find_none(a, '\n');
}

/// A text of these lines, each with a line feed behind it.
pub open spec fn of_lines(ls: Seq<Seq<char>>) -> Seq<char>
    decreases ls.len(),
{
    if ls.len() == 0 {
        seq![]
    } else {
        ls[0] + seq!['\n'] + of_lines(ls.drop_first())
    }
}

/// The text can be a line: there is no line feed in it, and no carriage return at its end.
pub open spec fn is_line(s: Seq<char>) -> bool {
    !s.contains('\n') && (s.len() > 0 ==> s.last() != '\r')
}

/// A text of lines has these lines, in order.
pub proof fn lines_read_back(ls: Seq<Seq<char>>)
    requires
        forall|i: int| 0 <= i < ls.len() ==> is_line(#[trigger] ls[i]),
    ensures
        lines(of_lines(ls)) == ls,
    decreases ls.len(),
{
    if ls.len() > 0 {
        let rest = ls.drop_first();
        assert(is_line(ls[0]));
        assert forall|i: int| 0 <= i < rest.len() implies is_line(#[trigger] rest[i]) by {
            assert(rest[i] == ls[i + 1]);
        }
        lines_read_back(rest);
        line_feed_ends_a_line(ls[0], of_lines(rest));
        assert(seq![ls[0]] + rest =~= ls);
    } else {
        assert(lines(of_lines(ls)) =~= ls);
    }
}

proof fn lemma_word_len_is(a: Seq<char>, b: Seq<char>)
    requires
        forall|i: int| 0 <= i < a.len() ==> !in_class(CharClass::White, #[trigger] a[i]),
        b.len() > 0 ==> in_class(CharClass::White, b[0]),
    ensures
        word_len(a + b) == a.len(),
    decreases a.len(),
{
    if a.len() == 0 {
        assert(a + b =~= b);
    } else {
        let rest = a.drop_first();
        assert forall|i: int| 0 <= i < rest.len() implies !in_class(
            CharClass::White,
            #[trigger] rest[i],
        ) by {
            assert(rest[i] == a[i + 1]);
        }
        lemma_word_len_is(rest, b);
        assert((a + b)[0] == a[0]);
        assert((a + b).drop_first() =~= rest + b);
    }
}

/// What stands before the first white space is the first word; the other words are those of
/// what follows.
pub proof fn white_space_ends_a_word(a: Seq<char>, b: Seq<char>)
    requires
        a.len() > 0,
        forall|i: int| 0 <= i < a.len() ==> !in_class(CharClass::White, #[trigger] a[i]),
        b.len() > 0 ==> in_class(CharClass::White, b[0]),
    ensures
        words(a + b) == seq![a] + words(b),
{
    let s = a + b;
    assert(s[0] == a[0]);
    assert(trim_start(s, CharClass::White) == s);
    lemma_word_len_is(a, b);
    assert(s.take(a.len() as int) =~= a);
    assert(s.skip(a.len() as int) =~= b);
}

/// White space before the first word makes no difference.
pub proof fn white_space_before_words_is_skipped(w: Seq<char>, s: Seq<char>)
    requires
        forall|i: int| 0 <= i < w.len() ==> in_class(CharClass::White, #[trigger] w[i]),
    ensures
        words(w + s) == words(s),
{
    lemma_trim_start_pad(w, s, CharClass::White);
}

/// These words, with a blank between each two.
pub open spec fn of_words(ws: Seq<Seq<char>>) -> Seq<char>
    decreases ws.len(),
{
    if ws.len() == 0 {
        seq![]
    } else if ws.len() == 1 {
        ws[0]
    } else {
        ws[0] + (seq![' '] + of_words(ws.drop_first()))
    }
}

/// The text can be a word: it is not empty, and holds no white space.
pub open spec fn is_word(s: Seq<char>) -> bool {
    s.len() > 0 && forall|i: int| 0 <= i < s.len() ==> !in_class(CharClass::White, #[trigger] s[i])
}

/// A text of words has these words, in order.
pub proof fn words_read_back(ws: Seq<Seq<char>>)
    requires
        forall|i: int| 0 <= i < ws.len() ==> is_word(#[trigger] ws[i]),
    ensures
        words(of_words(ws)) == ws,
    decreases ws.len(),
{
    if ws.len() == 0 {
        assert(words(of_words(ws)) =~= ws);
    } else if ws.len() == 1 {
        let none = Seq::<char>::empty();
        assert(is_word(ws[0]));
        white_space_ends_a_word(ws[0], none);
        assert(ws[0] + none =~= ws[0]);
        assert(words(none) =~= seq![]);
        assert(seq![ws[0]] + words(none) =~= ws);
    } else {
        let rest = ws.drop_first();
        assert(is_word(ws[0]));
        assert forall|i: int| 0 <= i < rest.len() implies is_word(#[trigger] rest[i]) by {
            assert(rest[i] == ws[i + 1]);
        }
        words_read_back(rest);
        let b = seq![' '] + of_words(rest);
        white_space_ends_a_word(ws[0], b);
        white_space_before_words_is_skipped(seq![' '], of_words(rest));
        assert(seq![ws[0]] + rest =~= ws);
    }
}

/// Parts, with a separator between each two.
pub open spec fn of_parts<T>(p: Seq<Seq<T>>, c: T) -> Seq<T>
    decreases p.len(),
{
    if p.len() == 0 {
        seq![]
    } else if p.len() == 1 {
        p[0]
    } else {
        p[0] + seq![c] + of_parts(p.drop_first(), c)
    }
}

/// The parts of a text hold no separator, and make up the text again with one between each two.
pub proof fn parts_make_up_the_text<T>(s: Seq<T>, c: T)
    ensures
        split(s, c).len() > 0,
        of_parts(split(s, c), c) == s,
        forall|i: int| 0 <= i < split(s, c).len() ==> !(#[trigger] split(s, c)[i]).contains(c),
    decreases s.len(),
{
    lemma_find(s, c);
    let p = split(s, c);
    match find(s, c) {
        Some(i) => {
            let rest = s.skip(i + 1);
            parts_make_up_the_text(rest, c);
            assert(p.drop_first() =~= split(rest, c));
            assert(p.len() > 1);
            assert(s.take(i) + seq![c] + rest =~= s);
            assert forall|k: int| 0 <= k < p.len() implies !(#[trigger] p[k]).contains(c) by {
                if k > 0 {
                    assert(p[k] == split(rest, c)[k - 1]);
                } else {
                    assert(p[0] == s.take(i));
                }
            }
        },
        None => {
            assert(p =~= seq![s]);
        },
    }
}

/// White space behind the last word makes no difference.
pub proof fn white_space_behind_words_is_skipped(s: Seq<char>, w: Seq<char>)
    requires
        forall|i: int| 0 <= i < w.len() ==> in_class(CharClass::White, #[trigger] w[i]),
    ensures
        words(s + w) == words(s),
    decreases s.len(),
{
    if s.len() == 0 {
        let none = Seq::<char>::empty();
        assert(s + w =~= w + none);
        white_space_before_words_is_skipped(w, none);
        assert(s =~= none);
    } else if in_class(CharClass::White, s[0]) {
        let one = seq![s[0]];
        let rest = s.drop_first();
        assert(s =~= one + rest);
        assert(s + w =~= one + (rest + w));
        white_space_before_words_is_skipped(one, rest);
        white_space_before_words_is_skipped(one, rest + w);
        white_space_behind_words_is_skipped(rest, w);
    } else {
        let n = word_len(s) as int;
        lemma_word_len(s);
        lemma_word_stops(s);
        let a = s.take(n);
        let b = s.skip(n);
        assert(s =~= a + b);
        assert forall|i: int| 0 <= i < a.len() implies !in_class(CharClass::White, #[trigger] a[i])
            by {
            assert(a[i] == s[i]);
        }
        white_space_ends_a_word(a, b);
        assert(s + w =~= a + (b + w));
        white_space_ends_a_word(a, b + w);
        white_space_behind_words_is_skipped(b, w);
    }
}

proof fn lemma_word_stops(s: Seq<char>)
    ensures
        word_len(s) <= s.len(),
        word_len(s) < s.len() ==> in_class(CharClass::White, s[word_len(s) as int]),
    decreases s.len(),
{
    if s.len() > 0 && !in_class(CharClass::White, s[0]) {
        lemma_word_stops(s.drop_first());
    }
}

/// Trimming a text does not change its words.
pub proof fn trimmed_text_has_the_same_words(s: Seq<char>)
    ensures
        words(trim(s)) == words(s),
{
    let t = trim_start(s, CharClass::White);
    let (w, r) = lemma_trim_start_split(s);
    white_space_before_words_is_skipped(w, r);
    let (u, v) = lemma_trim_end_split(t);
    white_space_behind_words_is_skipped(u, v);
}

proof fn lemma_trim_start_split(s: Seq<char>) -> (r: (Seq<char>, Seq<char>))
    ensures
        s == r.0 + r.1,
        r.1 == trim_start(s, CharClass::White),
        forall|i: int| 0 <= i < r.0.len() ==> in_class(CharClass::White, #[trigger] r.0[i]),
    decreases s.len(),
{
    let none = Seq::<char>::empty();
    if s.len() > 0 && in_class(CharClass::White, s[0]) {
        let (w, t) = lemma_trim_start_split(s.drop_first());
        let x = seq![s[0]] + w;
        assert(s =~= seq![s[0]] + s.drop_first());
        assert(s =~= x + t);
        assert forall|i: int| 0 <= i < x.len() implies in_class(CharClass::White, #[trigger] x[i])
            by {
            if i > 0 {
                assert(x[i] == w[i - 1]);
            }
        }
        (x, t)
    } else {
        assert(s =~= none + s);
        (none, s)
    }
}

proof fn lemma_trim_end_split(s: Seq<char>) -> (r: (Seq<char>, Seq<char>))
    ensures
        s == r.0 + r.1,
        r.0 == trim_end(s, CharClass::White),
        forall|i: int| 0 <= i < r.1.len() ==> in_class(CharClass::White, #[trigger] r.1[i]),
    decreases s.len(),
{
    let none = Seq::<char>::empty();
    if s.len() > 0 && in_class(CharClass::White, s.last()) {
        let (t, w) = lemma_trim_end_split(s.drop_last());
        let x = w.push(s.last());
        assert(s =~= s.drop_last().push(s.last()));
        assert(s =~= t + x);
        assert forall|i: int| 0 <= i < x.len() implies in_class(CharClass::White, #[trigger] x[i])
            by {
            if i < w.len() {
                assert(x[i] == w[i]);
            }
        }
        (t, x)
    } else {
        assert(s =~= s + none);
        (s, none)
    }
}

} // verus!
