//! Unsigned numbers as text: reading and writing decimal, writing bytes in hexadecimal.

use vstd::prelude::*;

verus! {

/// A decimal digit.
pub open spec fn is_digit(c: char) -> bool {
    '0' <= c <= '9'
}

/// The number that a decimal digit stands for.
pub open spec fn digit_value(c: char) -> nat {
    (c as u32 - 48) as nat
}

/// Every character is a decimal digit.
pub open spec fn all_digits(s: Seq<char>) -> bool {
    forall|i: int| 0 <= i < s.len() ==> is_digit(#[trigger] s[i])
}

/// The number that a text of decimal digits stands for.
pub open spec fn value(s: Seq<char>) -> nat
    decreases s.len(),
{
    if s.len() == 0 {
        0
    } else {
        value(s.drop_last()) * 10 + digit_value(s.last())
    }
}

/// A text without the one plus sign that it may start with.
pub open spec fn without_plus(s: Seq<char>) -> Seq<char> {
    if s.len() > 0 && s[0] == '+' {
        s.drop_first()
    } else {
        s
    }
}

/// Reads one or more decimal digits, with no sign, that make a number of at most `max`.
pub open spec fn parse_digits(t: Seq<char>, max: nat) -> Option<nat> {
    if t.len() > 0 && all_digits(t) && value(t) <= max {
        Some(value(t))
    } else {
        None
    }
}

/// Reads an unsigned number of at most `max`: an optional plus sign, then one or
/// more decimal digits and nothing else.
pub open spec fn parse_unsigned(s: Seq<char>, max: nat) -> Option<nat> {
    parse_digits(without_plus(s), max)
}

/// More digits never make a smaller number.
pub proof fn lemma_value_take(s: Seq<char>, i: int)
    requires
        0 <= i <= s.len(),
    ensures
        value(s.take(i)) <= value(s),
    decreases s.len() - i,
{
    if i == s.len() {
        assert(s.take(i) =~= s);
    } else {
        lemma_value_take(s, i + 1);
        assert(s.take(i + 1).drop_last() =~= s.take(i));
    }
}

/// Reads the digits of `v` as a number of at most `max`.
pub fn read_digits(v: &[char], max: u64) -> (r: Option<u64>)
    ensures
        match r {
            Some(n) => parse_digits(v@, max as nat) == Some(n as nat),
            None => parse_digits(v@, max as nat) is None,
        },
{
    if v.len() == 0 {
        return None;
    }
    let mut acc: u64 = 0;
    let mut i: usize = 0;
    while i < v.len()
        invariant
            0 < v@.len(),
            i <= v@.len(),
            acc <= max,
            acc == value(v@.take(i as int)),
            forall|j: int| 0 <= j < i ==> is_digit(#[trigger] v@[j]),
        decreases v.len() - i,
    {
        let c: char = v[i];
        if !(c >= '0' && c <= '9') {
            assert(!is_digit(v@[i as int]));
            return None;
        }
        let d: u32 = c as u32 - 48;
        let next: u128 = acc as u128 * 10 + d as u128;
        assert(v@.take(i + 1).drop_last() =~= v@.take(i as int));
        if next > max as u128 {
            proof {
                lemma_value_take(v@, i + 1);
            }
            return None;
        }
        acc = next as u64;
        i += 1;
    }
    assert(v@.take(v@.len() as int) =~= v@);
    Some(acc)
}

/// Reads `v` as an unsigned number of at most `max`.
pub fn read_unsigned(v: &[char], max: u64) -> (r: Option<u64>)
    ensures
        match r {
            Some(n) => parse_unsigned(v@, max as nat) == Some(n as nat),
            None => parse_unsigned(v@, max as nat) is None,
        },
{
    if v.len() > 0 && v[0] == '+' {
        let t: &[char] = vstd::slice::slice_subrange(v, 1, v.len());
        assert(v@.subrange(1, v@.len() as int) =~= v@.drop_first());
        read_digits(t, max)
    } else {
        read_digits(v, max)
    }
}

/// Reads `v` as a `u16`.
pub fn read_u16(v: &[char]) -> (r: Option<u16>)
    ensures
        match r {
            Some(n) => parse_unsigned(v@, u16::MAX as nat) == Some(n as nat),
            None => parse_unsigned(v@, u16::MAX as nat) is None,
        },
{
    match read_unsigned(v, u16::MAX as u64) {
        Some(n) => Some(n as u16),
        None => None,
    }
}

// --- writing ----------------------------------------------------------------

/// The decimal digit for a number below ten.
pub open spec fn digit_char(d: nat) -> char {
    ((48 + d) as u8) as char
}

/// The decimal text of `n`, without leading zeros.
pub open spec fn digits(n: nat) -> Seq<char>
    decreases n,
{
    if n < 10 {
        seq![digit_char(n)]
    } else {
        digits(n / 10).push(digit_char(n % 10))
    }
}

/// The decimal text of a number is made of digits and stands for that number.
pub proof fn lemma_digits(n: nat)
    ensures
        digits(n).len() > 0,
        all_digits(digits(n)),
        value(digits(n)) == n,
        n > 0 ==> digits(n)[0] != '0',
    decreases n,
{
    if n < 10 {
        assert(digits(n).drop_last() =~= Seq::<char>::empty());
        assert(value(digits(n).drop_last()) == 0);
    } else {
        lemma_digits(n / 10);
        assert(digits(n).drop_last() =~= digits(n / 10));
    }
}

/// Reading the decimal text of a number gives the number back.
pub proof fn lemma_parse_digits(n: nat, max: nat)
    requires
        n <= max,
    ensures
        parse_unsigned(digits(n), max) == Some(n),
        parse_digits(digits(n), max) == Some(n),
{
    lemma_digits(n);
    assert(is_digit(digits(n)[0]));
}

/// The decimal text of a number holds no other characters than digits.
pub proof fn lemma_digits_free(n: nat, c: char)
    requires
        !is_digit(c),
    ensures
        !digits(n).contains(c),
{
    lemma_digits(n);
}

/// A number below a thousand has at most three digits.
pub proof fn lemma_digits_short(n: nat)
    requires
        n < 1000,
    ensures
        digits(n).len() <= 3,
        digits(n).len() > 1 ==> n > 0,
{
    reveal_with_fuel(digits, 3);
}

/// Appends the decimal text of `n` to `s`.
pub fn push_decimal(s: &mut String, n: u64)
    ensures
        final(s)@ == old(s)@ + digits(n as nat),
    decreases n,
{
    if n >= 10 {
        push_decimal(s, n / 10);
    }
    let c: char = (48 + (n % 10) as u8) as char;
    s.push(c);
    assert(s@ =~= old(s)@ + digits(n as nat));
}

/// The hexadecimal digit, in lower case, for a number below sixteen.
pub open spec fn hex_char(d: nat) -> char {
    if d < 10 {
        ((48 + d) as u8) as char
    } else {
        ((87 + d) as u8) as char
    }
}

/// A byte as two hexadecimal digits.
pub open spec fn hex_byte(b: u8) -> Seq<char> {
    seq![hex_char((b / 16) as nat), hex_char((b % 16) as nat)]
}

/// Appends `b` to `s` as two hexadecimal digits.
pub fn push_hex(s: &mut String, b: u8)
    ensures
        final(s)@ == old(s)@ + hex_byte(b),
{
    let hi: u8 = b / 16;
    let lo: u8 = b % 16;
    let a: char = if hi < 10 { (48 + hi) as char } else { (87 + hi) as char };
    let c: char = if lo < 10 { (48 + lo) as char } else { (87 + lo) as char };
    s.push(a);
    s.push(c);
    assert(s@ =~= old(s)@ + hex_byte(b));
}

/// The decimal texts of `v`, each but the first after a comma and a space.
pub open spec fn number_list(v: Seq<nat>) -> Seq<char>
    decreases v.len(),
{
    if v.len() == 0 {
        Seq::empty()
    } else if v.len() == 1 {
        digits(v[0])
    } else {
        number_list(v.drop_last()) + seq![',', ' '] + digits(v.last())
    }
}

/// The numbers of a list of bytes.
pub open spec fn byte_numbers(b: Seq<u8>) -> Seq<nat> {
    Seq::new(b.len(), |i: int| b[i] as nat)
}

/// The numbers of a list of positions.
pub open spec fn index_numbers(v: Seq<usize>) -> Seq<nat> {
    Seq::new(v.len(), |i: int| v[i] as nat)
}

/// Appends the numbers of `v` to `s`, with a comma and a space between each two.
pub fn push_indices(s: &mut String, v: &[usize])
    ensures
        final(s)@ == old(s)@ + number_list(index_numbers(v@)),
{
    let ghost start = s@;
    let ghost all = index_numbers(v@);
    let mut i: usize = 0;
    assert(s@ =~= start + number_list(all.take(0)));
    while i < v.len()
        invariant
            i <= v@.len(),
            all == index_numbers(v@),
            s@ == start + number_list(all.take(i as int)),
        decreases v.len() - i,
    {
        assert(all.take(i + 1).drop_last() =~= all.take(i as int));
        if i > 0 {
            s.push(',');
            s.push(' ');
        }
        push_decimal(s, v[i] as u64);
        assert(s@ =~= start + number_list(all.take(i + 1)));
        i += 1;
    }
    assert(all.take(all.len() as int) =~= all);
}

/// Appends the numbers of the bytes `v` to `s`, with a comma and a space between
/// each two.
pub fn push_bytes(s: &mut String, v: &[u8])
    ensures
        final(s)@ == old(s)@ + number_list(byte_numbers(v@)),
{
    let ghost start = s@;
    let ghost all = byte_numbers(v@);
    let mut i: usize = 0;
    assert(s@ =~= start + number_list(all.take(0)));
    while i < v.len()
        invariant
            i <= v@.len(),
            all == byte_numbers(v@),
            s@ == start + number_list(all.take(i as int)),
        decreases v.len() - i,
    {
        assert(all.take(i + 1).drop_last() =~= all.take(i as int));
        if i > 0 {
            s.push(',');
            s.push(' ');
        }
        push_decimal(s, v[i] as u64);
        assert(s@ =~= start + number_list(all.take(i + 1)));
        i += 1;
    }
    assert(all.take(all.len() as int) =~= all);
}

// --- laws -------------------------------------------------------------------

/// So many zeros.
pub open spec fn zeros(k: nat) -> Seq<char> {
    Seq::new(k, |i: int| '0')
}

proof fn lemma_value_zeros(k: nat, s: Seq<char>)
    ensures
        value(zeros(k) + s) == value(s),
    decreases s.len(), k,
{
    let t = zeros(k) + s;
    if s.len() == 0 {
        if k > 0 {
            lemma_value_zeros((k - 1) as nat, s);
            assert(t.drop_last() =~= zeros((k - 1) as nat) + s);
            assert(t.last() == '0');
        } else {
            assert(t =~= s);
        }
    } else {
        lemma_value_zeros(k, s.drop_last());
        assert(t.drop_last() =~= zeros(k) + s.drop_last());
        assert(t.last() == s.last());
    }
}

/// A number up to the greatest that is allowed is read from its digits, with or without a
/// plus sign before them, and whatever zeros stand before them.
pub proof fn number_is_read(n: nat, max: nat, k: nat)
    requires
        n <= max,
    ensures
        parse_unsigned(zeros(k) + digits(n), max) == Some(n),
        parse_unsigned(seq!['+'] + zeros(k) + digits(n), max) == Some(n),
        parse_digits(zeros(k) + digits(n), max) == Some(n),
{
    let d = digits(n);
    let t = zeros(k) + d;
    lemma_digits(n);
    lemma_value_zeros(k, d);
    assert forall|i: int| 0 <= i < t.len() implies is_digit(#[trigger] t[i]) by {
        if i >= k {
            assert(t[i] == d[i - k]);
        }
    }
    assert(is_digit(t[0]));
    assert((seq!['+'] + zeros(k) + d).drop_first() =~= t);
}

/// A number above the greatest that is allowed is not read, and neither is a text with
/// another character than a digit in it, but for one plus sign at its start, nor one without
/// any digit.
pub proof fn other_text_is_no_number(n: nat, max: nat, s: Seq<char>, i: int)
    ensures
        n > max ==> parse_unsigned(digits(n), max) is None,
        0 <= i < s.len() && !('0' <= s[i] <= '9') && (i > 0 || s[0] != '+') ==> parse_unsigned(
            s,
            max,
        ) is None,
        parse_unsigned(seq![], max) is None,
        parse_unsigned(seq!['+'], max) is None,
{
    lemma_digits(n);
    assert(is_digit(digits(n)[0]));
    if 0 <= i < s.len() && !('0' <= s[i] <= '9') && (i > 0 || s[0] != '+') {
        let t = without_plus(s);
        if s[0] == '+' {
            assert(t[i - 1] == s[i]);
        } else {
            assert(t[i] == s[i]);
        }
    }
}

/// A number above nine is written as the number of its tens, and then one more digit; one
/// below ten as that digit.
pub proof fn number_is_written_in_tens(n: nat, d: nat)
    requires
        d < 10,
    ensures
        digits(d) == seq![(('0' as u8 + d) as u8) as char],
        n > 0 ==> digits(10 * n + d) == digits(n) + digits(d),
{
    if n > 0 {
        assert((10 * n + d) / 10 == n);
        assert((10 * n + d) % 10 == d);
        assert(digits(10 * n + d) =~= digits(n) + digits(d));
    }
}

/// A byte in hexadecimal is two digits, of which the first counts sixteen times.
pub proof fn byte_is_two_hexadecimal_digits(b: u8)
    ensures
        ({
            let h = hex_byte(b);
            let digit = |d: int|
                if d < 10 {
                    (('0' as u8 + d) as u8) as char
                } else {
                    (('a' as u8 + d - 10) as u8) as char
                };
            h.len() == 2 && h[0] == digit(b as int / 16) && h[1] == digit(b as int % 16)
        }),
{
}

/// Numbers are listed in their order, with a comma and a blank between each two.
pub proof fn numbers_are_listed(v: Seq<nat>, n: nat)
    ensures
        number_list(seq![]).len() == 0,
        number_list(seq![n]) == digits(n),
        v.len() > 0 ==> number_list(v.push(n)) == number_list(v) + seq![',', ' '] + digits(n),
{
    assert(v.push(n).drop_last() =~= v);
}

} // verus!
