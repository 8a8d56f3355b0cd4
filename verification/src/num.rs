//! Numbers as text: decimal and octal digits, written and read back.

use vstd::prelude::*;

verus! {

/// The character for a digit below ten.
pub open spec fn digit_char(d: nat) -> char {
    if d == 0 {
        '0'
    } else if d == 1 {
        '1'
    } else if d == 2 {
        '2'
    } else if d == 3 {
        '3'
    } else if d == 4 {
        '4'
    } else if d == 5 {
        '5'
    } else if d == 6 {
        '6'
    } else if d == 7 {
        '7'
    } else if d == 8 {
        '8'
    } else {
        '9'
    }
}

/// The value of a digit character, or `None` for any other character.
pub open spec fn digit_value(c: char) -> Option<nat> {
    if c == '0' {
        Some(0)
    } else if c == '1' {
        Some(1)
    } else if c == '2' {
        Some(2)
    } else if c == '3' {
        Some(3)
    } else if c == '4' {
        Some(4)
    } else if c == '5' {
        Some(5)
    } else if c == '6' {
        Some(6)
    } else if c == '7' {
        Some(7)
    } else if c == '8' {
        Some(8)
    } else if c == '9' {
        Some(9)
    } else {
        None
    }
}

/// `c` is a digit of the given base (8 or 10).
pub open spec fn is_digit(c: char, base: nat) -> bool {
    digit_value(c) is Some && digit_value(c)->0 < base
}

/// Every character of `s` is a digit of the base.
pub open spec fn all_digits(s: Seq<char>, base: nat) -> bool {
    forall|i: int| 0 <= i < s.len() ==> is_digit(#[trigger] s[i], base)
}

/// The digits of `n` in the given base, most significant first, without
/// leading zeros (a single `0` for zero).
pub open spec fn digits_of(n: nat, base: nat) -> Seq<char>
    decreases n,
{
    if base == 10 && n >= 10 {
        digits_of(n / 10, 10).push(digit_char(n % 10))
    } else if base == 8 && n >= 8 {
        digits_of(n / 8, 8).push(digit_char(n % 8))
    } else {
        seq![digit_char(n)]
    }
}

/// The number that a sequence of digits denotes in the given base. A
/// character that is no digit counts as zero.
pub open spec fn value_of(s: Seq<char>, base: nat) -> nat
    decreases s.len(),
{
    if s.len() == 0 {
        0
    } else {
        value_of(s.drop_last(), base) * base + match digit_value(s.last()) {
            Some(d) => d,
            None => 0,
        }
    }
}

/// Reading back the digits of a number gives the number.
pub proof fn lemma_digits_round_trip(n: nat, base: nat)
    requires
        base == 8 || base == 10,
    ensures
        value_of(digits_of(n, base), base) == n,
        all_digits(digits_of(n, base), base),
        digits_of(n, base).len() >= 1,
    decreases n,
{
    if n < base {
        let s = digits_of(n, base);
        assert(s.drop_last() =~= Seq::<char>::empty());
        assert(value_of(s.drop_last(), base) == 0);
        assert(s.last() == digit_char(n));
        assert(digit_value(digit_char(n)) == Some(n));
    } else {
        lemma_digits_round_trip(n / base, base);
        let head = digits_of(n / base, base);
        let s = digits_of(n, base);
        assert(s.drop_last() =~= head);
        assert(s.last() == digit_char(n % base));
        assert(digit_value(digit_char(n % base)) == Some(n % base));
        assert(n == (n / base) * base + n % base) by (nonlinear_arith)
            requires
                base > 0,
        ;
        assert forall|i: int| 0 <= i < s.len() implies is_digit(#[trigger] s[i], base) by {
            if i < head.len() {
                assert(s[i] == head[i]);
            }
        }
    }
}

/// A prefix of a digit sequence denotes no more than the whole.
pub proof fn lemma_value_prefix(s: Seq<char>, i: int, base: nat)
    requires
        0 <= i <= s.len(),
        base >= 1,
    ensures
        value_of(s.take(i), base) <= value_of(s, base),
    decreases s.len() - i,
{
    if i < s.len() {
        lemma_value_prefix(s, i + 1, base);
        assert(s.take(i + 1).drop_last() =~= s.take(i));
        let v = value_of(s.take(i), base);
        assert(v * base >= v) by (nonlinear_arith)
            requires
                base >= 1,
                v >= 0,
        ;
    } else {
        assert(s.take(i) =~= s);
    }
}

/// The character of a digit below ten.
pub fn digit_to_char(d: u64) -> (c: char)
    requires
        d < 10,
    ensures
        c == digit_char(d as nat),
{
    if d == 0 {
        '0'
    } else if d == 1 {
        '1'
    } else if d == 2 {
        '2'
    } else if d == 3 {
        '3'
    } else if d == 4 {
        '4'
    } else if d == 5 {
        '5'
    } else if d == 6 {
        '6'
    } else if d == 7 {
        '7'
    } else if d == 8 {
        '8'
    } else {
        '9'
    }
}

/// The value of a digit character.
pub fn char_to_digit(c: char) -> (d: Option<u64>)
    ensures
        match d {
            Some(v) => digit_value(c) == Some(v as nat),
            None => digit_value(c) is None,
        },
{
    if c == '0' {
        Some(0)
    } else if c == '1' {
        Some(1)
    } else if c == '2' {
        Some(2)
    } else if c == '3' {
        Some(3)
    } else if c == '4' {
        Some(4)
    } else if c == '5' {
        Some(5)
    } else if c == '6' {
        Some(6)
    } else if c == '7' {
        Some(7)
    } else if c == '8' {
        Some(8)
    } else if c == '9' {
        Some(9)
    } else {
        None
    }
}

/// Appends the digits of `n` in the given base to `out`.
pub fn push_digits(n: u64, base: u64, out: &mut Vec<char>)
    requires
        base == 8 || base == 10,
    ensures
        final(out)@ == old(out)@ + digits_of(n as nat, base as nat),
    decreases n,
{
    if n >= base {
        push_digits(n / base, base, out);
    }
    out.push(digit_to_char(n % base));
    assert(final(out)@ =~= old(out)@ + digits_of(n as nat, base as nat));
}

/// The decimal digits of `n`.
pub fn u64_to_dec(n: u64) -> (v: Vec<char>)
    ensures
        v@ == digits_of(n as nat, 10),
{
    let mut v: Vec<char> = Vec::new();
    push_digits(n, 10, &mut v);
    assert(v@ =~= digits_of(n as nat, 10));
    v
}

/// The decimal text of a signed number: a minus sign before the digits of
/// the magnitude where the number is negative.
pub open spec fn signed_dec(n: int) -> Seq<char> {
    if n < 0 {
        seq!['-'] + digits_of((-n) as nat, 10)
    } else {
        digits_of(n as nat, 10)
    }
}

/// The decimal text of `n`.
pub fn i64_to_dec(n: i64) -> (v: Vec<char>)
    ensures
        v@ == signed_dec(n as int),
{
    let mut v: Vec<char> = Vec::new();
    if n < 0 {
        v.push('-');
        let mag: u64 = if n == i64::MIN {
            9223372036854775808u64
        } else {
            (-n) as u64
        };
        push_digits(mag, 10, &mut v);
        assert(v@ =~= signed_dec(n as int));
    } else {
        push_digits(n as u64, 10, &mut v);
        assert(v@ =~= signed_dec(n as int));
    }
    v
}

/// The octal digits of `n`, with zeros in front up to a width of three.
pub open spec fn octal3(n: nat) -> Seq<char> {
    let d = digits_of(n, 8);
    if d.len() == 1 {
        seq!['0', '0'] + d
    } else if d.len() == 2 {
        seq!['0'] + d
    } else {
        d
    }
}

/// The octal text of `n`, at least three digits wide.
pub fn u32_to_octal3(n: u32) -> (v: Vec<char>)
    ensures
        v@ == octal3(n as nat),
{
    let mut d: Vec<char> = Vec::new();
    push_digits(n as u64, 8, &mut d);
    assert(d@ =~= digits_of(n as nat, 8));
    proof {
        lemma_digits_round_trip(n as nat, 8);
    }
    let mut v: Vec<char> = Vec::new();
    if d.len() == 1 {
        v.push('0');
        v.push('0');
    } else if d.len() == 2 {
        v.push('0');
    }
    crate::text::extend_chars(&mut v, d.as_slice());
    assert(v@ =~= octal3(n as nat));
    v
}

/// The digits of an unsigned number's text: the text itself, or what
/// follows one leading plus sign.
pub open spec fn unsigned_body(s: Seq<char>) -> Seq<char> {
    if s.len() > 0 && s[0] == '+' {
        s.drop_first()
    } else {
        s
    }
}

/// What reading `s` as an unsigned number in the given base gives: the
/// value, where the text is one optional plus sign and then at least one
/// digit, and the value is at most `max`.
pub open spec fn parse_unsigned(s: Seq<char>, base: nat, max: nat) -> Option<nat> {
    let body = unsigned_body(s);
    if body.len() > 0 && all_digits(body, base) && value_of(body, base) <= max {
        Some(value_of(body, base))
    } else {
        None
    }
}

/// Reads an unsigned number in the given base, at most `max`.
pub fn read_unsigned(s: &[char], base: u64, max: u64) -> (r: Option<u64>)
    requires
        base == 8 || base == 10,
    ensures
        match r {
            Some(v) => parse_unsigned(s@, base as nat, max as nat) == Some(v as nat),
            None => parse_unsigned(s@, base as nat, max as nat) is None,
        },
{
    let start: usize = if s.len() > 0 && s[0] == '+' {
        1
    } else {
        0
    };
    let ghost body = unsigned_body(s@);
    assert(body =~= s@.skip(start as int));
    if start >= s.len() {
        return None;
    }
    let mut acc: u64 = 0;
    let mut i: usize = start;
    assert(body.take(0) =~= Seq::<char>::empty());
    while i < s.len()
        invariant
            start <= i <= s.len(),
            base == 8 || base == 10,
            body == s@.skip(start as int),
            body == unsigned_body(s@),
            all_digits(body.take(i - start), base as nat),
            acc as nat == value_of(body.take(i - start), base as nat),
            acc <= max,
        decreases s.len() - i,
    {
        let ghost k = i - start;
        let ghost next = body.take(k + 1);
        assert(next.drop_last() =~= body.take(k));
        assert(next.last() == s@[i as int]);
        let d = match char_to_digit(s[i]) {
            Some(d) => d,
            None => {
                assert(!is_digit(body[k], base as nat));
                return None;
            },
        };
        if d >= base {
            assert(!is_digit(body[k], base as nat));
            return None;
        }
        proof {
            lemma_value_prefix(body, k + 1, base as nat);
        }
        let grown = match acc.checked_mul(base) {
            Some(m) => m.checked_add(d),
            None => None,
        };
        match grown {
            Some(g) if g <= max => {
                acc = g;
            },
            _ => {
                assert(value_of(next, base as nat) > max);
                return None;
            },
        }
        assert forall|j: int| 0 <= j < next.len() implies is_digit(
            #[trigger] next[j],
            base as nat,
        ) by {
            if j < k {
                assert(next[j] == body.take(k)[j]);
            }
        }
        i += 1;
    }
    assert(body.take(s.len() - start) =~= body);
    Some(acc)
}

/// What reading `s` as a signed 64-bit decimal number gives: the value,
/// where the text is a minus sign and then at least one digit, or an
/// optional plus sign and then at least one digit, and the value fits.
pub open spec fn parse_signed(s: Seq<char>) -> Option<int> {
    if s.len() > 0 && s[0] == '-' {
        let body = s.drop_first();
        if body.len() > 0 && all_digits(body, 10) && value_of(body, 10) <= 0x8000_0000_0000_0000 {
            Some(-(value_of(body, 10) as int))
        } else {
            None
        }
    } else {
        match parse_unsigned(s, 10, i64::MAX as nat) {
            Some(v) => Some(v as int),
            None => None,
        }
    }
}

/// Reads a signed 64-bit decimal number.
pub fn read_signed(s: &[char]) -> (r: Option<i64>)
    ensures
        match r {
            Some(v) => parse_signed(s@) == Some(v as int),
            None => parse_signed(s@) is None,
        },
{
    if s.len() > 0 && s[0] == '-' {
        let body = vstd::slice::slice_subrange(s, 1, s.len());
        assert(body@ =~= s@.drop_first());
        if body.len() > 0 && body[0] == '+' {
            assert(!is_digit(body@[0], 10));
            return None;
        }
        assert(unsigned_body(body@) == body@);
        match read_unsigned(body, 10, 0x8000_0000_0000_0000) {
            Some(v) => {
                if v == 0x8000_0000_0000_0000 {
                    Some(i64::MIN)
                } else {
                    Some(-(v as i64))
                }
            },
            None => None,
        }
    } else {
        match read_unsigned(s, 10, 0x7fff_ffff_ffff_ffff) {
            Some(v) => Some(v as i64),
            None => None,
        }
    }
}

/// Reading back the decimal text of a signed number gives the number.
pub proof fn lemma_signed_round_trip(n: i64)
    ensures
        parse_signed(signed_dec(n as int)) == Some(n as int),
        signed_dec(n as int).len() >= 1,
        forall|i: int|
            0 <= i < signed_dec(n as int).len() ==> is_digit(#[trigger] signed_dec(n as int)[i], 10)
                || signed_dec(n as int)[i] == '-',
{
    if n < 0 {
        let d = digits_of((-n) as nat, 10);
        lemma_digits_round_trip((-n) as nat, 10);
        let s = signed_dec(n as int);
        assert(s.drop_first() =~= d);
        assert(s[0] == '-');
        assert forall|i: int| 0 <= i < s.len() implies is_digit(#[trigger] s[i], 10) || s[i]
            == '-' by {
            if i > 0 {
                assert(s[i] == d[i - 1]);
            }
        }
    } else {
        let d = digits_of(n as nat, 10);
        lemma_digits_round_trip(n as nat, 10);
        assert(is_digit(d[0], 10));
        assert(unsigned_body(d) == d);
    }
}

} // verus!
