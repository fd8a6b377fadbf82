//! Decimal text for the numeric comic identifier and the `num` field:
//! what a run of digits denotes, how an integer is written, and that the
//! two agree.

use vstd::prelude::*;

verus! {

pub open spec fn is_digit(c: char) -> bool {
    c == '0' || c == '1' || c == '2' || c == '3' || c == '4' || c == '5' || c == '6' || c == '7'
        || c == '8' || c == '9'
}

/// The value of one decimal digit.
pub open spec fn digit_val(c: char) -> int {
    if c == '0' {
        0
    } else if c == '1' {
        1
    } else if c == '2' {
        2
    } else if c == '3' {
        3
    } else if c == '4' {
        4
    } else if c == '5' {
        5
    } else if c == '6' {
        6
    } else if c == '7' {
        7
    } else if c == '8' {
        8
    } else {
        9
    }
}

/// The digit that denotes a value below ten.
pub open spec fn digit_char(d: int) -> char {
    if d == 0 {
        '0'
    } else if d == 1 {
        '1'
    } else if d == 2 {
        '2'
    } else if d == 3 {
        '3'
    } else if d == 4 {
        '4'
    } else if d == 5 {
        '5'
    } else if d == 6 {
        '6'
    } else if d == 7 {
        '7'
    } else if d == 8 {
        '8'
    } else {
        '9'
    }
}

/// The decimal digits of a non-negative number, most significant first.
pub open spec fn dec_digits(n: int) -> Seq<char>
    decreases n,
{
    if n <= 9 {
        seq![digit_char(n)]
    } else {
        dec_digits(n / 10).push(digit_char(n % 10))
    }
}

/// The decimal text of an integer: a minus sign for a negative one, then
/// its digits.
pub open spec fn dec_int(n: int) -> Seq<char> {
    if n < 0 {
        seq!['-'] + dec_digits(-n)
    } else {
        dec_digits(n)
    }
}

/// The value of a run of digits, read most significant first.
pub open spec fn digits_value(t: Seq<char>) -> int
    decreases t.len(),
{
    if t.len() == 0 {
        0
    } else {
        digits_value(t.drop_last()) * 10 + digit_val(t.last())
    }
}

/// How many digits the text starts with.
pub open spec fn count_digits(s: Seq<char>) -> nat
    decreases s.len(),
{
    if s.len() > 0 && is_digit(s[0]) {
        1 + count_digits(s.drop_first())
    } else {
        0
    }
}

pub proof fn lemma_dec_digits_shape(n: int)
    requires
        n >= 0,
    ensures
        dec_digits(n).len() >= 1,
        forall|k: int| 0 <= k < dec_digits(n).len() ==> is_digit(#[trigger] dec_digits(n)[k]),
        dec_digits(n)[0] == '0' ==> n == 0,
        n == 0 ==> dec_digits(n) == seq!['0'],
    decreases n,
{
    if n > 9 {
        lemma_dec_digits_shape(n / 10);
    }
}

pub proof fn lemma_digits_value_nonneg(t: Seq<char>)
    ensures
        digits_value(t) >= 0,
    decreases t.len(),
{
    if t.len() > 0 {
        lemma_digits_value_nonneg(t.drop_last());
        assert(digit_val(t.last()) >= 0);
    }
}

/// Reading back the digits of `n` yields `n`.
pub proof fn lemma_digits_value_of_dec(n: int)
    requires
        n >= 0,
    ensures
        digits_value(dec_digits(n)) == n,
    decreases n,
{
    if n <= 9 {
        let t = dec_digits(n);
        assert(t == seq![digit_char(n)]);
        assert(t.len() == 1);
        assert(t.last() == digit_char(n));
        assert(t.drop_last() =~= Seq::<char>::empty());
        assert(digits_value(t.drop_last()) == 0);
        assert(digits_value(t) == 0 * 10 + digit_val(digit_char(n)));
        assert(digit_val(digit_char(n)) == n);
    } else {
        lemma_digits_value_of_dec(n / 10);
        let t = dec_digits(n);
        assert(t == dec_digits(n / 10).push(digit_char(n % 10)));
        assert(t.drop_last() =~= dec_digits(n / 10));
        assert(t.last() == digit_char(n % 10));
        assert(digits_value(t) == digits_value(dec_digits(n / 10)) * 10 + digit_val(
            digit_char(n % 10),
        ));
        assert(digit_val(digit_char(n % 10)) == n % 10);
        assert(n / 10 * 10 + n % 10 == n);
    }
}

/// Growing a run of digits never shrinks its value.
pub proof fn lemma_digits_value_mono(t: Seq<char>, k: int)
    requires
        0 <= k <= t.len(),
    ensures
        digits_value(t) >= digits_value(t.take(k)),
    decreases t.len() - k,
{
    if k < t.len() {
        lemma_digits_value_nonneg(t.take(k));
        assert(t.take(k + 1).drop_last() =~= t.take(k));
        assert(t.take(k + 1).last() == t[k]);
        assert(digits_value(t.take(k + 1)) == digits_value(t.take(k)) * 10 + digit_val(t[k]));
        assert(digit_val(t[k]) >= 0);
        lemma_digits_value_mono(t, k + 1);
        assert(t.take(t.len() as int) =~= t);
    } else {
        assert(t.take(k) =~= t);
    }
}

/// A run of digits in front of anything else adds its length to the count.
pub proof fn lemma_count_digits_prefix(a: Seq<char>, b: Seq<char>)
    requires
        forall|k: int| 0 <= k < a.len() ==> is_digit(#[trigger] a[k]),
    ensures
        count_digits(a + b) == a.len() + count_digits(b),
    decreases a.len(),
{
    if a.len() == 0 {
        assert(a + b =~= b);
    } else {
        assert((a + b)[0] == a[0]);
        assert((a + b).drop_first() =~= a.drop_first() + b);
        lemma_count_digits_prefix(a.drop_first(), b);
    }
}

/// Reading a JSON integer: its value and how many characters it takes.
/// `None` where no digit follows, on a redundant leading zero, and on a
/// value outside the signed 64-bit range.
pub open spec fn parse_int(s: Seq<char>) -> Option<(int, nat)> {
    let neg = s.len() > 0 && s[0] == '-';
    let d = if neg {
        s.skip(1)
    } else {
        s
    };
    let n = count_digits(d);
    if n == 0 {
        None
    } else if d[0] == '0' && n > 1 {
        None
    } else {
        let m = digits_value(d.take(n as int));
        let v: int = if neg {
            -m
        } else {
            m
        };
        if -0x8000_0000_0000_0000 <= v && v <= 0x7FFF_FFFF_FFFF_FFFF {
            Some((v, if neg { (n + 1) as nat } else { n }))
        } else {
            None
        }
    }
}

/// Reading back the decimal text of a 64-bit integer yields that integer
/// and stops at the first character after it.
pub proof fn lemma_parse_int_dec(n: int, rest: Seq<char>)
    requires
        -0x8000_0000_0000_0000 <= n <= 0x7FFF_FFFF_FFFF_FFFF,
        rest.len() > 0 ==> !is_digit(rest[0]),
    ensures
        parse_int(dec_int(n) + rest) == Some((n, dec_int(n).len() as nat)),
{
    let s = dec_int(n) + rest;
    if n >= 0 {
        lemma_dec_digits_shape(n);
        assert(s[0] == dec_digits(n)[0]);
        assert(is_digit(s[0]));
        assert(s[0] != '-');
        lemma_count_digits_prefix(dec_digits(n), rest);
        assert(rest.len() > 0 ==> !is_digit(rest[0]));
        assert(count_digits(rest) == 0);
        let nd = count_digits(s);
        assert(nd == dec_digits(n).len());
        assert(s.take(nd as int) =~= dec_digits(n));
        lemma_digits_value_of_dec(n);
        assert(digits_value(s.take(nd as int)) == n);
        if s[0] == '0' {
            assert(n == 0);
            assert(nd == 1);
        }
    } else {
        let m = -n;
        lemma_dec_digits_shape(m);
        assert(dec_int(n) == seq!['-'] + dec_digits(m));
        assert(s[0] == '-');
        let d = s.skip(1);
        assert(d =~= dec_digits(m) + rest);
        lemma_count_digits_prefix(dec_digits(m), rest);
        assert(count_digits(rest) == 0);
        let nd = count_digits(d);
        assert(nd == dec_digits(m).len());
        assert(d.take(nd as int) =~= dec_digits(m));
        lemma_digits_value_of_dec(m);
        assert(digits_value(d.take(nd as int)) == m);
        assert(d[0] == dec_digits(m)[0]);
        if d[0] == '0' {
            assert(m == 0);
        }
        assert(dec_int(n).len() == nd + 1);
    }
}

/// Whether the character is a decimal digit, as executable code.
pub fn is_digit_exec(c: char) -> (r: bool)
    ensures
        r == is_digit(c),
{
    c == '0' || c == '1' || c == '2' || c == '3' || c == '4' || c == '5' || c == '6' || c == '7'
        || c == '8' || c == '9'
}

/// The value of one decimal digit, as executable code.
pub fn digit_val_exec(c: char) -> (d: u64)
    requires
        is_digit(c),
    ensures
        d == digit_val(c),
        d <= 9,
{
    if c == '0' {
        0
    } else if c == '1' {
        1
    } else if c == '2' {
        2
    } else if c == '3' {
        3
    } else if c == '4' {
        4
    } else if c == '5' {
        5
    } else if c == '6' {
        6
    } else if c == '7' {
        7
    } else if c == '8' {
        8
    } else {
        9
    }
}

/// Reading a JSON integer out of the text, as executable code: the value
/// and the position just past its last digit.
#[verifier::loop_isolation(false)]
#[verifier::rlimit(50)]
pub fn parse_int_exec(v: &Vec<char>, i: usize) -> (r: Option<(i64, usize)>)
    requires
        i <= v.len(),
    ensures
        ({
            let m = parse_int(v@.skip(i as int));
            &&& (r is Some <==> m is Some)
            &&& (r matches Some(p) ==> m matches Some(q) && p.0 as int == q.0 && p.1 == i + q.1
                && p.1 <= v@.len())
        }),
{
    let ghost s = v@.skip(i as int);
    let neg = i < v.len() && v[i] == '-';
    let d0: usize = if neg {
        i + 1
    } else {
        i
    };
    let ghost d = if neg {
        s.skip(1)
    } else {
        s
    };
    proof {
        if i < v.len() {
            assert(s[0] == v@[i as int]);
        }
        assert(neg == (s.len() > 0 && s[0] == '-'));
        assert(d =~= v@.skip(d0 as int));
    }
    let mut k: usize = d0;
    while k < v.len() && is_digit_exec(v[k])
        invariant
            i <= d0 <= k <= v.len(),
            d =~= v@.skip(d0 as int),
            forall|t: int| d0 <= t < k ==> is_digit(#[trigger] v@[t]),
        decreases v.len() - k,
    {
        k = k + 1;
    }
    proof {
        let a = v@.subrange(d0 as int, k as int);
        let b = v@.skip(k as int);
        assert(forall|t: int| 0 <= t < a.len() ==> is_digit(#[trigger] a[t]));
        assert(d =~= a + b);
        assert(b.len() > 0 ==> !is_digit(b[0]));
        lemma_count_digits_prefix(a, b);
        assert(count_digits(b) == 0);
        assert(count_digits(d) == k - d0);
    }
    if k == d0 {
        return None;
    }
    if v[d0] == '0' && k - d0 > 1 {
        assert(d[0] == v@[d0 as int]);
        assert(d[0] == '0');
        assert(count_digits(d) > 1);
        return None;
    }
    let ghost nd = count_digits(d);
    let ghost dig = d.take(nd as int);
    proof {
        assert(dig =~= v@.subrange(d0 as int, k as int));
    }
    let mut acc: u64 = 0;
    let mut t: usize = d0;
    while t < k
        invariant
            d0 <= t <= k <= v.len(),
            d =~= v@.skip(d0 as int),
            nd == count_digits(d),
            nd == k - d0,
            dig == d.take(nd as int),
            dig =~= v@.subrange(d0 as int, k as int),
            forall|u: int| d0 <= u < k ==> is_digit(#[trigger] v@[u]),
            acc as int == digits_value(dig.take(t - d0)),
        decreases k - t,
    {
        let c = v[t];
        let dv = digit_val_exec(c);
        proof {
            assert(dig.take(t - d0 + 1).drop_last() =~= dig.take(t - d0));
            assert(dig.take(t - d0 + 1).last() == v@[t as int]);
            assert(digits_value(dig.take(t - d0 + 1)) == digits_value(dig.take(t - d0)) * 10
                + digit_val(v@[t as int]));
        }
        if acc > (u64::MAX - dv) / 10 {
            proof {
                lemma_digits_value_nonneg(dig.take(t - d0));
                assert(digits_value(dig.take(t - d0 + 1)) > u64::MAX);
                lemma_digits_value_mono(dig, t - d0 + 1);
                assert(dig.take(dig.len() as int) =~= dig);
                assert(digits_value(dig) >= digits_value(dig.take(t - d0 + 1)));
                assert(digits_value(dig) > 0x7FFF_FFFF_FFFF_FFFF);
                assert(-digits_value(dig) < -0x8000_0000_0000_0000);
            }
            return None;
        }
        acc = acc * 10 + dv;
        t = t + 1;
    }
    proof {
        assert(dig.take((k - d0) as int) =~= dig);
        assert(acc as int == digits_value(dig));
        lemma_digits_value_nonneg(dig);
    }
    if neg {
        if acc > 0x8000_0000_0000_0000 {
            return None;
        }
        let val: i64 = (-(acc as i128)) as i64;
        assert(val as int == -(digits_value(dig)));
        Some((val, k))
    } else {
        if acc > 0x7FFF_FFFF_FFFF_FFFF {
            return None;
        }
        Some((acc as i64, k))
    }
}

/// The digit of a value below ten, as executable code.
pub fn digit_char_exec(d: u64) -> (c: char)
    requires
        d <= 9,
    ensures
        c == digit_char(d as int),
{
    if d == 0 {
        '0'
    } else if d == 1 {
        '1'
    } else if d == 2 {
        '2'
    } else if d == 3 {
        '3'
    } else if d == 4 {
        '4'
    } else if d == 5 {
        '5'
    } else if d == 6 {
        '6'
    } else if d == 7 {
        '7'
    } else if d == 8 {
        '8'
    } else {
        '9'
    }
}

/// The decimal digits of `n`, most significant first.
pub fn fmt_u64(n: u64) -> (v: Vec<char>)
    ensures
        v@ == dec_digits(n as int),
    decreases n,
{
    if n <= 9 {
        let mut v: Vec<char> = Vec::new();
        v.push(digit_char_exec(n));
        assert(v@ =~= seq![digit_char(n as int)]);
        v
    } else {
        let mut v = fmt_u64(n / 10);
        v.push(digit_char_exec(n % 10));
        assert(v@ =~= dec_digits((n / 10) as int).push(digit_char((n % 10) as int)));
        v
    }
}

/// The decimal text of `n`: a minus sign if it is negative, then its digits.
pub fn fmt_i64(n: i64) -> (v: Vec<char>)
    ensures
        v@ == dec_int(n as int),
{
    if n >= 0 {
        fmt_u64(n as u64)
    } else {
        let mag: u64 = (-(n as i128)) as u64;
        assert(mag as int == -(n as int));
        let digits = fmt_u64(mag);
        let mut v: Vec<char> = Vec::new();
        v.push('-');
        let mut k: usize = 0;
        while k < digits.len()
            invariant
                0 <= k <= digits.len(),
                v@ =~= seq!['-'] + digits@.take(k as int),
            decreases digits.len() - k,
        {
            v.push(digits[k]);
            assert(digits@.take(k + 1) =~= digits@.take(k as int).push(digits@[k as int]));
            k = k + 1;
        }
        assert(digits@.take(digits@.len() as int) =~= digits@);
        v
    }
}

} // verus!
