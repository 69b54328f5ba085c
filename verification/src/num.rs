//! Decimal rendering and parsing of signed 64-bit integers, and rendering of
//! a second-of-day as a fixed `HH:MM:SS` clock time. The table's timestamp
//! column stores an absolute instant as the decimal text of its seconds since
//! the Unix epoch; these functions move between that text and the integer.

use vstd::prelude::*;

verus! {

/// The character for one decimal digit value.
pub open spec fn digit_char(d: int) -> char {
    if d == 0 {
        '0'
    } else if d == 1 {
        '1'
    } else if d == 2 {
        '2'
    } else if d == 3 {
        '3'
    } else if d == 4 {
        '4'
    } else if d == 5 {
        '5'
    } else if d == 6 {
        '6'
    } else if d == 7 {
        '7'
    } else if d == 8 {
        '8'
    } else {
        '9'
    }
}

/// The numeric value of one decimal digit character, or `-1` if `c` is no digit.
pub open spec fn digit_val(c: char) -> int {
    if c == '0' {
        0
    } else if c == '1' {
        1
    } else if c == '2' {
        2
    } else if c == '3' {
        3
    } else if c == '4' {
        4
    } else if c == '5' {
        5
    } else if c == '6' {
        6
    } else if c == '7' {
        7
    } else if c == '8' {
        8
    } else if c == '9' {
        9
    } else {
        -1
    }
}

/// Whether every character of `s` is a decimal digit.
pub open spec fn all_digits(s: Seq<char>) -> bool {
    forall|k: int| 0 <= k < s.len() ==> digit_val(s[k]) >= 0
}

/// The decimal digit string of a nonnegative integer, most significant first.
pub open spec fn dec_digits(n: nat) -> Seq<char>
    decreases n,
{
    if n < 10 {
        seq![digit_char(n as int)]
    } else {
        dec_digits(n / 10).push(digit_char((n % 10) as int))
    }
}

/// The decimal string of an integer, with a leading minus sign if negative.
pub open spec fn dec_int(n: int) -> Seq<char> {
    if n < 0 {
        seq!['-'] + dec_digits((-n) as nat)
    } else {
        dec_digits(n as nat)
    }
}

/// The value of a digit string read most significant first.
pub open spec fn digits_val(s: Seq<char>) -> int
    decreases s.len(),
{
    if s.len() == 0 {
        0
    } else {
        digits_val(s.drop_last()) * 10 + digit_val(s.last())
    }
}

/// The integer denoted by `s` as an optionally `-`-signed run of decimal
/// digits, or `None` if `s` has no such shape.
pub open spec fn parse_dec_spec(s: Seq<char>) -> Option<int> {
    if s.len() > 0 && s[0] == '-' {
        let t = s.drop_first();
        if t.len() > 0 && all_digits(t) {
            Some(-digits_val(t))
        } else {
            None
        }
    } else if s.len() > 0 && all_digits(s) {
        Some(digits_val(s))
    } else {
        None
    }
}

pub proof fn lemma_digits_val_nonneg(s: Seq<char>)
    requires
        all_digits(s),
    ensures
        digits_val(s) >= 0,
    decreases s.len(),
{
    if s.len() > 0 {
        assert(all_digits(s.drop_last()));
        lemma_digits_val_nonneg(s.drop_last());
    }
}

/// Extending a digit string cannot shrink its value.
pub proof fn lemma_digits_val_prefix_le(s: Seq<char>, i: int)
    requires
        all_digits(s),
        0 <= i <= s.len(),
    ensures
        digits_val(s.subrange(0, i)) <= digits_val(s),
    decreases s.len() - i,
{
    if i < s.len() {
        let p = s.subrange(0, i);
        let q = s.subrange(0, i + 1);
        assert(all_digits(p));
        assert(q.drop_last() =~= p);
        lemma_digits_val_nonneg(p);
        assert(digit_val(q.last()) >= 0);
        assert(digits_val(q) == digits_val(p) * 10 + digit_val(q.last()));
        lemma_digits_val_prefix_le(s, i + 1);
    } else {
        assert(s.subrange(0, i) =~= s);
    }
}

/// The decimal text of a nonnegative 64-bit integer.
pub fn u64_to_dec(n: u64) -> (r: String)
    ensures
        r@ == dec_digits(n as nat),
    decreases n,
{
    if n < 10 {
        let mut s = String::new();
        crate::text::push_char(&mut s, digit_char_exec((n % 10) as u8));
        proof {
            assert(s@ =~= seq![digit_char(n as int)]);
        }
        s
    } else {
        let mut s = u64_to_dec(n / 10);
        crate::text::push_char(&mut s, digit_char_exec((n % 10) as u8));
        proof {
            assert(s@ =~= dec_digits((n / 10) as nat).push(digit_char((n % 10) as int)));
        }
        s
    }
}

/// The decimal text of a signed 64-bit integer.
pub fn i64_to_dec(n: i64) -> (r: String)
    ensures
        r@ == dec_int(n as int),
{
    if n >= 0 {
        u64_to_dec(n as u64)
    } else {
        let m: u64 = if n == i64::MIN {
            9223372036854775808
        } else {
            (-n) as u64
        };
        proof {
            assert(m as nat == (-(n as int)) as nat);
        }
        let mut s = String::new();
        crate::text::push_char(&mut s, '-');
        let digits = u64_to_dec(m);
        s.append(digits.as_str());
        proof {
            assert(s@ =~= seq!['-'] + dec_digits((-(n as int)) as nat));
        }
        s
    }
}

/// One decimal digit value as its character.
pub fn digit_char_exec(d: u8) -> (c: char)
    requires
        d < 10,
    ensures
        c == digit_char(d as int),
{
    match d {
        0 => '0',
        1 => '1',
        2 => '2',
        3 => '3',
        4 => '4',
        5 => '5',
        6 => '6',
        7 => '7',
        8 => '8',
        _ => '9',
    }
}

/// The digit value of a character, or `255` where it is no decimal digit.
fn digit_val_exec(c: char) -> (d: u8)
    ensures
        digit_val(c) >= 0 ==> d == digit_val(c),
        digit_val(c) < 0 ==> d == 255,
{
    match c {
        '0' => 0,
        '1' => 1,
        '2' => 2,
        '3' => 3,
        '4' => 4,
        '5' => 5,
        '6' => 6,
        '7' => 7,
        '8' => 8,
        '9' => 9,
        _ => 255,
    }
}

/// Parses an optionally signed decimal string into a signed 64-bit integer.
/// Returns `None` exactly when the string has no decimal shape or its value
/// falls outside the `i64` range.
pub fn parse_dec_i64(s: &str) -> (r: Option<i64>)
    ensures
        r matches Some(v) ==> parse_dec_spec(s@) == Some(v as int),
        r is None ==> match parse_dec_spec(s@) {
            Option::Some(n) => n < i64::MIN || n > i64::MAX,
            Option::None => true,
        },
{
    let len = s.unicode_len();
    if len == 0 {
        return None;
    }
    let neg = s.get_char(0) == '-';
    let start: usize = if neg {
        1
    } else {
        0
    };
    if start == len {
        return None;
    }
    let ghost digits = if neg {
        s@.drop_first()
    } else {
        s@
    };
    proof {
        if neg {
            assert(digits =~= s@.subrange(1, len as int));
        } else {
            assert(digits =~= s@.subrange(0, len as int));
        }
    }
    let mut acc: u64 = 0;
    let mut i: usize = start;
    while i < len
        invariant
            len == s@.len(),
            start <= i <= len,
            start < len,
            neg <==> s@[0] == '-',
            neg ==> start == 1 && digits == s@.subrange(1, len as int),
            !neg ==> start == 0 && digits == s@.subrange(0, len as int),
            forall|k: int| start <= k < i ==> digit_val(s@[k]) >= 0,
            acc as int == digits_val(s@.subrange(start as int, i as int)),
        decreases len - i,
    {
        let c = s.get_char(i);
        let d = digit_val_exec(c);
        if d > 9 {
            proof {
                if neg {
                    assert(s@.drop_first() =~= digits);
                } else {
                    assert(digits =~= s@);
                }
                assert(digits[i - start] == s@[i as int]);
                assert(digit_val(digits[i - start]) < 0);
                assert(!all_digits(digits));
            }
            return None;
        }
        if acc > 1844674407370955161 || (acc == 1844674407370955161 && d > 5) {
            // the value no longer fits in 64 bits, so it exceeds i64::MAX
            proof {
                if neg {
                    assert(s@.drop_first() =~= digits);
                } else {
                    assert(digits =~= s@);
                }
                let p = s@.subrange(start as int, i as int);
                let q = s@.subrange(start as int, i + 1);
                assert(q.drop_last() =~= p);
                assert(q.last() == s@[i as int]);
                assert(digit_val(q.last()) == d as int);
                assert(digits_val(q) == digits_val(p) * 10 + digit_val(q.last()));
                assert(digits_val(q) > u64::MAX as int);
                if all_digits(digits) {
                    assert(q =~= digits.subrange(0, i + 1 - start));
                    lemma_digits_val_prefix_le(digits, i + 1 - start);
                    assert(digits_val(digits) > u64::MAX as int);
                }
            }
            return None;
        }
        let ghost prev = acc as int;
        acc = acc * 10 + (d as u64);
        proof {
            let p = s@.subrange(start as int, i as int);
            let q = s@.subrange(start as int, i + 1);
            assert(q.drop_last() =~= p);
            assert(q.last() == s@[i as int]);
            assert(acc as int == digits_val(q));
        }
        i += 1;
    }
    proof {
        assert(s@.subrange(start as int, len as int) =~= digits);
        assert(all_digits(digits));
        assert(acc as int == digits_val(digits));
    }
    if neg {
        if acc > 9223372036854775808 {
            return None;
        }
        if acc == 9223372036854775808 {
            return Some(i64::MIN);
        }
        Some(-(acc as i64))
    } else {
        if acc > i64::MAX as u64 {
            return None;
        }
        Some(acc as i64)
    }
}

/// The second of the day, in `[0, 86400)`, of the instant `v` seconds after
/// the Unix epoch; instants before the epoch count back from midnight.
pub open spec fn sod_of(v: int) -> int {
    if v >= 0 {
        v % 86400
    } else {
        let r = (-v) % 86400;
        if r == 0 {
            0
        } else {
            86400 - r
        }
    }
}

/// Two decimal digits, zero padded.
pub open spec fn two_digits(n: int) -> Seq<char> {
    seq![digit_char(n / 10), digit_char(n % 10)]
}

/// The `HH:MM:SS` text of a second of the day.
pub open spec fn hms_chars(t: int) -> Seq<char> {
    two_digits(t / 3600) + seq![':'] + two_digits((t % 3600) / 60) + seq![':'] + two_digits(t % 60)
}

/// Renders the instant `v` seconds after the Unix epoch as the `HH:MM:SS`
/// text of its time of day.
pub fn epoch_to_hms(v: i64) -> (r: String)
    ensures
        r@ == hms_chars(sod_of(v as int)),
{
    let sod: u64 = if v >= 0 {
        (v as u64) % 86400
    } else {
        let m: u64 = if v == i64::MIN {
            9223372036854775808
        } else {
            (-v) as u64
        };
        let rem = m % 86400;
        if rem == 0 {
            0
        } else {
            86400 - rem
        }
    };
    proof {
        assert(sod as int == sod_of(v as int));
    }
    let h = (sod / 3600) as u8;
    let mi = ((sod % 3600) / 60) as u8;
    let sec = (sod % 60) as u8;
    let mut out = String::new();
    crate::text::push_char(&mut out, digit_char_exec(h / 10));
    crate::text::push_char(&mut out, digit_char_exec(h % 10));
    crate::text::push_char(&mut out, ':');
    crate::text::push_char(&mut out, digit_char_exec(mi / 10));
    crate::text::push_char(&mut out, digit_char_exec(mi % 10));
    crate::text::push_char(&mut out, ':');
    crate::text::push_char(&mut out, digit_char_exec(sec / 10));
    crate::text::push_char(&mut out, digit_char_exec(sec % 10));
    proof {
        assert(out@ =~= hms_chars(sod as int));
    }
    out
}

/// Parsing the decimal text of an integer gives that integer back.
pub proof fn lemma_dec_int_round_trip(n: int)
    ensures
        parse_dec_spec(dec_int(n)) == Some(n),
{
    if n < 0 {
        lemma_dec_digits_val((-n) as nat);
        lemma_dec_digits_are_digits((-n) as nat);
        let s = dec_int(n);
        assert(s[0] == '-');
        assert(s.drop_first() =~= dec_digits((-n) as nat));
        assert(digit_val('-') < 0);
    } else {
        lemma_dec_digits_val(n as nat);
        lemma_dec_digits_are_digits(n as nat);
        let s = dec_int(n);
        assert(digit_val(s[0]) >= 0);
        assert(s[0] != '-');
    }
}

pub proof fn lemma_dec_digits_val(n: nat)
    ensures
        digits_val(dec_digits(n)) == n,
    decreases n,
{
    if n < 10 {
        let s0 = dec_digits(n);
        assert(s0 =~= seq![digit_char(n as int)]);
        assert(s0.drop_last() =~= Seq::<char>::empty());
        assert(digits_val(Seq::<char>::empty()) == 0);
        assert(s0.last() == digit_char(n as int));
        assert(digit_val(digit_char(n as int)) == n);
        assert(digits_val(s0) == digits_val(s0.drop_last()) * 10 + digit_val(s0.last()));
    } else {
        lemma_dec_digits_val(n / 10);
        assert(dec_digits(n).drop_last() =~= dec_digits(n / 10));
        assert(digit_val(digit_char((n % 10) as int)) == n % 10);
    }
}

pub proof fn lemma_dec_digits_are_digits(n: nat)
    ensures
        all_digits(dec_digits(n)),
        dec_digits(n).len() >= 1,
    decreases n,
{
    if n < 10 {
    } else {
        lemma_dec_digits_are_digits(n / 10);
        let s = dec_digits(n);
        assert forall|k: int| 0 <= k < s.len() implies digit_val(s[k]) >= 0 by {
            if k < s.len() - 1 {
                assert(s[k] == dec_digits(n / 10)[k]);
            }
        }
    }
}

} // verus!
