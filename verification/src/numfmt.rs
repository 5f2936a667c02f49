//! Verified decimal formatting and parsing for the integers that appear in
//! the on-disk records and in rendered text.

use vstd::prelude::*;

verus! {

use crate::text::push_char;

/// The character for one decimal digit.
pub open spec fn dec_digit(d: int) -> char {
    if d == 0 {
        '0'
    } else if d == 1 {
        '1'
    } else if d == 2 {
        '2'
    } else if d == 3 {
        '3'
    } else if d == 4 {
        '4'
    } else if d == 5 {
        '5'
    } else if d == 6 {
        '6'
    } else if d == 7 {
        '7'
    } else if d == 8 {
        '8'
    } else {
        '9'
    }
}

/// The canonical decimal writing of a nonnegative integer.
pub open spec fn dec_of(n: int) -> Seq<char>
    decreases n,
{
    if n < 10 {
        seq![dec_digit(n)]
    } else {
        dec_of(n / 10) + seq![dec_digit(n % 10)]
    }
}

/// The decimal writing of a signed integer: a leading minus when negative.
pub open spec fn dec_of_int(n: int) -> Seq<char> {
    if n < 0 {
        seq!['-'] + dec_of(-n)
    } else {
        dec_of(n)
    }
}

fn digit_char(d: u64) -> (c: char)
    requires
        d < 10,
    ensures
        c == dec_digit(d as int),
{
    if d == 0 {
        '0'
    } else if d == 1 {
        '1'
    } else if d == 2 {
        '2'
    } else if d == 3 {
        '3'
    } else if d == 4 {
        '4'
    } else if d == 5 {
        '5'
    } else if d == 6 {
        '6'
    } else if d == 7 {
        '7'
    } else if d == 8 {
        '8'
    } else {
        '9'
    }
}

/// Write `n` in decimal.
pub fn u64_to_string(n: u64) -> (r: String)
    ensures
        r@ == dec_of(n as int),
    decreases n,
{
    if n < 10 {
        let mut s = String::new();
        push_char(&mut s, digit_char(n));
        proof {
            assert(Seq::<char>::empty().push(dec_digit(n as int)) =~= seq![dec_digit(n as int)]);
        }
        s
    } else {
        let mut s = u64_to_string(n / 10);
        push_char(&mut s, digit_char(n % 10));
        proof {
            assert(dec_of((n / 10) as int).push(dec_digit((n % 10) as int)) =~= dec_of(
            (n / 10) as int) + seq![dec_digit((n % 10) as int)]);
        }
        s
    }
}

/// Write `n` in decimal, with a sign when negative.
pub fn i64_to_string(n: i64) -> (r: String)
    ensures
        r@ == dec_of_int(n as int),
{
    if n >= 0 {
        u64_to_string(n as u64)
    } else {
        let mag: u64 = if n == i64::MIN {
            9223372036854775808u64
        } else {
            (-n) as u64
        };
        let digits = u64_to_string(mag);
        let mut s = String::new();
        push_char(&mut s, '-');
        s.append(digits.as_str());
        proof {
            assert(Seq::<char>::empty().push('-') =~= seq!['-']);
        }
        s
    }
}

/// Write `n` in decimal, with a sign when negative.
pub fn i32_to_string(n: i32) -> (r: String)
    ensures
        r@ == dec_of_int(n as int),
{
    i64_to_string(n as i64)
}

pub open spec fn is_dec_digit(c: char) -> bool {
    '0' <= c && c <= '9'
}

pub open spec fn digit_val(c: char) -> int {
    (c as int) - ('0' as int)
}

/// Whether `s` is the canonical decimal writing of some nonnegative integer:
/// digits only, nonempty, and no superfluous leading zero.
pub open spec fn is_canon_dec(s: Seq<char>) -> bool {
    &&& s.len() >= 1
    &&& forall|i: int| 0 <= i < s.len() ==> is_dec_digit(#[trigger] s[i])
    &&& (s[0] != '0' || s.len() == 1)
}

/// The value of a digit string.
pub open spec fn dec_val(s: Seq<char>) -> int
    decreases s.len(),
{
    if s.len() == 0 {
        0
    } else {
        dec_val(s.subrange(0, s.len() - 1)) * 10 + digit_val(s[s.len() - 1])
    }
}

/// The number `s` stands for, when `s` is canonical and fits in a `u64`.
pub open spec fn parse_u64_spec(s: Seq<char>) -> Option<u64> {
    if is_canon_dec(s) && dec_val(s) <= u64::MAX {
        Some(dec_val(s) as u64)
    } else {
        None
    }
}

/// The number `s` stands for as a signed 64-bit value: an optional leading
/// minus, canonical digits, value in range.
pub open spec fn parse_i64_spec(s: Seq<char>) -> Option<i64> {
    if s.len() >= 1 && s[0] == '-' {
        let t = s.subrange(1, s.len() as int);
        if is_canon_dec(t) && dec_val(t) <= 9223372036854775808 && dec_val(t) != 0 {
            Some((-dec_val(t)) as i64)
        } else {
            None
        }
    } else {
        if is_canon_dec(s) && dec_val(s) <= i64::MAX {
            Some(dec_val(s) as i64)
        } else {
            None
        }
    }
}

/// The canonical writing of `n` has no leading zero.
pub proof fn lemma_dec_of_canon(n: int)
    requires
        n >= 0,
    ensures
        is_canon_dec(dec_of(n)),
        dec_val(dec_of(n)) == n,
        n > 0 ==> dec_of(n)[0] != '0',
    decreases n,
{
    if n < 10 {
        assert(dec_of(n) == seq![dec_digit(n)]);
        assert(is_dec_digit(dec_digit(n)));
        assert(dec_of(n).subrange(0, 0) =~= Seq::<char>::empty());
        assert(dec_val(Seq::<char>::empty()) == 0);
        assert(dec_val(dec_of(n)) == digit_val(dec_digit(n)));
    } else {
        lemma_dec_of_canon(n / 10);
        let hd = dec_of(n / 10);
        let whole = dec_of(n);
        assert(whole == hd + seq![dec_digit(n % 10)]);
        assert(whole.subrange(0, whole.len() - 1) =~= hd);
        assert(whole[whole.len() - 1] == dec_digit(n % 10));
        assert(dec_val(whole) == dec_val(hd) * 10 + digit_val(dec_digit(n % 10)));
        assert(is_dec_digit(dec_digit(n % 10)));
        assert(whole[0] == hd[0]);
        assert(n / 10 > 0);
        assert(forall|i: int| 0 <= i < whole.len() ==> is_dec_digit(#[trigger] whole[i])) by {
            assert(forall|i: int| 0 <= i < hd.len() ==> whole[i] == hd[i]);
        }
    }
}

/// A digit string's value is never negative.
pub proof fn lemma_dec_val_nonneg(s: Seq<char>)
    requires
        forall|i: int| 0 <= i < s.len() ==> is_dec_digit(#[trigger] s[i]),
    ensures
        dec_val(s) >= 0,
    decreases s.len(),
{
    if s.len() > 0 {
        let hd = s.subrange(0, s.len() - 1);
        assert(forall|i: int| 0 <= i < hd.len() ==> hd[i] == s[i]);
        lemma_dec_val_nonneg(hd);
        assert(dec_val(hd) * 10 >= 0) by (nonlinear_arith)
            requires
                dec_val(hd) >= 0,
        ;
    }
}

/// Parsing what `u64_to_string` wrote gives the number back.
pub proof fn lemma_parse_u64_roundtrip(n: u64)
    ensures
        parse_u64_spec(dec_of(n as int)) == Some(n),
{
    lemma_dec_of_canon(n as int);
}

/// Parsing what `i64_to_string` wrote gives the number back.
pub proof fn lemma_parse_i64_roundtrip(n: i64)
    ensures
        parse_i64_spec(dec_of_int(n as int)) == Some(n),
{
    if n >= 0 {
        lemma_dec_of_canon(n as int);
        let s = dec_of(n as int);
        assert(s[0] == '-' ==> false) by {
            assert(is_dec_digit(s[0]));
        }
    } else {
        let m = -(n as int);
        lemma_dec_of_canon(m);
        let s = dec_of_int(n as int);
        assert(s[0] == '-');
        assert(s.subrange(1, s.len() as int) =~= dec_of(m));
    }
}

/// Read a canonical nonnegative decimal.
pub fn parse_u64(s: &str) -> (r: Option<u64>)
    ensures
        r == parse_u64_spec(s@),
{
    let n = s.unicode_len();
    if n == 0 {
        return None;
    }
    let first = s.get_char(0);
    if first == '0' && n != 1 {
        return None;
    }
    let mut val: u64 = 0;
    let mut i: usize = 0;
    while i < n
        invariant
            i <= n,
            n == s@.len(),
            n >= 1,
            s@[0] != '0' || n == 1,
            forall|j: int| 0 <= j < i ==> is_dec_digit(#[trigger] s@[j]),
            val == dec_val(s@.subrange(0, i as int)),
            dec_val(s@.subrange(0, i as int)) <= u64::MAX,
        decreases n - i,
    {
        let c = s.get_char(i);
        if !(c >= '0' && c <= '9') {
            return None;
        }
        let d: u64 = (c as u32 as u64) - ('0' as u32 as u64);
        proof {
            assert(s@.subrange(0, i as int + 1).subrange(0, i as int) =~= s@.subrange(0, i as int));
            assert(s@.subrange(0, i as int + 1)[i as int] == s@[i as int]);
        }
        if val > (u64::MAX - d) / 10 {
            proof {
                assert(dec_val(s@.subrange(0, i as int + 1)) == val * 10 + d);
                lemma_canon_prefix_overflow(s@, i as int + 1);
            }
            return None;
        }
        val = val * 10 + d;
        i = i + 1;
    }
    proof {
        assert(s@.subrange(0, n as int) =~= s@);
    }
    Some(val)
}

/// A canonical-digit value only grows as more digits are read: once a prefix
/// is too large for a `u64`, the whole string is too.
proof fn lemma_canon_prefix_overflow(s: Seq<char>, k: int)
    requires
        0 < k <= s.len(),
        forall|j: int| 0 <= j < k ==> is_dec_digit(#[trigger] s[j]),
        dec_val(s.subrange(0, k)) > u64::MAX,
    ensures
        parse_u64_spec(s) is None,
    decreases s.len() - k,
{
    if k == s.len() {
        assert(s.subrange(0, k) =~= s);
    } else {
        if is_dec_digit(s[k]) {
            assert(s.subrange(0, k + 1).subrange(0, k) =~= s.subrange(0, k));
            assert(s.subrange(0, k + 1)[k] == s[k]);
            assert(dec_val(s.subrange(0, k + 1)) == dec_val(s.subrange(0, k)) * 10 + digit_val(
            s[k]));
            assert(digit_val(s[k]) >= 0);
            assert(dec_val(s.subrange(0, k)) * 10 >= dec_val(s.subrange(0, k))) by (nonlinear_arith)
                requires
                    dec_val(s.subrange(0, k)) > 0,
            ;
            lemma_canon_prefix_overflow(s, k + 1);
        } else {
            assert(!is_canon_dec(s));
        }
    }
}

/// Read a decimal with an optional leading minus.
pub fn parse_i64(s: &str) -> (r: Option<i64>)
    ensures
        r == parse_i64_spec(s@),
{
    let n = s.unicode_len();
    if n >= 1 && s.get_char(0) == '-' {
        let rest = s.substring_char(1, n);
        proof {
            assert(rest@ =~= s@.subrange(1, s@.len() as int));
        }
        match parse_u64(rest) {
            Some(v) => {
                proof {
                    assert(is_canon_dec(rest@));
                    lemma_dec_val_nonneg(rest@);
                    assert(dec_val(rest@) == v);
                }
                if v == 0 {
                    assert(parse_i64_spec(s@) is None);
                    None
                } else if v <= 9223372036854775807u64 {
                    assert(parse_i64_spec(s@) == Some((-(v as int)) as i64));
                    Some(-(v as i64))
                } else if v == 9223372036854775808u64 {
                    assert(parse_i64_spec(s@) == Some(i64::MIN));
                    Some(i64::MIN)
                } else {
                    assert(parse_i64_spec(s@) is None);
                    None
                }
            },
            None => {
                proof {
                    if is_canon_dec(rest@) && dec_val(rest@) <= 9223372036854775808 {
                        assert(dec_val(rest@) <= u64::MAX);
                    }
                }
                None
            },
        }
    } else {
        match parse_u64(s) {
            Some(v) => {
                proof {
                    assert(is_canon_dec(s@));
                    lemma_dec_val_nonneg(s@);
                    assert(dec_val(s@) == v);
                }
                if v <= i64::MAX as u64 {
                    Some(v as i64)
                } else {
                    None
                }
            },
            None => None,
        }
    }
}

/// Read a decimal `i32`.
pub fn parse_i32(s: &str) -> (r: Option<i32>)
    ensures
        r == (match parse_i64_spec(s@) {
            Some(v) => if i32::MIN <= v <= i32::MAX {
                Some(v as i32)
            } else {
                None
            },
            None => None,
        }),
{
    match parse_i64(s) {
        Some(v) => {
            if i32::MIN as i64 <= v && v <= i32::MAX as i64 {
                Some(v as i32)
            } else {
                None
            }
        },
        None => None,
    }
}

/// Read a decimal `u32`.
pub fn parse_u32(s: &str) -> (r: Option<u32>)
    ensures
        r == (match parse_u64_spec(s@) {
            Some(v) => if v <= u32::MAX {
                Some(v as u32)
            } else {
                None
            },
            None => None,
        }),
{
    match parse_u64(s) {
        Some(v) => {
            if v <= u32::MAX as u64 {
                Some(v as u32)
            } else {
                None
            }
        },
        None => None,
    }
}

} // verus!
