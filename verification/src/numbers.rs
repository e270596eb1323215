//! Decimal numbers: reading them the way `from_str` does for `u8`, `u16`
//! and `u64`, and writing them the way `to_string` does.
use vstd::prelude::*;
use vstd::string::*;
use crate::text::{chars_of, is_ws};

verus! {

broadcast use vstd::string::group_string_axioms;

/// The value of a decimal digit string.
pub open spec fn digits_value(s: Seq<char>) -> int
    decreases s.len(),
{
    if s.len() == 0 {
        0
    } else {
        digits_value(s.drop_last()) * 10 + ((s.last() as int) - ('0' as int))
    }
}

/// Every character of `s` is an ASCII digit.
pub open spec fn all_digits(s: Seq<char>) -> bool {
    forall|i: int| 0 <= i < s.len() ==> '0' <= #[trigger] s[i] && s[i] <= '9'
}

/// `u8::from_str`: an optional `+`, then one or more ASCII digits whose value
/// fits in a byte.
pub open spec fn spec_parse_u8(s: Seq<char>) -> Option<u8> {
    let d = if s.len() > 0 && s[0] == '+' {
        s.drop_first()
    } else {
        s
    };
    if d.len() > 0 && all_digits(d) && digits_value(d) <= 255 {
        Some(digits_value(d) as u8)
    } else {
        None
    }
}

/// A longer digit string is worth at least as much as its prefix.
pub proof fn lemma_digits_prefix(s: Seq<char>, k: int)
    requires
        all_digits(s),
        0 <= k <= s.len(),
    ensures
        0 <= digits_value(s.take(k)) <= digits_value(s),
    decreases s.len(),
{
    if s.len() == 0 {
        assert(s.take(k) =~= s);
    } else if k == s.len() {
        assert(s.take(k) =~= s);
        lemma_digits_nonneg(s);
    } else {
        let t = s.drop_last();
        assert(all_digits(t)) by {
            assert forall|i: int| 0 <= i < t.len() implies '0' <= #[trigger] t[i] && t[i]
                <= '9' by {
                assert(t[i] == s[i]);
            }
        }
        lemma_digits_prefix(t, k);
        assert(t.take(k) =~= s.take(k));
        assert('0' <= s[s.len() - 1] <= '9');
    }
}

/// A digit string is worth zero or more.
pub proof fn lemma_digits_nonneg(s: Seq<char>)
    requires
        all_digits(s),
    ensures
        digits_value(s) >= 0,
    decreases s.len(),
{
    if s.len() > 0 {
        let t = s.drop_last();
        assert(all_digits(t)) by {
            assert forall|i: int| 0 <= i < t.len() implies '0' <= #[trigger] t[i] && t[i]
                <= '9' by {
                assert(t[i] == s[i]);
            }
        }
        lemma_digits_nonneg(t);
        assert('0' <= s[s.len() - 1] <= '9');
    }
}

/// Parse a byte written in decimal, as `u8::from_str` does.
pub fn parse_u8(s: &str) -> (r: Option<u8>)
    ensures
        r == spec_parse_u8(s@),
{
    let v = chars_of(s);
    let n = v.len();
    let start: usize = if n > 0 && v[0] == '+' {
        1
    } else {
        0
    };
    let ghost d = v@.subrange(start as int, n as int);
    proof {
        if start == 1 {
            assert(v@.drop_first() =~= d);
        } else {
            assert(v@ =~= d);
        }
    }
    if start == n {
        return None;
    }
    let mut value: u16 = 0;
    let mut i = start;
    proof {
        assert(d.take(0) =~= Seq::<char>::empty());
    }
    while i < n
        invariant
            start <= i <= n == v@.len(),
            start < n,
            v@ == s@,
            d == v@.subrange(start as int, n as int),
            d == (if s@.len() > 0 && s@[0] == '+' {
                s@.drop_first()
            } else {
                s@
            }),
            all_digits(d.take(i - start)),
            value as int == digits_value(d.take(i - start)),
            value <= 255,
        decreases n - i,
    {
        let c = v[i];
        let ghost k = i - start;
        proof {
            assert(d.take(k + 1).drop_last() =~= d.take(k));
            assert(d.take(k + 1).last() == c);
        }
        if c < '0' || c > '9' {
            proof {
                assert(d[k] == c);
                assert(!all_digits(d));
            }
            return None;
        }
        let digit = (c as u32 - '0' as u32) as u16;
        let next = value * 10 + digit;
        proof {
            assert(all_digits(d.take(k + 1))) by {
                assert forall|j: int| 0 <= j < k + 1 implies '0' <= #[trigger] d.take(k + 1)[j]
                    && d.take(k + 1)[j] <= '9' by {
                    if j < k {
                        assert(d.take(k + 1)[j] == d.take(k)[j]);
                    }
                }
            }
        }
        proof {
            assert(digits_value(d.take(k + 1)) == value * 10 + digit);
        }
        if next > 255 {
            proof {
                if all_digits(d) {
                    lemma_digits_prefix(d, k + 1);
                }
            }
            return None;
        }
        value = next;
        i = i + 1;
    }
    proof {
        assert(d.take(n - start) =~= d);
    }
    Some(value as u8)
}

/// The decimal digit character for `d`.
pub open spec fn digit_char(d: int) -> char {
    (('0' as int) + d) as char
}

/// The decimal text of `n`, as `u8::to_string` writes it.
pub open spec fn decimal(n: nat) -> Seq<char>
    decreases n,
{
    if n < 10 {
        seq![digit_char(n as int)]
    } else {
        decimal(n / 10).push(digit_char((n % 10) as int))
    }
}

/// The text of one decimal digit.
fn digit_text(d: u8) -> (r: &'static str)
    requires
        d < 10,
    ensures
        r@ == seq![digit_char(d as int)],
{
    proof {
        reveal_strlit("0");
        reveal_strlit("1");
        reveal_strlit("2");
        reveal_strlit("3");
        reveal_strlit("4");
        reveal_strlit("5");
        reveal_strlit("6");
        reveal_strlit("7");
        reveal_strlit("8");
        reveal_strlit("9");
    }
    match d {
        0 => "0",
        1 => "1",
        2 => "2",
        3 => "3",
        4 => "4",
        5 => "5",
        6 => "6",
        7 => "7",
        8 => "8",
        _ => "9",
    }
}

/// The decimal text of a byte.
pub fn u8_to_text(n: u8) -> (r: String)
    ensures
        r@ == decimal(n as nat),
{
    let mut s = String::new();
    if n >= 100 {
        s.append(digit_text(n / 100));
        s.append(digit_text((n / 10) % 10));
        s.append(digit_text(n % 10));
        proof {
            assert(decimal((n / 100) as nat) == seq![digit_char((n / 100) as int)]);
            assert(decimal((n / 10) as nat) == decimal((n / 100) as nat).push(
                digit_char(((n / 10) % 10) as int),
            ));
            assert(s@ =~= decimal((n / 10) as nat).push(digit_char((n % 10) as int)));
        }
    } else if n >= 10 {
        s.append(digit_text(n / 10));
        s.append(digit_text(n % 10));
        proof {
            assert(s@ =~= decimal((n / 10) as nat).push(digit_char((n % 10) as int)));
        }
    } else {
        s.append(digit_text(n));
        proof {
            assert(s@ =~= seq![digit_char(n as int)]);
        }
    }
    s
}

/// A decimal text is digits only, is not empty, and is worth its number.
pub proof fn lemma_decimal(n: nat)
    ensures
        decimal(n).len() > 0,
        all_digits(decimal(n)),
        digits_value(decimal(n)) == n,
        !decimal(n).contains('/'),
        !is_ws(decimal(n).last()),
        decimal(n)[0] != '+',
    decreases n,
{
    if n < 10 {
        let s = decimal(n);
        assert(s.drop_last() =~= Seq::<char>::empty());
        assert(digits_value(Seq::<char>::empty()) == 0);
    }
    if n >= 10 {
        lemma_decimal(n / 10);
        let t = decimal(n / 10);
        let s = decimal(n);
        assert(s.drop_last() =~= t);
        assert((n / 10) * 10 + n % 10 == n) by (nonlinear_arith);
        assert(s[0] == t[0]);
        assert forall|i: int| 0 <= i < s.len() implies '0' <= #[trigger] s[i] && s[i] <= '9' by {
            if i < t.len() {
                assert(s[i] == t[i]);
            }
        }
    }
    let s = decimal(n);
    if s.contains('/') {
        let i = choose|i: int| 0 <= i < s.len() && s[i] == '/';
        assert('0' <= s[i]);
    }
}

/// Writing a byte in decimal and reading it back gives the byte.
pub proof fn law_u8_text_roundtrip(n: u8)
    ensures
        spec_parse_u8(decimal(n as nat)) == Some(n),
{
    lemma_decimal(n as nat);
}

/// `u16::from_str`: an optional `+`, then one or more ASCII digits whose
/// value fits in 16 bits.
pub open spec fn spec_parse_u16(s: Seq<char>) -> Option<u16> {
    let d = if s.len() > 0 && s[0] == '+' {
        s.drop_first()
    } else {
        s
    };
    if d.len() > 0 && all_digits(d) && digits_value(d) <= 65535 {
        Some(digits_value(d) as u16)
    } else {
        None
    }
}

/// Parse `v[lo..]` as `u16::from_str` does.
fn parse_u16_from(v: &Vec<char>, lo: usize) -> (r: Option<u16>)
    requires
        lo <= v@.len(),
    ensures
        r == spec_parse_u16(v@.subrange(lo as int, v@.len() as int)),
{
    let ghost s = v@.subrange(lo as int, v@.len() as int);
    let n = v.len();
    let start: usize = if lo < n && v[lo] == '+' {
        lo + 1
    } else {
        lo
    };
    let ghost d = v@.subrange(start as int, n as int);
    proof {
        if start == lo + 1 {
            assert(s.drop_first() =~= d);
        } else {
            assert(s =~= d);
        }
    }
    if start == n {
        return None;
    }
    let mut value: u32 = 0;
    let mut i = start;
    proof {
        assert(d.take(0) =~= Seq::<char>::empty());
    }
    while i < n
        invariant
            start <= i <= n == v@.len(),
            start < n,
            lo <= start,
            s == v@.subrange(lo as int, v@.len() as int),
            d == v@.subrange(start as int, n as int),
            d == (if s.len() > 0 && s[0] == '+' {
                s.drop_first()
            } else {
                s
            }),
            all_digits(d.take(i - start)),
            value as int == digits_value(d.take(i - start)),
            value <= 65535,
        decreases n - i,
    {
        let c = v[i];
        let ghost k = i - start;
        proof {
            assert(d.take(k + 1).drop_last() =~= d.take(k));
            assert(d.take(k + 1).last() == c);
        }
        if c < '0' || c > '9' {
            proof {
                assert(d[k] == c);
                assert(!all_digits(d));
            }
            return None;
        }
        let digit = (c as u32 - '0' as u32) as u32;
        let next = value * 10 + digit;
        proof {
            assert(all_digits(d.take(k + 1))) by {
                assert forall|j: int| 0 <= j < k + 1 implies '0' <= #[trigger] d.take(k + 1)[j]
                    && d.take(k + 1)[j] <= '9' by {
                    if j < k {
                        assert(d.take(k + 1)[j] == d.take(k)[j]);
                    }
                }
            }
            assert(digits_value(d.take(k + 1)) == value * 10 + digit);
        }
        if next > 65535 {
            proof {
                if all_digits(d) {
                    lemma_digits_prefix(d, k + 1);
                }
            }
            return None;
        }
        value = next;
        i = i + 1;
    }
    proof {
        assert(d.take(n - start) =~= d);
    }
    Some(value as u16)
}

/// `s` from its first ASCII digit on (empty when it has none).
pub open spec fn from_first_digit(s: Seq<char>) -> Seq<char>
    decreases s.len(),
{
    if s.len() == 0 || ('0' <= s[0] && s[0] <= '9') {
        s
    } else {
        from_first_digit(s.drop_first())
    }
}

/// The number of a message element identifier: everything from its first
/// digit on, read as a 16-bit number, or 65535 when that is not a number.
pub open spec fn spec_message_numeric_id(id: Seq<char>) -> u16 {
    match spec_parse_u16(from_first_digit(id)) {
        Some(n) => n,
        None => 65535,
    }
}

/// The number of a message element identifier (`UM20` gives 20), used to
/// order the commands of a menu; 65535 when it has none.
pub fn message_numeric_id(id: &str) -> (r: u16)
    ensures
        r == spec_message_numeric_id(id@),
{
    let v = chars_of(id);
    let mut k: usize = 0;
    proof {
        assert(v@.subrange(0, v@.len() as int) =~= v@);
    }
    while k < v.len() && !('0' <= v[k] && v[k] <= '9')
        invariant
            k <= v@.len(),
            from_first_digit(v@) == from_first_digit(v@.subrange(k as int, v@.len() as int)),
        decreases v@.len() - k,
    {
        proof {
            assert(v@.subrange(k as int, v@.len() as int).drop_first() =~= v@.subrange(
                k + 1,
                v@.len() as int,
            ));
        }
        k = k + 1;
    }
    proof {
        assert(v@.subrange(0, v@.len() as int) =~= v@);
        assert(from_first_digit(v@.subrange(k as int, v@.len() as int)) == v@.subrange(
            k as int,
            v@.len() as int,
        ));
    }
    match parse_u16_from(&v, k) {
        Some(n) => n,
        None => 65535,
    }
}

/// The decimal text of a 64-bit number, as `u64::to_string` writes it.
pub fn u64_to_text(n: u64) -> (r: String)
    ensures
        r@ == decimal(n as nat),
    decreases n,
{
    if n < 10 {
        let mut s = String::new();
        s.append(digit_text(n as u8));
        proof {
            assert(s@ =~= seq![digit_char(n as int)]);
        }
        s
    } else {
        let mut s = u64_to_text(n / 10);
        s.append(digit_text((n % 10) as u8));
        proof {
            assert(s@ =~= decimal((n / 10) as nat).push(digit_char((n % 10) as int)));
        }
        s
    }
}

/// A number written with at least two digits (`{:02}`).
pub open spec fn two_digits(n: nat) -> Seq<char> {
    if n < 10 {
        seq!['0'] + decimal(n)
    } else {
        decimal(n)
    }
}

fn two_digit_text(n: u64) -> (r: String)
    ensures
        r@ == two_digits(n as nat),
{
    let t = u64_to_text(n);
    if n < 10 {
        let mut s = String::new();
        s.append("0");
        s.append(t.as_str());
        proof {
            reveal_strlit("0");
            assert(s@ =~= seq!['0'] + decimal(n as nat));
        }
        s
    } else {
        t
    }
}

/// How long a STANDBY has been waiting, as `MM:SS` (minutes grow past two
/// digits), from the time of the row and the time now, both in milliseconds
/// since the epoch; a row from the future counts as zero.
pub open spec fn spec_elapsed_label(timestamp: int, now: int) -> Seq<char> {
    let d = now - timestamp;
    let total: int = if d < 0 {
        0
    } else {
        d / 1000
    };
    two_digits((total / 60) as nat) + ":"@ + two_digits((total % 60) as nat)
}

/// The clock shown on a STANDBY card.
pub fn standby_elapsed_label(timestamp: i64, now: i64) -> (r: String)
    ensures
        r@ == spec_elapsed_label(timestamp as int, now as int),
{
    let d: i128 = now as i128 - timestamp as i128;
    let total: u64 = if d < 0 {
        0
    } else {
        (d / 1000) as u64
    };
    let mut s = two_digit_text(total / 60);
    s.append(":");
    let ss = two_digit_text(total % 60);
    s.append(ss.as_str());
    proof {
        reveal_strlit(":");
    }
    s
}

/// Parse a 16-bit number written in decimal, as `u16::from_str` does.
pub fn parse_u16(s: &str) -> (r: Option<u16>)
    ensures
        r == spec_parse_u16(s@),
{
    let v = chars_of(s);
    proof {
        assert(v@.subrange(0, v@.len() as int) =~= v@);
    }
    parse_u16_from(&v, 0)
}


/// `u64::from_str`: an optional `+`, then one or more ASCII digits whose
/// value fits in 64 bits.
pub open spec fn spec_parse_u64(s: Seq<char>) -> Option<u64> {
    let d = if s.len() > 0 && s[0] == '+' {
        s.drop_first()
    } else {
        s
    };
    if d.len() > 0 && all_digits(d) && digits_value(d) <= u64::MAX {
        Some(digits_value(d) as u64)
    } else {
        None
    }
}

/// Parse a 64-bit number written in decimal, as `u64::from_str` does.
pub fn parse_u64(s: &str) -> (r: Option<u64>)
    ensures
        r == spec_parse_u64(s@),
{
    let v = chars_of(s);
    let n = v.len();
    let start: usize = if n > 0 && v[0] == '+' {
        1
    } else {
        0
    };
    let ghost d = v@.subrange(start as int, n as int);
    proof {
        if start == 1 {
            assert(v@.drop_first() =~= d);
        } else {
            assert(v@ =~= d);
        }
    }
    if start == n {
        return None;
    }
    let mut value: u128 = 0;
    let mut i = start;
    proof {
        assert(d.take(0) =~= Seq::<char>::empty());
    }
    while i < n
        invariant
            start <= i <= n == v@.len(),
            start < n,
            v@ == s@,
            d == v@.subrange(start as int, n as int),
            d == (if s@.len() > 0 && s@[0] == '+' {
                s@.drop_first()
            } else {
                s@
            }),
            all_digits(d.take(i - start)),
            value as int == digits_value(d.take(i - start)),
            value <= u64::MAX,
        decreases n - i,
    {
        let c = v[i];
        let ghost k = i - start;
        proof {
            assert(d.take(k + 1).drop_last() =~= d.take(k));
            assert(d.take(k + 1).last() == c);
        }
        if c < '0' || c > '9' {
            proof {
                assert(d[k] == c);
                assert(!all_digits(d));
            }
            return None;
        }
        let digit = (c as u32 - '0' as u32) as u128;
        let next = value * 10 + digit;
        proof {
            assert(all_digits(d.take(k + 1))) by {
                assert forall|j: int| 0 <= j < k + 1 implies '0' <= #[trigger] d.take(k + 1)[j]
                    && d.take(k + 1)[j] <= '9' by {
                    if j < k {
                        assert(d.take(k + 1)[j] == d.take(k)[j]);
                    }
                }
            }
            assert(digits_value(d.take(k + 1)) == value * 10 + digit);
        }
        if next > u64::MAX as u128 {
            proof {
                if all_digits(d) {
                    lemma_digits_prefix(d, k + 1);
                }
            }
            return None;
        }
        value = next;
        i = i + 1;
    }
    proof {
        assert(d.take(n - start) =~= d);
    }
    Some(value as u64)
}

} // verus!
