//! Verified text helpers: decimal rendering of numbers and strict parsing
//! of the numeric inputs the display layer hands over.

use vstd::prelude::*;
use vstd::string::StrSliceExecFns;
use vstd::string::StringExecFns;

use crate::ControllerError;

verus! {

/// The decimal digit character for a value below ten.
pub open spec fn digit_char(d: nat) -> char {
    if d == 0 {
        '0'
    } else if d == 1 {
        '1'
    } else if d == 2 {
        '2'
    } else if d == 3 {
        '3'
    } else if d == 4 {
        '4'
    } else if d == 5 {
        '5'
    } else if d == 6 {
        '6'
    } else if d == 7 {
        '7'
    } else if d == 8 {
        '8'
    } else {
        '9'
    }
}

/// The decimal rendering of a natural number, most significant digit first.
pub open spec fn dec_digits(n: nat) -> Seq<char>
    decreases n,
{
    if n < 10 {
        seq![digit_char(n)]
    } else {
        dec_digits(n / 10).push(digit_char(n % 10))
    }
}

/// The decimal rendering of an integer, with a leading minus sign when
/// negative.
pub open spec fn dec_int(n: int) -> Seq<char> {
    if n < 0 {
        seq!['-'] + dec_digits((-n) as nat)
    } else {
        dec_digits(n as nat)
    }
}

/// A value below one hundred, always rendered as two digits.
pub open spec fn dec_pad2(n: nat) -> Seq<char> {
    if n < 10 {
        seq!['0', digit_char(n)]
    } else {
        dec_digits(n)
    }
}

/// The one-character string for a decimal digit.
fn digit_str(d: u8) -> (r: &'static str)
    requires
        d < 10,
    ensures
        r@ =~= seq![digit_char(d as nat)],
{
    proof {
        reveal_strlit("0");
        reveal_strlit("1");
        reveal_strlit("2");
        reveal_strlit("3");
        reveal_strlit("4");
        reveal_strlit("5");
        reveal_strlit("6");
        reveal_strlit("7");
        reveal_strlit("8");
        reveal_strlit("9");
    }
    match d {
        0 => "0",
        1 => "1",
        2 => "2",
        3 => "3",
        4 => "4",
        5 => "5",
        6 => "6",
        7 => "7",
        8 => "8",
        _ => "9",
    }
}

/// Renders a number in decimal.
pub fn fmt_u64(n: u64) -> (r: String)
    ensures
        r@ == dec_digits(n as nat),
    decreases n,
{
    if n < 10 {
        let s = String::from_str(digit_str(n as u8));
        proof {
            assert(s@ =~= dec_digits(n as nat));
        }
        s
    } else {
        let mut s = fmt_u64(n / 10);
        s.append(digit_str((n % 10) as u8));
        proof {
            assert(s@ =~= dec_digits(n as nat));
        }
        s
    }
}

/// Renders a signed number in decimal.
pub fn fmt_i32(n: i32) -> (r: String)
    ensures
        r@ == dec_int(n as int),
{
    if n >= 0 {
        fmt_u64(n as u64)
    } else {
        let m: u64 = (-(n as i64)) as u64;
        let mut s = String::from_str("-");
        let rest = fmt_u64(m);
        s.append(rest.as_str());
        proof {
            reveal_strlit("-");
            assert(s@ =~= dec_int(n as int));
        }
        s
    }
}

/// Renders a value below one hundred as exactly two digits.
pub fn fmt_pad2(n: u8) -> (r: String)
    requires
        n < 100,
    ensures
        r@ == dec_pad2(n as nat),
{
    if n < 10 {
        let mut s = String::from_str("0");
        s.append(digit_str(n));
        proof {
            reveal_strlit("0");
            assert(s@ =~= dec_pad2(n as nat));
        }
        s
    } else {
        fmt_u64(n as u64)
    }
}

/// A decimal digit.
pub open spec fn is_digit(c: char) -> bool {
    '0' <= c && c <= '9'
}

/// The value of a decimal digit character.
pub open spec fn digit_val(c: char) -> nat {
    (c as int - 48) as nat
}

/// Every character of the sequence is a decimal digit.
pub open spec fn all_digits(s: Seq<char>) -> bool {
    forall|i: int| 0 <= i < s.len() ==> is_digit(#[trigger] s[i])
}

/// The numeric value of a digit sequence.
pub open spec fn dec_value(s: Seq<char>) -> nat
    decreases s.len(),
{
    if s.len() == 0 {
        0
    } else {
        dec_value(s.drop_last()) * 10 + digit_val(s.last())
    }
}

/// A longer digit prefix never has a smaller value.
proof fn lemma_dec_value_prefix_le(s: Seq<char>, i: int, j: int)
    requires
        0 <= i <= j <= s.len(),
    ensures
        dec_value(s.take(i)) <= dec_value(s.take(j)),
    decreases j - i,
{
    if i < j {
        lemma_dec_value_prefix_le(s, i, j - 1);
        assert(s.take(j).drop_last() == s.take(j - 1));
        assert(dec_value(s.take(j)) == dec_value(s.take(j - 1)) * 10 + digit_val(s.take(j).last()));
    }
}

/// Parses a node id: a nonempty, all-digit string whose value fits in a
/// byte. Anything else is a `ParseError`.
pub fn parse_node_id(s: &str) -> (r: Result<u8, ControllerError>)
    ensures
        r is Ok <==> (s@.len() > 0 && all_digits(s@) && dec_value(s@) <= 255),
        r is Ok ==> r->Ok_0 == dec_value(s@),
        r is Err ==> r->Err_0 == ControllerError::ParseError,
{
    let n = s.unicode_len();
    if n == 0 {
        return Err(ControllerError::ParseError);
    }
    let mut acc: u32 = 0;
    let mut i: usize = 0;
    while i < n
        invariant
            n == s@.len(),
            i <= n,
            all_digits(s@.take(i as int)),
            acc == dec_value(s@.take(i as int)),
            acc <= 255,
        decreases n - i,
    {
        let c = s.get_char(i);
        if c < '0' || c > '9' {
            return Err(ControllerError::ParseError);
        }
        let d = (c as u32) - 48;
        proof {
            assert(s@.take(i + 1).drop_last() == s@.take(i as int));
            assert(s@.take(i + 1).last() == c);
        }
        acc = acc * 10 + d;
        if acc > 255 {
            proof {
                lemma_dec_value_prefix_le(s@, i + 1, n as int);
                assert(s@.take(n as int) == s@);
            }
            return Err(ControllerError::ParseError);
        }
        i += 1;
    }
    proof {
        assert(s@.take(n as int) == s@);
    }
    Ok(acc as u8)
}

/// There is a dot somewhere in the sequence.
pub open spec fn has_dot(s: Seq<char>) -> bool {
    exists|k: int| 0 <= k < s.len() && s[k] == '.'
}

/// The index of the first dot.
pub open spec fn dot_index(s: Seq<char>) -> int {
    choose|k: int| 0 <= k < s.len() && s[k] == '.' && forall|j: int| 0 <= j < k ==> s[j] != '.'
}

/// The fractional digits behind the dot, scaled to hundredths.
pub open spec fn frac_scaled(fp: Seq<char>) -> nat {
    if fp.len() == 1 {
        dec_value(fp) * 10
    } else {
        dec_value(fp)
    }
}

/// A drop-rate percentage: an all-digit integer part, an optional dot with
/// one or two fractional digits, and a value of at most one hundred.
pub open spec fn percent_ok(s: Seq<char>) -> bool {
    if has_dot(s) {
        let k = dot_index(s);
        let ip = s.take(k);
        let fp = s.subrange(k + 1, s.len() as int);
        &&& ip.len() > 0
        &&& all_digits(ip)
        &&& 1 <= fp.len() <= 2
        &&& all_digits(fp)
        &&& dec_value(ip) * 100 + frac_scaled(fp) <= 10000
    } else {
        s.len() > 0 && all_digits(s) && dec_value(s) <= 100
    }
}

/// The percentage in hundredths of a percent.
pub open spec fn percent_hundredths(s: Seq<char>) -> nat {
    if has_dot(s) {
        let k = dot_index(s);
        dec_value(s.take(k)) * 100 + frac_scaled(s.subrange(k + 1, s.len() as int))
    } else {
        dec_value(s) * 100
    }
}

/// Parses a drop-rate percentage into hundredths of a percent.
///
/// Accepts `NN` or `NN.F` or `NN.FF` with a value of at most one hundred;
/// everything else is a `ParseError`.
pub fn parse_percent(s: &str) -> (r: Result<u16, ControllerError>)
    ensures
        r is Ok <==> percent_ok(s@),
        r is Ok ==> r->Ok_0 == percent_hundredths(s@),
        r is Err ==> r->Err_0 == ControllerError::ParseError,
{
    let n = s.unicode_len();
    let mut dot: usize = n;
    let mut i: usize = 0;
    while i < n
        invariant
            n == s@.len(),
            i <= n,
            dot == n ==> forall|j: int| 0 <= j < i ==> s@[j] != '.',
            dot < n ==> s@[dot as int] == '.' && (forall|j: int| 0 <= j < dot ==> s@[j] != '.'),
            dot <= n,
        decreases n - i,
    {
        if dot == n {
            let c = s.get_char(i);
            if c == '.' {
                dot = i;
            }
        }
        i += 1;
    }
    proof {
        if dot < n {
            assert(has_dot(s@));
            let k = dot_index(s@);
            if k < dot {
                assert(s@[k] == '.');
            } else if k > dot {
                assert(s@[dot as int] != '.');
            }
            assert(dot_index(s@) == dot);
        } else {
            if has_dot(s@) {
                let k = choose|k: int| 0 <= k < s@.len() && s@[k] == '.';
                assert(s@[k] != '.');
            }
        }
    }
    let int_end = dot;
    if int_end == 0 {
        return Err(ControllerError::ParseError);
    }
    let ghost dot_facts = {
        &&& dot <= n
        &&& (dot < n ==> has_dot(s@) && dot_index(s@) == dot && s@[dot as int] == '.')
        &&& (dot == n ==> !has_dot(s@))
    };
    let mut acc: u32 = 0;
    let mut i2: usize = 0;
    while i2 < int_end
        invariant
            n == s@.len(),
            int_end == dot,
            0 < int_end <= n,
            dot_facts == {
                &&& dot <= n
                &&& (dot < n ==> has_dot(s@) && dot_index(s@) == dot && s@[dot as int] == '.')
                &&& (dot == n ==> !has_dot(s@))
            },
            dot_facts,
            i2 <= int_end,
            all_digits(s@.take(i2 as int)),
            acc == dec_value(s@.take(i2 as int)),
            acc <= 100,
        decreases int_end - i2,
    {
        let c = s.get_char(i2);
        if c < '0' || c > '9' {
            proof {
                if dot < n {
                    assert(s@.take(dot as int)[i2 as int] == c);
                } else {
                    assert(s@[i2 as int] == c);
                }
            }
            return Err(ControllerError::ParseError);
        }
        let d = (c as u32) - 48;
        proof {
            assert(s@.take(i2 + 1).drop_last() == s@.take(i2 as int));
            assert(s@.take(i2 + 1).last() == c);
        }
        acc = acc * 10 + d;
        if acc > 100 {
            proof {
                lemma_dec_value_prefix_le(s@, i2 + 1, int_end as int);
                if dot == n {
                    assert(s@.take(n as int) == s@);
                }
            }
            return Err(ControllerError::ParseError);
        }
        i2 += 1;
    }
    if dot == n {
        proof {
            assert(s@.take(n as int) == s@);
        }
        return Ok((acc * 100) as u16);
    }
    let fl = n - dot - 1;
    if fl < 1 || fl > 2 {
        return Err(ControllerError::ParseError);
    }
    let ghost fp = s@.subrange(dot + 1, n as int);
    let mut fv: u32 = 0;
    let mut i3: usize = dot + 1;
    while i3 < n
        invariant
            n == s@.len(),
            dot < n,
            has_dot(s@),
            dot_index(s@) == dot,
            int_end == dot,
            0 < int_end,
            all_digits(s@.take(int_end as int)),
            acc == dec_value(s@.take(int_end as int)),
            acc <= 100,
            fl == n - dot - 1,
            1 <= fl <= 2,
            fp == s@.subrange(dot + 1, n as int),
            dot + 1 <= i3 <= n,
            all_digits(fp.take(i3 - dot - 1)),
            fv == dec_value(fp.take(i3 - dot - 1)),
            i3 - dot - 1 == 0 ==> fv == 0,
            i3 - dot - 1 == 1 ==> fv <= 9,
            fv <= 99,
        decreases n - i3,
    {
        let c = s.get_char(i3);
        if c < '0' || c > '9' {
            proof {
                assert(fp[i3 - dot - 1] == c);
            }
            return Err(ControllerError::ParseError);
        }
        let d = (c as u32) - 48;
        proof {
            assert(fp.take(i3 - dot).drop_last() == fp.take(i3 - dot - 1));
            assert(fp.take(i3 - dot).last() == c);
        }
        fv = fv * 10 + d;
        i3 += 1;
    }
    proof {
        assert(fp.take(fp.len() as int) == fp);
    }
    let scaled: u32 = if fl == 1 {
        fv * 10
    } else {
        fv
    };
    let total: u32 = acc * 100 + scaled;
    if total > 10000 {
        return Err(ControllerError::ParseError);
    }
    Ok(total as u16)
}


/// A stored drop rate, in hundredths of a percent, rendered as the
/// percentage with up to two decimals and no trailing zeros.
pub open spec fn rate_text(rate: u16) -> Seq<char> {
    if rate % 100 == 0 {
        dec_digits((rate / 100) as nat)
    } else if rate % 10 == 0 {
        dec_digits((rate / 100) as nat) + "."@ + dec_digits(((rate % 100) / 10) as nat)
    } else {
        dec_digits((rate / 100) as nat) + "."@ + dec_pad2((rate % 100) as nat)
    }
}

/// Renders a stored drop rate for display.
pub fn drone_rate_text(rate: u16) -> (r: String)
    requires
        rate <= 10000,
    ensures
        r@ == rate_text(rate),
{
    let whole = rate / 100;
    let frac = rate % 100;
    if frac == 0 {
        fmt_u64(whole as u64)
    } else if frac % 10 == 0 {
        let mut s = fmt_u64(whole as u64);
        s.append(".");
        s.append(fmt_u64((frac / 10) as u64).as_str());
        proof {
            assert(s@ =~= rate_text(rate));
        }
        s
    } else {
        let mut s = fmt_u64(whole as u64);
        s.append(".");
        s.append(fmt_pad2(frac as u8).as_str());
        proof {
            assert(s@ =~= rate_text(rate));
        }
        s
    }
}

} // verus!
