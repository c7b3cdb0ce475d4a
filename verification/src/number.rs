//! Whole numbers as decimal text.
use crate::text;
use vstd::prelude::*;

verus! {

/// The decimal digit `d`.
pub open spec fn digit(d: nat) -> char {
    (48 + d) as char
}

/// `n` in decimal, without leading zeros.
pub open spec fn decimal(n: nat) -> Seq<char>
    decreases n,
{
    if n < 10 {
        seq![digit(n)]
    } else {
        decimal(n / 10).push(digit(n % 10))
    }
}

/// `n` in decimal, with a minus sign where it is negative.
pub open spec fn integer(n: int) -> Seq<char> {
    if n < 0 {
        seq!['-'] + decimal((-n) as nat)
    } else {
        decimal(n as nat)
    }
}

/// `n` in decimal.
pub fn natural_text(n: u64) -> (r: String)
    ensures
        r@ == decimal(n as nat),
    decreases n,
{
    let d: u8 = (n % 10) as u8;
    let c: char = (48 + d) as char;
    let mut r: String = if n < 10 {
        String::new()
    } else {
        natural_text(n / 10)
    };
    r.push(c);
    proof {
        if n < 10 {
            assert(r@ =~= seq![digit(n as nat)]);
        }
    }
    r
}

/// `n` in decimal.
pub fn integer_text(n: i64) -> (r: String)
    ensures
        r@ == integer(n as int),
{
    if n < 0 {
        let mut r: String = String::new();
        r.push('-');
        let m: u64 = (-(n + 1)) as u64 + 1;
        r.append(natural_text(m).as_str());
        proof {
            assert(r@ =~= seq!['-'] + decimal((-n) as nat));
        }
        r
    } else {
        natural_text(n as u64)
    }
}

/// A decimal digit.
pub open spec fn is_digit(c: char) -> bool {
    '0' <= c && c <= '9'
}

/// The number that a run of decimal digits denotes.
pub open spec fn value(s: Seq<char>) -> int
    decreases s.len(),
{
    if s.len() == 0 {
        0
    } else {
        value(s.drop_last()) * 10 + (s.last() as int - '0' as int)
    }
}

/// The digits of a number that may start with a plus sign.
pub open spec fn unsigned_part(s: Seq<char>) -> Seq<char> {
    if s.len() > 0 && s[0] == '+' {
        s.drop_first()
    } else {
        s
    }
}

/// One or more decimal digits.
pub open spec fn digits(s: Seq<char>) -> bool {
    s.len() > 0 && forall|i: int| 0 <= i < s.len() ==> is_digit(#[trigger] s[i])
}

/// A number in decimal is a run of digits.
pub proof fn lemma_decimal(n: nat)
    ensures
        digits(decimal(n)),
    decreases n,
{
    if n >= 10 {
        lemma_decimal(n / 10);
        assert forall|i: int| 0 <= i < decimal(n).len() implies is_digit(
            #[trigger] decimal(n)[i],
        ) by {
            if i < decimal(n / 10).len() {
                assert(decimal(n / 10)[i] == decimal(n)[i]);
            }
        }
    }
}

/// The 16-bit number that `s` denotes: an optional plus sign and one or more digits.
pub open spec fn u16_of(s: Seq<char>) -> Option<u16> {
    let t = unsigned_part(s);
    if digits(t) && value(t) <= 65535 {
        Some(value(t) as u16)
    } else {
        None
    }
}

proof fn lemma_value_grows(s: Seq<char>, i: int)
    requires
        forall|j: int| 0 <= j < s.len() ==> is_digit(#[trigger] s[j]),
        0 <= i <= s.len(),
    ensures
        0 <= value(s.take(i)) <= value(s),
    decreases s.len(),
{
    if i == s.len() {
        assert(s.take(i) =~= s);
        if s.len() > 0 {
            let rest = s.drop_last();
            lemma_value_grows(rest, i - 1);
            assert(rest.take(i - 1) =~= rest);
        }
    } else {
        let rest = s.drop_last();
        lemma_value_grows(rest, i);
        assert(rest.take(i) =~= s.take(i));
    }
}

/// The 16-bit number that `s` denotes, as `str::parse` reads it.
pub fn parse_u16(s: &str) -> (r: Option<u16>)
    ensures
        r == u16_of(s@),
{
    let chars: Vec<char> = text::chars_of(s);
    let n: usize = chars.len();
    let start: usize = if n > 0 && chars[0] == '+' {
        1
    } else {
        0
    };
    let ghost t = unsigned_part(s@);
    proof {
        assert(t =~= s@.skip(start as int));
    }
    if start == n {
        return None;
    }
    let mut total: u32 = 0;
    let mut i: usize = start;
    while i < n
        invariant
            start <= i <= n == chars@.len(),
            chars@ == s@,
            t == unsigned_part(s@),
            t == s@.skip(start as int),
            forall|j: int| 0 <= j < i - start ==> is_digit(#[trigger] t[j]),
            total == value(t.take(i - start)),
            total <= 65535,
        decreases n - i,
    {
        let c: char = chars[i];
        proof {
            assert(t[i - start] == c);
        }
        if c < '0' || '9' < c {
            return None;
        }
        let d: u32 = (c as u32) - 48;
        total = total * 10 + d;
        i = i + 1;
        proof {
            assert(t.take(i - start).drop_last() =~= t.take(i - start - 1));
            assert(t.take(i - start).last() == c);
        }
        if total > 65535 {
            proof {
                if digits(t) {
                    lemma_value_grows(t, i - start);
                }
            }
            return None;
        }
    }
    proof {
        assert(t.take(n - start) =~= t);
    }
    Some(total as u16)
}

} // verus!
