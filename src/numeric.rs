//! Decimal integers: reading them out of text and writing them back.
use vstd::prelude::*;
use vstd::string::*;

verus! {

pub open spec fn is_digit(c: char) -> bool {
    '0' <= c && c <= '9'
}

pub open spec fn digit_value(c: char) -> int {
    (c as int) - ('0' as int)
}

pub open spec fn all_digits(s: Seq<char>) -> bool {
    forall|i: int| 0 <= i < s.len() ==> is_digit(#[trigger] s[i])
}

/// The value of a run of decimal digits, most significant first.
pub open spec fn digits_value(s: Seq<char>) -> int
    decreases s.len(),
{
    if s.len() == 0 {
        0
    } else {
        digits_value(s.drop_last()) * 10 + digit_value(s.last())
    }
}

/// The integer spelled by an optional `+` or `-` followed by at least one digit.
pub open spec fn decimal_literal(s: Seq<char>) -> Option<int> {
    if s.len() > 0 && (s[0] == '+' || s[0] == '-') {
        let body = s.drop_first();
        if body.len() > 0 && all_digits(body) {
            Some(
                if s[0] == '-' {
                    -digits_value(body)
                } else {
                    digits_value(body)
                },
            )
        } else {
            None
        }
    } else if s.len() > 0 && all_digits(s) {
        Some(digits_value(s))
    } else {
        None
    }
}

pub open spec fn fits_i32(v: int) -> bool {
    i32::MIN <= v <= i32::MAX
}

/// What reading `s` as an `i32` gives: a decimal literal whose value fits.
pub open spec fn i32_literal(s: Seq<char>) -> Option<int> {
    match decimal_literal(s) {
        Some(v) => if fits_i32(v) {
            Some(v)
        } else {
            None
        },
        None => None,
    }
}

pub open spec fn opt_int(r: Option<i32>) -> Option<int> {
    match r {
        Some(v) => Some(v as int),
        None => None,
    }
}

pub proof fn lemma_digits_value_nonneg(s: Seq<char>)
    requires
        all_digits(s),
    ensures
        digits_value(s) >= 0,
    decreases s.len(),
{
    if s.len() > 0 {
        assert(all_digits(s.drop_last()));
        lemma_digits_value_nonneg(s.drop_last());
        assert(is_digit(s[s.len() - 1]));
    }
}

/// A prefix of a digit run is never worth more than the whole run.
pub proof fn lemma_digits_value_prefix(s: Seq<char>, k: int)
    requires
        all_digits(s),
        0 <= k <= s.len(),
    ensures
        digits_value(s.take(k)) <= digits_value(s),
    decreases s.len(),
{
    if k < s.len() {
        let p = s.drop_last();
        assert(all_digits(p));
        lemma_digits_value_prefix(p, k);
        assert(p.take(k) =~= s.take(k));
        lemma_digits_value_nonneg(p);
        assert(is_digit(s[s.len() - 1]));
    } else {
        assert(s.take(k) =~= s);
    }
}

/// Reads the characters `from..to` of `s` as an `i32`: an optional sign and
/// at least one digit, with a value in range; anything else gives `None`.
pub fn parse_i32_in(s: &str, from: usize, to: usize) -> (r: Option<i32>)
    requires
        from <= to <= s@.len(),
    ensures
        opt_int(r) == i32_literal(s@.subrange(from as int, to as int)),
{
    let ghost whole = s@.subrange(from as int, to as int);
    let mut start = from;
    let mut negative = false;
    if from < to {
        let c = s.get_char(from);
        if c == '+' || c == '-' {
            negative = c == '-';
            start = from + 1;
        }
    }
    let ghost body = s@.subrange(start as int, to as int);
    assert(start > from ==> body =~= whole.drop_first());
    if start == to {
        return None;
    }
    let mut i = start;
    let mut mag: u64 = 0;
    while i < to
        invariant
            from <= start < to <= s@.len(),
            start <= i <= to,
            whole == s@.subrange(from as int, to as int),
            body == s@.subrange(start as int, to as int),
            start > from ==> start == from + 1 && whole.len() > 0 && (whole[0] == '+'
                || whole[0] == '-') && body =~= whole.drop_first() && negative == (whole[0]
                == '-'),
            start == from ==> !(whole[0] == '+' || whole[0] == '-') && body == whole,
            all_digits(s@.subrange(start as int, i as int)),
            mag == digits_value(s@.subrange(start as int, i as int)),
            mag <= 2147483648,
        decreases to - i,
    {
        let c = s.get_char(i);
        if !('0' <= c && c <= '9') {
            assert(body[i - start] == c);
            assert(!all_digits(body));
            return None;
        }
        let ghost prev = s@.subrange(start as int, i as int);
        let ghost next = s@.subrange(start as int, i + 1);
        assert(next.drop_last() =~= prev);
        let d = ((c as u32) - 48) as u64;
        mag = mag * 10 + d;
        assert(all_digits(next)) by {
            assert forall|j: int| 0 <= j < next.len() implies is_digit(#[trigger] next[j]) by {
                if j < prev.len() {
                    assert(next[j] == prev[j]);
                }
            }
        }
        i = i + 1;
        if mag > 2147483648 {
            proof {
                let n = (i - start) as int;
                if all_digits(body) {
                    assert(body.take(n) =~= next);
                    lemma_digits_value_prefix(body, n);
                }
            }
            return None;
        }
    }
    assert(s@.subrange(start as int, i as int) =~= body);
    if negative {
        Some((0i64 - mag as i64) as i32)
    } else if mag <= 2147483647 {
        Some(mag as i32)
    } else {
        None
    }
}

} // verus!

verus! {

pub open spec fn digit_chars() -> Seq<char> {
    seq!['0', '1', '2', '3', '4', '5', '6', '7', '8', '9']
}

/// The decimal digits of `n`, most significant first, without leading zeros.
pub open spec fn digits_of(n: nat) -> Seq<char>
    decreases n,
{
    if n < 10 {
        seq![digit_chars()[n as int]]
    } else {
        digits_of(n / 10).push(digit_chars()[(n % 10) as int])
    }
}

/// The usual decimal text of an integer: a `-` before negative values.
pub open spec fn decimal_text(v: int) -> Seq<char> {
    if v < 0 {
        seq!['-'] + digits_of((-v) as nat)
    } else {
        digits_of(v as nat)
    }
}

fn digit_str(d: u64) -> (r: &'static str)
    requires
        d < 10,
    ensures
        r@ == seq![digit_chars()[d as int]],
{
    proof {
        reveal_strlit("0");
        reveal_strlit("1");
        reveal_strlit("2");
        reveal_strlit("3");
        reveal_strlit("4");
        reveal_strlit("5");
        reveal_strlit("6");
        reveal_strlit("7");
        reveal_strlit("8");
        reveal_strlit("9");
    }
    let r = match d {
        0 => "0",
        1 => "1",
        2 => "2",
        3 => "3",
        4 => "4",
        5 => "5",
        6 => "6",
        7 => "7",
        8 => "8",
        _ => "9",
    };
    assert(r@ =~= seq![digit_chars()[d as int]]);
    r
}

fn append_digits(out: &mut String, n: u64)
    ensures
        final(out)@ == old(out)@ + digits_of(n as nat),
    decreases n,
{
    if n >= 10 {
        append_digits(out, n / 10);
    }
    out.append(digit_str(n % 10));
    assert(digits_of(n as nat) == if n < 10 {
        seq![digit_chars()[n as int]]
    } else {
        digits_of((n / 10) as nat).push(digit_chars()[(n % 10) as int])
    });
    assert(final(out)@ =~= old(out)@ + digits_of(n as nat));
}

/// Appends the decimal text of `v` to `out`.
pub fn append_i32(out: &mut String, v: i32)
    ensures
        final(out)@ == old(out)@ + decimal_text(v as int),
{
    if v < 0 {
        proof {
            reveal_strlit("-");
        }
        out.append("-");
        append_digits(out, (0i64 - v as i64) as u64);
        assert(final(out)@ =~= old(out)@ + decimal_text(v as int));
    } else {
        append_digits(out, v as u64);
    }
}

} // verus!
