//! Decimal numbers in text, and the request headers the gateway reads:
//! `Retry-After` and W3C `traceparent`.
use vstd::prelude::*;

use crate::codec::opt_view;

verus! {

/// The ASCII digit of `d` (0 ≤ d < 10).
pub open spec fn digit_char(d: int) -> char {
    (d + 48) as char
}

pub open spec fn is_digit(c: char) -> bool {
    '0' <= c && c <= '9'
}

/// Value of a digit character.
pub open spec fn digit_value(c: char) -> int {
    c as int - 48
}

/// Decimal representation of `n`, without leading zeros (`0` is "0").
pub open spec fn decimal(n: nat) -> Seq<char>
    decreases n,
{
    if n < 10 {
        seq![digit_char(n as int)]
    } else {
        decimal(n / 10).push(digit_char((n % 10) as int))
    }
}

/// Value of a sequence of digits, most significant first.
pub open spec fn digits_value(s: Seq<char>) -> nat
    decreases s.len(),
{
    if s.len() == 0 {
        0
    } else {
        (digits_value(s.drop_last()) * 10 + digit_value(s.last())) as nat
    }
}

pub open spec fn all_digits(s: Seq<char>) -> bool {
    forall|i: int| 0 <= i < s.len() ==> is_digit(#[trigger] s[i])
}

/// `u64` parsing as Rust's `str::parse::<u64>` does it: an optional `+`, then
/// one or more decimal digits whose value fits in `u64`; anything else
/// (empty, a lone `+`, a sign `-`, spaces, other characters, overflow) fails.
pub open spec fn parse_u64_spec(s: Seq<char>) -> Option<u64> {
    let d = if s.len() > 0 && s[0] == '+' {
        s.drop_first()
    } else {
        s
    };
    if d.len() > 0 && all_digits(d) && digits_value(d) <= u64::MAX {
        Some(digits_value(d) as u64)
    } else {
        None
    }
}

fn digit_str(d: u64) -> (r: &'static str)
    requires
        d < 10,
    ensures
        r@ == seq![digit_char(d as int)],
{
    let r = if d == 0 {
        proof {
            reveal_strlit("0");
        }
        "0"
    } else if d == 1 {
        proof {
            reveal_strlit("1");
        }
        "1"
    } else if d == 2 {
        proof {
            reveal_strlit("2");
        }
        "2"
    } else if d == 3 {
        proof {
            reveal_strlit("3");
        }
        "3"
    } else if d == 4 {
        proof {
            reveal_strlit("4");
        }
        "4"
    } else if d == 5 {
        proof {
            reveal_strlit("5");
        }
        "5"
    } else if d == 6 {
        proof {
            reveal_strlit("6");
        }
        "6"
    } else if d == 7 {
        proof {
            reveal_strlit("7");
        }
        "7"
    } else if d == 8 {
        proof {
            reveal_strlit("8");
        }
        "8"
    } else {
        proof {
            reveal_strlit("9");
        }
        "9"
    };
    assert(r@ =~= seq![digit_char(d as int)]);
    r
}

/// Appends the decimal representation of `n` to `s`.
pub fn push_decimal(s: &mut String, n: u64)
    ensures
        final(s)@ == old(s)@ + decimal(n as nat),
    decreases n,
{
    if n >= 10 {
        push_decimal(s, n / 10);
    }
    let ghost mid = s@;
    s.append(digit_str(n % 10));
    proof {
        if n >= 10 {
            assert(s@ =~= old(s)@ + decimal(n as nat));
        } else {
            assert(s@ =~= old(s)@ + decimal(n as nat));
        }
    }
}

/// Parses a `u64` as `parse_u64_spec` states.
pub fn parse_u64(s: &str) -> (r: Option<u64>)
    ensures
        r == parse_u64_spec(s@),
{
    let len = s.unicode_len();
    let mut start: usize = 0;
    if len > 0 && s.get_char(0) == '+' {
        start = 1;
    }
    let ghost d = if s@.len() > 0 && s@[0] == '+' {
        s@.drop_first()
    } else {
        s@
    };
    assert(d =~= s@.subrange(start as int, len as int));
    if start >= len {
        return None;
    }
    let mut value: u64 = 0;
    let mut i: usize = start;
    while i < len
        invariant
            start <= i <= len,
            len == s@.len(),
            d == s@.subrange(start as int, len as int),
            d == (if s@.len() > 0 && s@[0] == '+' {
                s@.drop_first()
            } else {
                s@
            }),
            d.len() > 0,
            all_digits(s@.subrange(start as int, i as int)),
            value == digits_value(s@.subrange(start as int, i as int)),
        decreases len - i,
    {
        let c = s.get_char(i);
        let ghost pre = s@.subrange(start as int, i as int);
        let ghost next = s@.subrange(start as int, i + 1);
        assert(next.drop_last() =~= pre);
        assert(next.last() == c);
        if !('0' <= c && c <= '9') {
            assert(d[i - start] == c);
            return None;
        }
        let dv: u64 = (c as u32 - 48) as u64;
        if value > (u64::MAX - dv) / 10 {
            proof {
                assert(digits_value(next) > u64::MAX) by (nonlinear_arith)
                    requires
                        value > (u64::MAX - dv) / 10,
                        digits_value(next) == value * 10 + dv,
                        dv <= 9,
                ;
                assert(d.subrange(0, (i + 1 - start) as int) =~= next);
                if all_digits(d) {
                    lemma_digits_value_prefix_le(d, (i + 1 - start) as int);
                }
            }
            return None;
        }
        assert(value * 10 + dv <= u64::MAX) by (nonlinear_arith)
            requires
                value <= (u64::MAX - dv) / 10,
                dv <= 9,
        ;
        value = value * 10 + dv;
        i = i + 1;
    }
    Some(value)
}

/// A prefix of a digit string never has a larger value than the whole.
pub proof fn lemma_digits_value_prefix_le(s: Seq<char>, n: int)
    requires
        0 <= n <= s.len(),
        all_digits(s),
    ensures
        digits_value(s.subrange(0, n)) <= digits_value(s),
    decreases s.len() - n,
{
    if n < s.len() {
        lemma_digits_value_prefix_le(s, n + 1);
        let a = s.subrange(0, n);
        let b = s.subrange(0, n + 1);
        assert(b.drop_last() =~= a);
        assert(is_digit(s[n]));
        assert(digits_value(b) == digits_value(a) * 10 + digit_value(b.last()));
        assert(digits_value(a) <= digits_value(b)) by (nonlinear_arith)
            requires
                digits_value(b) == digits_value(a) * 10 + digit_value(b.last()),
                digit_value(b.last()) >= 0,
        ;
    } else {
        assert(s.subrange(0, n) =~= s);
    }
}

/// `Retry-After` as the gateway reads it: whole seconds, `None` when the
/// header is absent or not a valid `u64`.
pub fn extract_retry_after(header: Option<&str>) -> (r: Option<u64>)
    ensures
        r == match header {
            Some(v) => parse_u64_spec(v@),
            None => None,
        },
{
    match header {
        Some(v) => parse_u64(v),
        None => None,
    }
}

/// Index of the first `-` of `s` at or after `from`; `s.len()` when there is none.
pub open spec fn next_dash(s: Seq<char>, from: int) -> int
    decreases s.len() - from,
{
    if from >= s.len() {
        s.len() as int
    } else if s[from] == '-' {
        from
    } else {
        next_dash(s, from + 1)
    }
}

/// The trace id and parent span id of a W3C `traceparent`
/// (`00-{trace_id}-{span_id}-{flags}`): the second and third `-`-separated
/// segments, present when the value has at least three segments.
pub open spec fn traceparent_spec(s: Seq<char>) -> (Option<Seq<char>>, Option<Seq<char>>) {
    let d1 = next_dash(s, 0);
    if d1 < s.len() {
        let d2 = next_dash(s, d1 + 1);
        if d2 < s.len() {
            let d3 = next_dash(s, d2 + 1);
            (Some(s.subrange(d1 + 1, d2)), Some(s.subrange(d2 + 1, d3)))
        } else {
            (None, None)
        }
    } else {
        (None, None)
    }
}

pub proof fn lemma_next_dash_bounds(s: Seq<char>, from: int)
    requires
        0 <= from,
    ensures
        from <= next_dash(s, from) <= s.len() || (from > s.len() && next_dash(s, from)
            == s.len()),
    decreases s.len() - from,
{
    if from < s.len() && s[from] != '-' {
        lemma_next_dash_bounds(s, from + 1);
    }
}

fn find_dash(s: &str, len: usize, from: usize) -> (r: usize)
    requires
        len == s@.len(),
        from <= len,
    ensures
        r == next_dash(s@, from as int),
        from <= r <= len,
{
    let mut i: usize = from;
    proof {
        lemma_next_dash_bounds(s@, from as int);
    }
    while i < len
        invariant
            from <= i <= len,
            len == s@.len(),
            next_dash(s@, i as int) == next_dash(s@, from as int),
        decreases len - i,
    {
        if s.get_char(i) == '-' {
            return i;
        }
        i = i + 1;
    }
    i
}

/// Trace context of an optional `traceparent` header value.
pub open spec fn header_trace(header: Option<Seq<char>>) -> (Option<Seq<char>>, Option<Seq<char>>) {
    match header {
        Some(v) => traceparent_spec(v),
        None => (None, None),
    }
}

/// An optional header value as plain text.
pub open spec fn header_view(header: Option<&str>) -> Option<Seq<char>> {
    match header {
        Some(v) => Some(v@),
        None => None,
    }
}

/// Trace context of a `traceparent` header value, as `traceparent_spec`
/// states; `(None, None)` when the header is absent.
pub fn extract_traceparent(header: Option<&str>) -> (r: (Option<String>, Option<String>))
    ensures
        (opt_view(r.0), opt_view(r.1)) == header_trace(header_view(header)),
{
    let v = match header {
        Some(v) => v,
        None => return (None, None),
    };
    let len = v.unicode_len();
    let d1 = find_dash(v, len, 0);
    if d1 >= len {
        return (None, None);
    }
    let d2 = find_dash(v, len, d1 + 1);
    if d2 >= len {
        return (None, None);
    }
    let d3 = find_dash(v, len, d2 + 1);
    let trace = String::from_str(v.substring_char(d1 + 1, d2));
    let parent = String::from_str(v.substring_char(d2 + 1, d3));
    (Some(trace), Some(parent))
}

/// Decimal text round-trips: parsing what `push_decimal` writes gives the
/// number back.
pub proof fn lemma_decimal_round_trip(n: u64)
    ensures
        parse_u64_spec(decimal(n as nat)) == Some(n),
{
    lemma_decimal_digits(n as nat);
    assert(decimal(n as nat)[0] != '+');
}

/// `decimal(n)` is a non-empty digit string of value `n`, not starting with `+`.
pub proof fn lemma_decimal_digits(n: nat)
    ensures
        decimal(n).len() > 0,
        all_digits(decimal(n)),
        digits_value(decimal(n)) == n,
        decimal(n)[0] != '+',
    decreases n,
{
    let k = (n % 10) as int;
    assert(digit_char(k) as int == k + 48);
    assert(digit_value(digit_char(k)) == k);
    let d = decimal(n);
    if n >= 10 {
        lemma_decimal_digits(n / 10);
        assert(d.drop_last() =~= decimal(n / 10));
        assert(d[0] == decimal(n / 10)[0]);
        assert(digits_value(d) == digits_value(decimal(n / 10)) * 10 + k);
    } else {
        assert(d.drop_last() =~= Seq::<char>::empty());
        assert(digits_value(Seq::<char>::empty()) == 0);
        assert(d.last() == digit_char(k));
        assert(digits_value(d) == k);
    }
}

} // verus!
