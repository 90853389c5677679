use vstd::prelude::*;

verus! {

/// The characters of `s` before its first `-` (all of `s` when it has none).
pub open spec fn before_dash(s: Seq<char>) -> Seq<char>
    decreases s.len(),
{
    if s.len() == 0 {
        s
    } else if s[0] == '-' {
        Seq::empty()
    } else {
        seq![s[0]] + before_dash(s.drop_first())
    }
}

/// The characters of `s` after its first `-`.
pub open spec fn after_dash(s: Seq<char>) -> Seq<char> {
    s.subrange(before_dash(s).len() as int + 1, s.len() as int)
}

/// The second `-`-separated segment of a title, if it has one.
pub open spec fn second_segment(t: Seq<char>) -> Option<Seq<char>> {
    if !t.contains('-') {
        None
    } else {
        let rest = after_dash(t);
        if rest.contains('-') {
            Some(before_dash(rest))
        } else {
            Some(rest)
        }
    }
}

pub open spec fn is_digit(c: char) -> bool {
    '0' <= c && c <= '9'
}

/// The value of a string of decimal digits.
pub open spec fn digits_value(s: Seq<char>) -> int
    decreases s.len(),
{
    if s.len() == 0 {
        0
    } else {
        digits_value(s.drop_last()) * 10 + (s.last() as int - '0' as int)
    }
}

/// Decimal text read as a `u32`: an optional `+`, then at least one digit,
/// with a value that fits in 32 bits.
pub open spec fn decimal_u32(s: Seq<char>) -> Option<u32> {
    let d = if s.len() > 0 && s[0] == '+' {
        s.drop_first()
    } else {
        s
    };
    if d.len() > 0 && (forall|i: int| 0 <= i < d.len() ==> is_digit(#[trigger] d[i]))
        && digits_value(d) <= u32::MAX {
        Some(digits_value(d) as u32)
    } else {
        None
    }
}

/// The numeric suffix of a title: its second `-`-separated segment, read as
/// a `u32`.
pub open spec fn numeric_suffix_of(t: Seq<char>) -> Option<u32> {
    match second_segment(t) {
        Some(seg) => decimal_u32(seg),
        None => None,
    }
}

/// The sort rank of a title: its numeric suffix, or zero where it has none.
pub open spec fn suffix_rank(t: Seq<char>) -> u32 {
    match numeric_suffix_of(t) {
        Some(k) => k,
        None => 0,
    }
}

/// Relies on `str::split_once`: it splits at the first `-`, and finds none
/// where the text holds none.
#[verifier::external_body]
fn split_at_dash(s: &str) -> (r: Option<(String, String)>)
    ensures
        r is None <==> !s@.contains('-'),
        r matches Some(p) ==> p.0@ == before_dash(s@) && p.1@ == after_dash(s@),
{
    s.split_once('-').map(|(a, b)| (a.to_string(), b.to_string()))
}

/// Relies on `str::parse::<u32>`: an optional `+` and decimal digits, no
/// other character, and a value within `u32`.
#[verifier::external_body]
fn parse_decimal_u32(s: &str) -> (r: Option<u32>)
    ensures
        r == decimal_u32(s@),
{
    s.parse::<u32>().ok()
}

/// Reads a caller-supplied page count.
pub fn parse_pages(text: &str) -> (r: Option<u32>)
    ensures
        r == decimal_u32(text@),
{
    parse_decimal_u32(text)
}

/// The numeric suffix of a title: the text between its first `-` and the
/// next one (or the end), read as a `u32`.
pub fn numeric_suffix(title: &str) -> (r: Option<u32>)
    ensures
        r == numeric_suffix_of(title@),
{
    match split_at_dash(title) {
        None => None,
        Some((_, rest)) => match split_at_dash(rest.as_str()) {
            Some((seg, _)) => parse_decimal_u32(seg.as_str()),
            None => parse_decimal_u32(rest.as_str()),
        },
    }
}

/// Orders two titles by their sort rank.
pub fn compare_by_suffix(a: &String, b: &String) -> (r: std::cmp::Ordering)
    ensures
        r == std::cmp::Ordering::Less <==> suffix_rank(a@) < suffix_rank(b@),
        r == std::cmp::Ordering::Equal <==> suffix_rank(a@) == suffix_rank(b@),
        r == std::cmp::Ordering::Greater <==> suffix_rank(a@) > suffix_rank(b@),
{
    let ka: u32 = match numeric_suffix(a.as_str()) {
        Some(k) => k,
        None => 0,
    };
    let kb: u32 = match numeric_suffix(b.as_str()) {
        Some(k) => k,
        None => 0,
    };
    if ka < kb {
        std::cmp::Ordering::Less
    } else if ka > kb {
        std::cmp::Ordering::Greater
    } else {
        std::cmp::Ordering::Equal
    }
}

} // verus!
