use vstd::prelude::*;
use chrono::TimeZone;
use crate::story::{Story, opt_view, story_domain};

verus! {

/// The decimal digit for `d` (0 to 9).
pub open spec fn digit(d: nat) -> char {
    (('0' as u32) + d) as char
}

/// The decimal digits of `n`, without leading zeros.
pub open spec fn dec(n: nat) -> Seq<char>
    decreases n,
{
    if n < 10 {
        seq![digit(n)]
    } else {
        dec(n / 10).push(digit(n % 10))
    }
}

/// `x` in decimal, with a leading `-` when negative.
pub open spec fn signed_dec(x: int) -> Seq<char> {
    if x < 0 {
        seq!['-'] + dec((-x) as nat)
    } else {
        dec(x as nat)
    }
}

/// The RFC 3339 text of the UTC instant `secs` seconds after the epoch; none
/// where it cannot be represented.
pub uninterp spec fn rfc3339_of(secs: i64) -> Option<Seq<char>>;

/// Relies on chrono's `Utc.timestamp_opt(secs, 0).single()` and
/// `DateTime::to_rfc3339`: the RFC 3339 text of that instant in UTC, or none
/// where chrono cannot represent it; it depends on `secs` alone.
#[verifier::external_body]
pub(crate) fn rfc3339_text(secs: i64) -> (r: Option<String>)
    ensures
        opt_view(r) == rfc3339_of(secs),
{
    match chrono::Utc.timestamp_opt(secs, 0).single() {
        Some(dt) => Some(dt.to_rfc3339()),
        None => None,
    }
}

/// Relies on String::push: appends `c`.
#[verifier::external_body]
fn push_char(s: &mut String, c: char)
    ensures
        final(s)@ == old(s)@.push(c),
{
    s.push(c)
}

/// `n` in decimal.
pub fn decimal(n: u64) -> (r: String)
    ensures
        r@ == dec(n as nat),
    decreases n,
{
    let d = (n % 10) as u8;
    let c = (48u8 + d) as char;
    assert(c == digit((n % 10) as nat));
    if n < 10 {
        let mut s = String::new();
        push_char(&mut s, c);
        assert(s@ =~= seq![c]);
        s
    } else {
        let mut s = decimal(n / 10);
        push_char(&mut s, c);
        s
    }
}

/// `x` in decimal, with a leading `-` when negative.
pub fn signed_decimal(x: i64) -> (r: String)
    ensures
        r@ == signed_dec(x as int),
{
    if x < 0 {
        let m: u64 = if x == i64::MIN {
            0x8000_0000_0000_0000
        } else {
            (-x) as u64
        };
        let mut s = String::new();
        push_char(&mut s, '-');
        let digits = decimal(m);
        s.append(digits.as_str());
        assert(s@ =~= seq!['-'] + dec((-x) as nat));
        s
    } else {
        decimal(x as u64)
    }
}

pub open spec fn text_or(o: Option<Seq<char>>, dflt: Seq<char>) -> Seq<char> {
    match o {
        Some(t) => t,
        None => dflt,
    }
}

pub open spec fn int_or_zero(o: Option<i32>) -> int {
    match o {
        Some(x) => x as int,
        None => 0,
    }
}

/// The log text of a story, with `ts` the text of its timestamp.
pub open spec fn story_text(s: Story, ts: Option<Seq<char>>) -> Seq<char> {
    "ID: "@ + dec(s.id as nat) + "\nTitle: "@ + s.title@ + "\nBy: "@ + text_or(
        opt_view(s.by),
        "anonymous"@,
    ) + "\nTime: "@ + text_or(ts, "Invalid timestamp"@) + "\nURL: "@ + text_or(
        opt_view(s.url),
        "none"@,
    ) + "\nDomain: "@ + text_or(story_domain(s), "no domain"@) + "\nScore: "@ + signed_dec(
        int_or_zero(s.score),
    ) + "\nComments: "@ + signed_dec(int_or_zero(s.descendants)) + "\n"@
}

fn append_opt(out: &mut String, o: &Option<String>, dflt: &str)
    ensures
        final(out)@ == old(out)@ + text_or(opt_view(*o), dflt@),
{
    match o {
        Some(t) => out.append(t.as_str()),
        None => out.append(dflt),
    }
}

/// The log text of `s`, given the text `ts` of its timestamp (none where it
/// has none).
pub fn format_story_with(s: &Story, ts: &Option<String>) -> (r: String)
    ensures
        r@ == story_text(*s, opt_view(*ts)),
{
    let mut out = String::from_str("ID: ");
    out.append(decimal(s.id as u64).as_str());
    out.append("\nTitle: ");
    out.append(s.title.as_str());
    out.append("\nBy: ");
    append_opt(&mut out, &s.by, "anonymous");
    out.append("\nTime: ");
    append_opt(&mut out, ts, "Invalid timestamp");
    out.append("\nURL: ");
    append_opt(&mut out, &s.url, "none");
    out.append("\nDomain: ");
    let d = crate::story::domain_of_story(s);
    append_opt(&mut out, &d, "no domain");
    out.append("\nScore: ");
    let score: i64 = match s.score {
        Some(x) => x as i64,
        None => 0,
    };
    out.append(signed_decimal(score).as_str());
    out.append("\nComments: ");
    let comments: i64 = match s.descendants {
        Some(x) => x as i64,
        None => 0,
    };
    out.append(signed_decimal(comments).as_str());
    out.append("\n");
    out
}

/// The log text of `s`, its timestamp in RFC 3339.
pub fn format_story(s: &Story) -> (r: String)
    ensures
        r@ == story_text(*s, rfc3339_of(s.time)),
{
    let ts = rfc3339_text(s.time);
    format_story_with(s, &ts)
}

/// The key under which `s` is published: its identifier in decimal.
pub fn record_key(s: &Story) -> (r: String)
    ensures
        r@ == dec(s.id as nat),
{
    decimal(s.id as u64)
}

} // verus!
