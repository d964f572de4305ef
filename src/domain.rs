use vstd::prelude::*;

verus! {

/// `c` with an ASCII capital letter mapped to its small letter.
pub open spec fn ascii_lower(c: char) -> char {
    if 'A' <= c && c <= 'Z' {
        ((c as u32) + 32) as char
    } else {
        c
    }
}

pub open spec fn ascii_lower_seq(s: Seq<char>) -> Seq<char> {
    s.map_values(|c: char| ascii_lower(c))
}

/// A `//` starts at `i`.
pub open spec fn sep_at(s: Seq<char>, i: int) -> bool {
    0 <= i && i + 1 < s.len() && s[i] == '/' && s[i + 1] == '/'
}

/// Where the first `//` at or after `i` starts.
pub open spec fn sep_from(s: Seq<char>, i: int) -> Option<int>
    decreases s.len() - i,
{
    if i < 0 || i + 1 >= s.len() {
        None
    } else if sep_at(s, i) {
        Some(i)
    } else {
        sep_from(s, i + 1)
    }
}

/// A char that ends the host part of a URL.
pub open spec fn ends_host(c: char) -> bool {
    c == '/' || c == '?' || c == '#'
}

/// The first char at or after `i` that ends the host, or the end of `s`.
pub open spec fn slash_from(s: Seq<char>, i: int) -> int
    decreases s.len() - i,
{
    if i < 0 || i >= s.len() {
        s.len() as int
    } else if ends_host(s[i]) {
        i
    } else {
        slash_from(s, i + 1)
    }
}

pub open spec fn starts_with_www(s: Seq<char>) -> bool {
    s.len() >= 4 && s[0] == 'w' && s[1] == 'w' && s[2] == 'w' && s[3] == '.'
}

/// `s` with every leading `www.` taken off.
pub open spec fn strip_www(s: Seq<char>) -> Seq<char>
    decreases s.len(),
{
    if starts_with_www(s) {
        strip_www(s.subrange(4, s.len() as int))
    } else {
        s
    }
}

/// The domain of a URL: the host after the first `//`, up to the next `/`,
/// `?` or `#`, in small letters and without leading `www.`; none where the
/// URL has no `//` or the host comes out empty.
pub open spec fn domain_of(url: Seq<char>) -> Option<Seq<char>> {
    match sep_from(url, 0) {
        None => None,
        Some(i) => {
            let d = strip_www(ascii_lower_seq(url.subrange(i + 2, slash_from(url, i + 2))));
            if d.len() == 0 {
                None
            } else {
                Some(d)
            }
        },
    }
}

/// Relies on str::to_ascii_lowercase: each ASCII capital letter becomes its
/// small letter, every other char stays as it is.
#[verifier::external_body]
fn ascii_lowercase(s: &str) -> (r: String)
    ensures
        r@ == ascii_lower_seq(s@),
{
    s.to_ascii_lowercase()
}

fn double_slash_at(url: &str, n: usize, i: usize) -> (r: bool)
    requires
        n == url@.len(),
        i + 1 < n,
    ensures
        r == sep_at(url@, i as int),
{
    url.get_char(i) == '/' && url.get_char(i + 1) == '/'
}

fn is_host_end(c: char) -> (r: bool)
    ensures
        r == ends_host(c),
{
    c == '/' || c == '?' || c == '#'
}

fn www_at(s: &str, n: usize, k: usize) -> (r: bool)
    requires
        n == s@.len(),
        k <= n,
    ensures
        r == starts_with_www(s@.subrange(k as int, n as int)),
{
    if n - k < 4 {
        false
    } else {
        s.get_char(k) == 'w' && s.get_char(k + 1) == 'w' && s.get_char(k + 2) == 'w'
            && s.get_char(k + 3) == '.'
    }
}

/// The normalised host of `url` (see `domain_of`).
pub fn extract_domain(url: &str) -> (r: Option<String>)
    ensures
        match r {
            Some(d) => domain_of(url@) == Some(d@),
            None => domain_of(url@) is None,
        },
{
    let n = url.unicode_len();
    let mut i: usize = 0;
    while n > 0 && i < n - 1 && !double_slash_at(url, n, i)
        invariant
            n == url@.len(),
            i <= n,
            sep_from(url@, 0) == sep_from(url@, i as int),
        decreases n - i,
    {
        i = i + 1;
    }
    if n == 0 || i >= n - 1 {
        return None;
    }
    let mut j: usize = i + 2;
    while j < n && !is_host_end(url.get_char(j))
        invariant
            n == url@.len(),
            i + 2 <= j <= n,
            slash_from(url@, i + 2) == slash_from(url@, j as int),
        decreases n - j,
    {
        j = j + 1;
    }
    let host = url.substring_char(i + 2, j);
    let lowered = ascii_lowercase(host);
    let low = lowered.as_str();
    let m = low.unicode_len();
    let mut k: usize = 0;
    assert(low@.subrange(0, m as int) =~= low@);
    while www_at(low, m, k)
        invariant
            m == low@.len(),
            k <= m,
            strip_www(low@) == strip_www(low@.subrange(k as int, m as int)),
        decreases m - k,
    {
        assert(low@.subrange(k as int, m as int).subrange(4, m - k) =~= low@.subrange(
            k + 4,
            m as int,
        ));
        k = k + 4;
    }
    if k == m {
        None
    } else {
        Some(String::from_str(low.substring_char(k, m)))
    }
}

} // verus!
