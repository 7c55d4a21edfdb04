//! The fields `mint` reads from the metadata it is given as a flat JSON
//! object: `{"name": "...", "token_uri": "...", "checksum": "..."}`.
use vstd::prelude::*;
use vstd::string::{StrSliceExecFns, StringExecFns};
use crate::metadata::NftMetadata;
use crate::wide::Wide256;

verus! {

pub open spec fn is_space(c: char) -> bool {
    c == ' ' || c == '\t' || c == '\n' || c == '\r'
}

/// `p` occurs in `s` at `i`.
pub open spec fn occurs_at(s: Seq<char>, p: Seq<char>, i: int) -> bool {
    0 <= i && i + p.len() <= s.len() && s.subrange(i, i + p.len()) == p
}

/// The first position at or after `i` where `p` occurs in `s`.
pub open spec fn first_occurrence(s: Seq<char>, p: Seq<char>, i: int) -> Option<int>
    decreases s.len() + 1 - i,
{
    if i < 0 || i + p.len() > s.len() {
        None
    } else if occurs_at(s, p, i) {
        Some(i)
    } else {
        first_occurrence(s, p, i + 1)
    }
}

/// The first position at or after `i` that is not a space.
pub open spec fn skip_spaces(s: Seq<char>, i: int) -> int
    decreases s.len() - i,
{
    if 0 <= i < s.len() && is_space(s[i]) {
        skip_spaces(s, i + 1)
    } else {
        i
    }
}

/// The first position at or after `i` holding `c`.
pub open spec fn first_char(s: Seq<char>, c: char, i: int) -> Option<int>
    decreases s.len() - i,
{
    if i < 0 || i >= s.len() {
        None
    } else if s[i] == c {
        Some(i)
    } else {
        first_char(s, c, i + 1)
    }
}

/// The string value of the first `"key"` in `s`: after it, spaces, a colon,
/// spaces, and a quoted text without escapes.
pub open spec fn json_string_field(s: Seq<char>, key: Seq<char>) -> Option<Seq<char>> {
    let pat = seq!['"'] + key + seq!['"'];
    match first_occurrence(s, pat, 0) {
        None => None,
        Some(i) => {
            let j = skip_spaces(s, i + pat.len());
            if j < s.len() && s[j] == ':' {
                let k = skip_spaces(s, j + 1);
                if k < s.len() && s[k] == '"' {
                    match first_char(s, '"', k + 1) {
                        Some(e) => Some(s.subrange(k + 1, e)),
                        None => None,
                    }
                } else {
                    None
                }
            } else {
                None
            }
        },
    }
}

fn occurs_at_exec(s: &str, n: usize, p: &str, m: usize, i: usize) -> (b: bool)
    requires
        n == s@.len(),
        m == p@.len(),
        i + m <= n,
    ensures
        b == occurs_at(s@, p@, i as int),
{
    let mut k: usize = 0;
    while k < m
        invariant
            n == s@.len(),
            m == p@.len(),
            i + m <= n,
            0 <= k <= m,
            forall|t: int| 0 <= t < k ==> s@[i + t] == p@[t],
        decreases m - k,
    {
        if s.get_char(i + k) != p.get_char(k) {
            assert(s@.subrange(i as int, i + m)[k as int] != p@[k as int]);
            return false;
        }
        k = k + 1;
    }
    assert(s@.subrange(i as int, i + m) =~= p@);
    true
}

fn first_occurrence_exec(s: &str, n: usize, p: &str, m: usize) -> (r: Option<usize>)
    requires
        n == s@.len(),
        m == p@.len(),
        m >= 1,
    ensures
        match first_occurrence(s@, p@, 0) {
            Some(i) => r is Some && r->0 == i,
            None => r is None,
        },
        r matches Some(i) ==> i + m <= n,
{
    if m > n {
        return None;
    }
    let mut i: usize = 0;
    while i <= n - m
        invariant
            n == s@.len(),
            m == p@.len(),
            1 <= m <= n,
            0 <= i <= n - m + 1,
            first_occurrence(s@, p@, 0) == first_occurrence(s@, p@, i as int),
        decreases n - i,
    {
        if occurs_at_exec(s, n, p, m, i) {
            return Some(i);
        }
        i = i + 1;
    }
    None
}

fn skip_spaces_exec(s: &str, n: usize, from: usize) -> (r: usize)
    requires
        n == s@.len(),
        from <= n,
    ensures
        r == skip_spaces(s@, from as int),
        r <= n,
{
    let mut i = from;
    while i < n
        invariant
            n == s@.len(),
            from <= i <= n,
            skip_spaces(s@, from as int) == skip_spaces(s@, i as int),
        decreases n - i,
    {
        let c = s.get_char(i);
        if !(c == ' ' || c == '\t' || c == '\n' || c == '\r') {
            return i;
        }
        i = i + 1;
    }
    i
}

fn first_char_exec(s: &str, n: usize, c: char, from: usize) -> (r: Option<usize>)
    requires
        n == s@.len(),
        from <= n,
    ensures
        match first_char(s@, c, from as int) {
            Some(i) => r is Some && r->0 == i,
            None => r is None,
        },
        r matches Some(e) ==> from <= e < n,
{
    let mut i = from;
    while i < n
        invariant
            n == s@.len(),
            from <= i <= n,
            first_char(s@, c, from as int) == first_char(s@, c, i as int),
        decreases n - i,
    {
        if s.get_char(i) == c {
            return Some(i);
        }
        i = i + 1;
    }
    None
}

/// The string value of `key` in the JSON text `s`.
pub fn json_field(s: &str, key: &str) -> (r: Option<String>)
    ensures
        match json_string_field(s@, key@) {
            Some(v) => r is Some && r->0@ == v,
            None => r is None,
        },
{
    proof {
        reveal_strlit("\"");
    }
    let mut pat = String::from_str("\"");
    pat.append(key);
    pat.append("\"");
    assert(pat@ =~= seq!['"'] + key@ + seq!['"']);
    let ps = pat.as_str();
    assert(ps@ == seq!['"'] + key@ + seq!['"']);
    let n = s.unicode_len();
    let m = ps.unicode_len();
    let i = match first_occurrence_exec(s, n, ps, m) {
        Some(i) => i,
        None => {
            return None;
        },
    };
    let j = skip_spaces_exec(s, n, i + m);
    if j >= n || s.get_char(j) != ':' {
        return None;
    }
    let k = skip_spaces_exec(s, n, j + 1);
    if k >= n || s.get_char(k) != '"' {
        return None;
    }
    match first_char_exec(s, n, '"', k + 1) {
        Some(e) => Some(s.substring_char(k + 1, e).to_owned()),
        None => None,
    }
}

/// The metadata of a mint: name, token URI and checksum from its JSON
/// text, with the price given apart. `None` where a field is missing.
pub fn metadata_from_json(json: &str, price: Wide256) -> (r: Option<NftMetadata>)
    ensures
        match (
            json_string_field(json@, "name"@),
            json_string_field(json@, "token_uri"@),
            json_string_field(json@, "checksum"@),
        ) {
            (Some(name), Some(uri), Some(checksum)) => r is Some && r->0.name@ == name
                && r->0.token_uri@ == uri && r->0.checksum@ == checksum && r->0.price == price,
            _ => r is None,
        },
{
    let name = json_field(json, "name");
    let token_uri = json_field(json, "token_uri");
    let checksum = json_field(json, "checksum");
    match (name, token_uri, checksum) {
        (Some(n), Some(u), Some(c)) => Some(NftMetadata::new(n, u, c, price)),
        _ => None,
    }
}

} // verus!
