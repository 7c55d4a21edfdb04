//! The text formats the contract writes and reads: decimal numbers, lower
//! hex, and comma-separated fields.
use vstd::prelude::*;
use vstd::string::{StrSliceExecFns, StringExecFns};

verus! {

pub open spec fn is_digit(c: char) -> bool {
    '0' <= c && c <= '9'
}

pub open spec fn digit_value(c: char) -> nat {
    (c as int - '0' as int) as nat
}

/// The decimal digit `d` (`d < 10`).
pub open spec fn digit_char(d: nat) -> char {
    if d == 0 {
        '0'
    } else if d == 1 {
        '1'
    } else if d == 2 {
        '2'
    } else if d == 3 {
        '3'
    } else if d == 4 {
        '4'
    } else if d == 5 {
        '5'
    } else if d == 6 {
        '6'
    } else if d == 7 {
        '7'
    } else if d == 8 {
        '8'
    } else {
        '9'
    }
}

/// The lower-case hex digit `d` (`d < 16`).
pub open spec fn hex_digit(d: nat) -> char {
    if d < 10 {
        digit_char(d)
    } else if d == 10 {
        'a'
    } else if d == 11 {
        'b'
    } else if d == 12 {
        'c'
    } else if d == 13 {
        'd'
    } else if d == 14 {
        'e'
    } else {
        'f'
    }
}

/// Bytes as lower-case hex, two digits per byte, high half first.
pub open spec fn hex_lower(bytes: Seq<u8>) -> Seq<char>
    decreases bytes.len(),
{
    if bytes.len() == 0 {
        Seq::empty()
    } else {
        hex_lower(bytes.drop_last()) + seq![
            hex_digit((bytes.last() / 16) as nat),
            hex_digit((bytes.last() % 16) as nat),
        ]
    }
}

/// `n` written in decimal, without leading zeros ("0" for zero).
pub open spec fn decimal_digits(n: nat) -> Seq<char>
    decreases n,
{
    if n < 10 {
        seq![digit_char(n)]
    } else {
        decimal_digits(n / 10).push(digit_char(n % 10))
    }
}

/// Why a decimal text is refused.
#[derive(Clone, Copy, Debug, PartialEq, Eq, Structural)]
pub enum DecimalError {
    /// a character that is not an ASCII digit
    InvalidCharacter,
    /// the value reaches the limit of the type
    InvalidLength,
}

/// Reading decimal digits left to right into a value below `limit`: the
/// first character that is not a digit, or the first digit that takes the
/// value to `limit` or beyond, stops the reading. The empty text reads as 0.
pub open spec fn dec_scan(s: Seq<char>, limit: nat) -> Result<nat, DecimalError>
    decreases s.len(),
{
    if s.len() == 0 {
        Ok(0)
    } else {
        match dec_scan(s.drop_last(), limit) {
            Err(e) => Err(e),
            Ok(r) => {
                if !is_digit(s.last()) {
                    Err(DecimalError::InvalidCharacter)
                } else if r * 10 + digit_value(s.last()) >= limit {
                    Err(DecimalError::InvalidLength)
                } else {
                    Ok(r * 10 + digit_value(s.last()))
                }
            },
        }
    }
}

/// A `u64` read as `str::parse::<u64>` reads it: an optional `+`, then one
/// or more decimal digits, with a value that fits.
pub open spec fn parse_u64_spec(s: Seq<char>) -> Option<u64> {
    let digits = if s.len() > 0 && s[0] == '+' {
        s.drop_first()
    } else {
        s
    };
    if digits.len() == 0 {
        None
    } else {
        match dec_scan(digits, 0x1_0000_0000_0000_0000) {
            Ok(v) => Some(v as u64),
            Err(_) => None,
        }
    }
}

/// The fields of `s` between commas, as `str::split(',')` yields them.
pub open spec fn split_commas(s: Seq<char>) -> Seq<Seq<char>>
    decreases s.len(),
{
    if s.len() == 0 {
        seq![Seq::<char>::empty()]
    } else {
        let prev = split_commas(s.drop_last());
        if s.last() == ',' {
            prev.push(Seq::<char>::empty())
        } else {
            prev.update(prev.len() - 1, prev.last().push(s.last()))
        }
    }
}

pub proof fn lemma_split_nonempty(s: Seq<char>)
    ensures
        split_commas(s).len() >= 1,
    decreases s.len(),
{
    if s.len() > 0 {
        lemma_split_nonempty(s.drop_last());
    }
}

/// A text without commas is one field.
pub proof fn lemma_split_single(s: Seq<char>)
    requires
        !s.contains(','),
    ensures
        split_commas(s) == seq![s],
    decreases s.len(),
{
    if s.len() > 0 {
        assert(s.drop_last().len() < s.len());
        assert forall|i: int| 0 <= i < s.drop_last().len() implies s.drop_last()[i] != ',' by {
            assert(s.drop_last()[i] == s[i]);
        }
        lemma_split_single(s.drop_last());
        assert(s[s.len() - 1] == s.last());
        assert(s.drop_last().push(s.last()) =~= s);
        assert(split_commas(s) =~= seq![s]);
    } else {
        assert(s =~= Seq::<char>::empty());
    }
}

/// Splitting at a comma joins the fields of both sides.
pub proof fn lemma_split_join(a: Seq<char>, b: Seq<char>)
    ensures
        split_commas(a + seq![','] + b) == split_commas(a) + split_commas(b),
    decreases b.len(),
{
    lemma_split_nonempty(a);
    let s = a + seq![','] + b;
    if b.len() == 0 {
        assert(s.drop_last() =~= a);
        assert(split_commas(s) =~= split_commas(a) + split_commas(b));
    } else {
        lemma_split_join(a, b.drop_last());
        lemma_split_nonempty(b.drop_last());
        assert(s.drop_last() =~= a + seq![','] + b.drop_last());
        assert(s.last() == b.last());
        assert(split_commas(s) =~= split_commas(a) + split_commas(b));
    }
}

pub proof fn lemma_digit_char(d: nat)
    requires
        d < 10,
    ensures
        is_digit(digit_char(d)),
        digit_value(digit_char(d)) == d,
        digit_char(d) != ',',
{
}

/// Reading the decimal text of `v` gives back `v`, when `v` is below the
/// limit.
pub proof fn lemma_scan_decimal(v: nat, limit: nat)
    requires
        v < limit,
    ensures
        dec_scan(decimal_digits(v), limit) == Ok::<nat, DecimalError>(v),
    decreases v,
{
    if v < 10 {
        lemma_digit_char(v);
        let s = decimal_digits(v);
        assert(s.drop_last() =~= Seq::<char>::empty());
        assert(dec_scan(s.drop_last(), limit) == Ok::<nat, DecimalError>(0));
        assert(s.last() == digit_char(v));
    } else {
        lemma_digit_char(v % 10);
        lemma_scan_decimal(v / 10, limit);
        let s = decimal_digits(v);
        assert(s.drop_last() =~= decimal_digits(v / 10));
        assert(s.last() == digit_char(v % 10));
        assert((v / 10) * 10 + v % 10 == v);
    }
}

pub proof fn lemma_decimal_no_comma(v: nat)
    ensures
        !decimal_digits(v).contains(','),
    decreases v,
{
    lemma_digit_char(v % 10);
    if v >= 10 {
        lemma_decimal_no_comma(v / 10);
        let s = decimal_digits(v);
        assert forall|i: int| 0 <= i < s.len() implies s[i] != ',' by {
            if i < s.len() - 1 {
                assert(s[i] == decimal_digits(v / 10)[i]);
            }
        }
    }
}

/// The decimal digit `d` as a one-character text.
fn digit_text(d: u64) -> (s: &'static str)
    requires
        d < 10,
    ensures
        s@ == seq![digit_char(d as nat)],
{
    if d == 0 {
        proof {
            reveal_strlit("0");
        }
        "0"
    } else if d == 1 {
        proof {
            reveal_strlit("1");
        }
        "1"
    } else if d == 2 {
        proof {
            reveal_strlit("2");
        }
        "2"
    } else if d == 3 {
        proof {
            reveal_strlit("3");
        }
        "3"
    } else if d == 4 {
        proof {
            reveal_strlit("4");
        }
        "4"
    } else if d == 5 {
        proof {
            reveal_strlit("5");
        }
        "5"
    } else if d == 6 {
        proof {
            reveal_strlit("6");
        }
        "6"
    } else if d == 7 {
        proof {
            reveal_strlit("7");
        }
        "7"
    } else if d == 8 {
        proof {
            reveal_strlit("8");
        }
        "8"
    } else {
        proof {
            reveal_strlit("9");
        }
        "9"
    }
}

/// The lower-case hex digit `d` as a one-character text.
fn hex_digit_text(d: u8) -> (s: &'static str)
    requires
        d < 16,
    ensures
        s@ == seq![hex_digit(d as nat)],
{
    if d < 10 {
        digit_text(d as u64)
    } else if d == 10 {
        proof {
            reveal_strlit("a");
        }
        "a"
    } else if d == 11 {
        proof {
            reveal_strlit("b");
        }
        "b"
    } else if d == 12 {
        proof {
            reveal_strlit("c");
        }
        "c"
    } else if d == 13 {
        proof {
            reveal_strlit("d");
        }
        "d"
    } else if d == 14 {
        proof {
            reveal_strlit("e");
        }
        "e"
    } else {
        proof {
            reveal_strlit("f");
        }
        "f"
    }
}

/// `bytes` in lower-case hex, two digits per byte.
pub fn hex_text(bytes: &[u8]) -> (s: String)
    ensures
        s@ == hex_lower(bytes@),
{
    let mut s = String::new();
    let n = bytes.len();
    let mut i: usize = 0;
    proof {
        reveal_strlit("");
        assert(bytes@.take(0) =~= Seq::<u8>::empty());
    }
    while i < n
        invariant
            n == bytes@.len(),
            0 <= i <= n,
            s@ == hex_lower(bytes@.take(i as int)),
        decreases n - i,
    {
        let b = bytes[i];
        s.append(hex_digit_text(b / 16));
        s.append(hex_digit_text(b % 16));
        proof {
            let t = bytes@.take(i + 1);
            assert(t.drop_last() =~= bytes@.take(i as int));
            assert(t.last() == b);
        }
        i = i + 1;
    }
    assert(bytes@.take(n as int) =~= bytes@);
    s
}

/// `n` in decimal, as `u64::to_string` writes it.
pub fn u64_to_decimal(n: u64) -> (s: String)
    ensures
        s@ == decimal_digits(n as nat),
    decreases n,
{
    if n < 10 {
        String::from_str(digit_text(n))
    } else {
        let mut s = u64_to_decimal(n / 10);
        s.append(digit_text(n % 10));
        s
    }
}

/// Reads the decimal digits of `s` from char `from` to the end as a `u64`.
fn scan_u64(s: &str, from: usize) -> (r: Option<u64>)
    requires
        from <= s@.len(),
    ensures
        r == match dec_scan(s@.subrange(from as int, s@.len() as int), 0x1_0000_0000_0000_0000) {
            Ok(v) => Some(v as u64),
            Err(_) => None::<u64>,
        },
{
    let n = s.unicode_len();
    let mut i = from;
    let mut value: u64 = 0;
    assert(s@.subrange(from as int, from as int) =~= Seq::<char>::empty());
    while i < n
        invariant
            n == s@.len(),
            from <= i <= n,
            dec_scan(s@.subrange(from as int, i as int), 0x1_0000_0000_0000_0000) == Ok::<
                nat,
                DecimalError,
            >(value as nat),
        decreases n - i,
    {
        let c = s.get_char(i);
        let ghost pre = s@.subrange(from as int, i as int);
        let ghost next = s@.subrange(from as int, i + 1);
        assert(next.drop_last() =~= pre);
        assert(next.last() == c);
        if !('0' <= c && c <= '9') {
            assert(dec_scan(next, 0x1_0000_0000_0000_0000) is Err);
            assert(forall|k: int| from + 1 <= k <= n ==> ({
                let t = #[trigger] s@.subrange(from as int, k);
                t.len() > 0
            }));
            proof {
                lemma_scan_err_extends(s@, from as int, i + 1, n as int);
            }
            return None;
        }
        let d = (c as u32 - '0' as u32) as u64;
        assert(d == digit_value(c));
        if value > (u64::MAX - d) / 10 {
            assert(value * 10 + d > u64::MAX) by (nonlinear_arith)
                requires
                    value > (u64::MAX - d) / 10,
                    d <= 9,
            ;
            proof {
                lemma_scan_err_extends(s@, from as int, i + 1, n as int);
            }
            return None;
        }
        assert(value * 10 + d <= u64::MAX) by (nonlinear_arith)
            requires
                value <= (u64::MAX - d) / 10,
                d <= 9,
        ;
        value = value * 10 + d;
        i = i + 1;
    }
    assert(s@.subrange(from as int, n as int) =~= s@.subrange(from as int, s@.len() as int));
    Some(value)
}

/// Once a scan fails it fails on every longer text.
proof fn lemma_scan_err_extends(s: Seq<char>, from: int, i: int, n: int)
    requires
        0 <= from <= i <= n <= s.len(),
        n == s.len(),
        dec_scan(s.subrange(from, i), 0x1_0000_0000_0000_0000) is Err,
    ensures
        dec_scan(s.subrange(from, n), 0x1_0000_0000_0000_0000) is Err,
    decreases n - i,
{
    if i < n {
        assert(s.subrange(from, i + 1).drop_last() =~= s.subrange(from, i));
        lemma_scan_err_extends(s, from, i + 1, n);
    }
}

/// `str::parse::<u64>`: an optional `+`, then at least one digit.
pub fn parse_u64(s: &str) -> (r: Option<u64>)
    ensures
        r == parse_u64_spec(s@),
{
    let n = s.unicode_len();
    let from: usize = if n > 0 && s.get_char(0) == '+' {
        1
    } else {
        0
    };
    assert(s@.subrange(from as int, n as int) =~= (if s@.len() > 0 && s@[0] == '+' {
        s@.drop_first()
    } else {
        s@
    }));
    if from == n {
        return None;
    }
    scan_u64(s, from)
}

/// Splits `s` at every comma, as `s.split(',').collect()` does.
pub fn split_commas_exec(s: &str) -> (parts: Vec<String>)
    ensures
        parts@.len() == split_commas(s@).len(),
        forall|j: int| 0 <= j < parts@.len() ==> #[trigger] parts@[j]@ == split_commas(s@)[j],
{
    let n = s.unicode_len();
    let mut parts: Vec<String> = Vec::new();
    let mut start: usize = 0;
    let mut i: usize = 0;
    assert(s@.subrange(0, 0) =~= Seq::<char>::empty());
    while i < n
        invariant
            n == s@.len(),
            0 <= start <= i <= n,
            parts@.len() + 1 == split_commas(s@.subrange(0, i as int)).len(),
            forall|j: int|
                0 <= j < parts@.len() ==> #[trigger] parts@[j]@ == split_commas(
                    s@.subrange(0, i as int),
                )[j],
            split_commas(s@.subrange(0, i as int)).last() == s@.subrange(start as int, i as int),
        decreases n - i,
    {
        let c = s.get_char(i);
        let ghost prev = split_commas(s@.subrange(0, i as int));
        let ghost pre = s@.subrange(0, i + 1);
        assert(pre.drop_last() =~= s@.subrange(0, i as int));
        assert(pre.last() == c);
        if c == ',' {
            let part = s.substring_char(start, i).to_owned();
            parts.push(part);
            start = i + 1;
            assert(s@.subrange(start as int, i + 1) =~= Seq::<char>::empty());
        } else {
            assert(s@.subrange(start as int, i + 1) =~= s@.subrange(start as int, i as int).push(c));
        }
        i = i + 1;
    }
    let last = s.substring_char(start, n).to_owned();
    parts.push(last);
    assert(s@.subrange(0, n as int) =~= s@);
    parts
}

} // verus!
