//! The text record under which a publish request is stored:
//! `holder_id,amount,percentage,producer,publisher` with the numbers in
//! decimal and the two accounts in lower-case hex.
use vstd::prelude::*;
use vstd::string::{StrSliceExecFns, StringExecFns};
use crate::event::account_hash_text;
use crate::text::{
    decimal_digits, hex_digit, hex_lower, is_digit, lemma_decimal_no_comma,
    lemma_digit_char, lemma_scan_decimal, lemma_split_join, lemma_split_single, parse_u64,
    parse_u64_spec, split_commas, split_commas_exec, u64_to_decimal,
};
use crate::types::{Account, PublishRequest};

verus! {

/// The value of a lower-case hex digit.
pub open spec fn hex_value(c: char) -> Option<nat> {
    if is_digit(c) {
        Some((c as int - '0' as int) as nat)
    } else if 'a' <= c && c <= 'f' {
        Some((c as int - 'a' as int + 10) as nat)
    } else {
        None
    }
}

/// The bytes written in lower-case hex by `s`, two digits per byte.
pub open spec fn hex_decode(s: Seq<char>) -> Option<Seq<u8>>
    decreases s.len(),
{
    if s.len() == 0 {
        Some(Seq::empty())
    } else if s.len() < 2 {
        None
    } else {
        match (
            hex_decode(s.subrange(0, s.len() - 2)),
            hex_value(s[s.len() - 2]),
            hex_value(s[s.len() - 1]),
        ) {
            (Some(b), Some(hi), Some(lo)) => Some(b.push((hi * 16 + lo) as u8)),
            _ => None,
        }
    }
}

/// The 32 bytes of an account written in hex.
pub open spec fn account_bytes(s: Seq<char>) -> Option<Seq<u8>> {
    match hex_decode(s) {
        Some(b) => if b.len() == 32 {
            Some(b)
        } else {
            None
        },
        None => None,
    }
}

/// The stored record of a publish request.
pub open spec fn request_record_spec(r: PublishRequest) -> Seq<char> {
    decimal_digits(r.holder_id as nat) + seq![','] + decimal_digits(r.amount as nat) + seq![',']
        + decimal_digits(r.percentage as nat) + seq![','] + hex_lower(r.producer.hash@) + seq![',']
        + hex_lower(r.publisher.hash@)
}

/// What a stored request record says: holder id, amount, percentage and the
/// bytes of producer and publisher; `None` unless it has exactly five
/// fields that all read.
pub open spec fn parse_request_spec(s: Seq<char>) -> Option<(u64, u64, u8, Seq<u8>, Seq<u8>)> {
    let p = split_commas(s);
    if p.len() != 5 {
        None
    } else {
        match (
            parse_u64_spec(p[0]),
            parse_u64_spec(p[1]),
            parse_u64_spec(p[2]),
            account_bytes(p[3]),
            account_bytes(p[4]),
        ) {
            (Some(h), Some(a), Some(c), Some(x), Some(y)) => if c <= 255 {
                Some((h, a, c as u8, x, y))
            } else {
                None
            },
            _ => None,
        }
    }
}

proof fn lemma_hex_digit(d: nat)
    requires
        d < 16,
    ensures
        hex_value(hex_digit(d)) == Some(d),
        hex_digit(d) != ',',
{
    if d < 10 {
        lemma_digit_char(d);
    }
}

proof fn lemma_hex_round_trip(b: Seq<u8>)
    ensures
        hex_decode(hex_lower(b)) == Some(b),
        hex_lower(b).len() == 2 * b.len(),
        !hex_lower(b).contains(','),
    decreases b.len(),
{
    if b.len() > 0 {
        lemma_hex_round_trip(b.drop_last());
        let x = b.last();
        let hi = (x / 16) as nat;
        let lo = (x % 16) as nat;
        lemma_hex_digit(hi);
        lemma_hex_digit(lo);
        let s = hex_lower(b);
        let prev = hex_lower(b.drop_last());
        assert(s.subrange(0, s.len() - 2) =~= prev);
        assert(s[s.len() - 2] == hex_digit(hi));
        assert(s[s.len() - 1] == hex_digit(lo));
        assert(hi * 16 + lo == x);
        assert(b.drop_last().push(x) =~= b);
        assert forall|i: int| 0 <= i < s.len() implies s[i] != ',' by {
            if i < s.len() - 2 {
                assert(s[i] == prev[i]);
            }
        }
    }
}

proof fn lemma_decimal_first(v: nat)
    ensures
        decimal_digits(v).len() >= 1,
        is_digit(decimal_digits(v)[0]),
    decreases v,
{
    lemma_digit_char(v % 10);
    if v >= 10 {
        lemma_decimal_first(v / 10);
    }
}

proof fn lemma_parse_decimal(v: u64)
    ensures
        parse_u64_spec(decimal_digits(v as nat)) == Some(v),
        !decimal_digits(v as nat).contains(','),
{
    lemma_decimal_first(v as nat);
    lemma_scan_decimal(v as nat, 0x1_0000_0000_0000_0000);
    lemma_decimal_no_comma(v as nat);
}

/// A request record reads back as the request it was written from.
pub proof fn lemma_request_round_trip(r: PublishRequest)
    ensures
        parse_request_spec(request_record_spec(r)) == Some(
            (r.holder_id, r.amount, r.percentage, r.producer.hash@, r.publisher.hash@),
        ),
{
    let d0 = decimal_digits(r.holder_id as nat);
    let d1 = decimal_digits(r.amount as nat);
    let d2 = decimal_digits(r.percentage as nat);
    let h3 = hex_lower(r.producer.hash@);
    let h4 = hex_lower(r.publisher.hash@);
    lemma_parse_decimal(r.holder_id);
    lemma_parse_decimal(r.amount);
    lemma_parse_decimal(r.percentage as u64);
    lemma_hex_round_trip(r.producer.hash@);
    lemma_hex_round_trip(r.publisher.hash@);
    let a1 = d0 + seq![','] + d1;
    let a2 = a1 + seq![','] + d2;
    let a3 = a2 + seq![','] + h3;
    lemma_split_join(d0, d1);
    lemma_split_join(a1, d2);
    lemma_split_join(a2, h3);
    lemma_split_join(a3, h4);
    lemma_split_single(d0);
    lemma_split_single(d1);
    lemma_split_single(d2);
    lemma_split_single(h3);
    lemma_split_single(h4);
    assert(split_commas(request_record_spec(r)) =~= seq![d0, d1, d2, h3, h4]);
}

/// The hex digit `c` as a number, if it is one.
fn hex_digit_value(c: char) -> (r: Option<u8>)
    ensures
        match hex_value(c) {
            Some(v) => r == Some(v as u8),
            None => r is None,
        },
{
    if '0' <= c && c <= '9' {
        Some((c as u32 - '0' as u32) as u8)
    } else if 'a' <= c && c <= 'f' {
        Some((c as u32 - 'a' as u32 + 10) as u8)
    } else {
        None
    }
}

/// Reads an account written as 64 lower-case hex digits.
pub fn parse_account_hex(s: &str) -> (r: Option<Account>)
    ensures
        match account_bytes(s@) {
            Some(b) => r is Some && r->0.hash@ == b,
            None => r is None,
        },
{
    let n = s.unicode_len();
    if n != 64 {
        proof {
            lemma_decode_len(s@);
        }
        return None;
    }
    let mut hash: [u8; 32] = [0u8; 32];
    let mut i: usize = 0;
    assert(s@.subrange(0, 0) =~= Seq::<char>::empty());
    while i < 32
        invariant
            n == s@.len() == 64,
            0 <= i <= 32,
            hex_decode(s@.subrange(0, 2 * i as int)) == Some(hash@.take(i as int)),
        decreases 32 - i,
    {
        let hi = hex_digit_value(s.get_char(2 * i));
        let lo = hex_digit_value(s.get_char(2 * i + 1));
        let ghost next = s@.subrange(0, 2 * i + 2);
        assert(next.subrange(0, next.len() - 2) =~= s@.subrange(0, 2 * i as int));
        assert(next[next.len() - 2] == s@[2 * i as int]);
        assert(next[next.len() - 1] == s@[2 * i + 1]);
        match (hi, lo) {
            (Some(h), Some(l)) => {
                let ghost before = hash@;
                hash[i] = h * 16 + l;
                assert(hash@.take(i + 1) =~= before.take(i as int).push((h * 16 + l) as u8));
            },
            _ => {
                proof {
                    lemma_decode_fails_on(s@, 2 * i + 2);
                }
                return None;
            },
        }
        i = i + 1;
    }
    assert(s@.subrange(0, 64) =~= s@);
    assert(hash@.take(32) =~= hash@);
    Some(Account { hash })
}

proof fn lemma_decode_len(s: Seq<char>)
    ensures
        hex_decode(s) matches Some(b) ==> s.len() == 2 * b.len(),
    decreases s.len(),
{
    if s.len() >= 2 {
        lemma_decode_len(s.subrange(0, s.len() - 2));
    }
}

/// Once a prefix of even length does not decode, the whole does not.
proof fn lemma_decode_fails_on(s: Seq<char>, k: int)
    requires
        0 <= k <= s.len(),
        k % 2 == 0,
        hex_decode(s.subrange(0, k)) is None,
        s.len() % 2 == 0,
    ensures
        hex_decode(s) is None,
    decreases s.len() - k,
{
    if k < s.len() {
        let t = s.subrange(0, k + 2);
        assert(t.subrange(0, t.len() - 2) =~= s.subrange(0, k));
        lemma_decode_fails_on(s, k + 2);
    } else {
        assert(s.subrange(0, k) =~= s);
    }
}

/// The record of a publish request.
pub fn request_record(r: &PublishRequest) -> (s: String)
    ensures
        s@ == request_record_spec(*r),
{
    proof {
        reveal_strlit(",");
    }
    let mut s = u64_to_decimal(r.holder_id);
    s.append(",");
    s.append(u64_to_decimal(r.amount).as_str());
    s.append(",");
    s.append(u64_to_decimal(r.percentage as u64).as_str());
    s.append(",");
    s.append(account_hash_text(&r.producer).as_str());
    s.append(",");
    s.append(account_hash_text(&r.publisher).as_str());
    s
}

/// Reads a publish request back from its record.
pub fn parse_request_record(s: &str) -> (r: Option<PublishRequest>)
    ensures
        match parse_request_spec(s@) {
            Some((h, a, c, x, y)) => r is Some && r->0.holder_id == h && r->0.amount == a
                && r->0.percentage == c && r->0.producer.hash@ == x && r->0.publisher.hash@ == y,
            None => r is None,
        },
{
    let p = split_commas_exec(s);
    if p.len() != 5 {
        return None;
    }
    let h = parse_u64(p[0].as_str());
    let a = parse_u64(p[1].as_str());
    let c = parse_u64(p[2].as_str());
    let x = parse_account_hex(p[3].as_str());
    let y = parse_account_hex(p[4].as_str());
    match (h, a, c, x, y) {
        (Some(h), Some(a), Some(c), Some(x), Some(y)) => {
            if c <= 255 {
                Some(PublishRequest::new(h, a, c as u8, x, y))
            } else {
                None
            }
        },
        _ => None,
    }
}

} // verus!
