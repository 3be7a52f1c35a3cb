//! Wire codec of the heartbeat push protocol.
//!
//! A heartbeat travels as the query string
//! `msg=<message>&status=<token>&ping=<decimal>`, with values in the
//! form encoding: ASCII letters, digits and `*`, `-`, `.`, `_` stay as
//! they are, a space becomes `+`, and every other byte becomes `%`
//! followed by two uppercase hex digits.  Encoding works on the UTF-8
//! bytes of the message, so any message round-trips.

use vstd::prelude::*;
use vstd::string::StrSliceExecFns;
use vstd::utf8::*;
use crate::heartbeat::{Heartbeat, HeartbeatStatus};

verus! {

// ---------------------------------------------------------------------------
// Byte classes
// ---------------------------------------------------------------------------

/// Bytes the form encoding leaves as they are: ASCII letters, digits,
/// and `*`, `-`, `.`, `_`.
pub open spec fn is_unreserved_byte(b: u8) -> bool {
    (0x41u8 <= b <= 0x5au8) || (0x61u8 <= b <= 0x7au8) || (0x30u8 <= b <= 0x39u8) || b == 0x2au8 || b == 0x2du8
        || b == 0x2eu8 || b == 0x5fu8
}

/// Every byte is ASCII.
pub open spec fn all_ascii(s: Seq<u8>) -> bool {
    forall|i: int| 0 <= i < s.len() ==> s[i] < 0x80
}

/// No byte is the pair separator `&`.
pub open spec fn amp_free(s: Seq<u8>) -> bool {
    forall|i: int| 0 <= i < s.len() ==> s[i] != 0x26u8
}

/// No byte is an escape introducer (`%`) or an encoded space (`+`),
/// so percent-decoding such a sequence returns it unchanged.
pub open spec fn escape_free(s: Seq<u8>) -> bool {
    forall|i: int| 0 <= i < s.len() ==> s[i] != 0x25u8 && s[i] != 0x2bu8
}

// ---------------------------------------------------------------------------
// Hex digits
// ---------------------------------------------------------------------------

/// Uppercase hex digit character of a value below 16.
pub open spec fn spec_hex_digit(n: u8) -> u8
    recommends
        n < 16,
{
    if n < 10 {
        (0x30u8 + n) as u8
    } else {
        (0x41u8 + (n - 10)) as u8
    }
}

/// Value of a hex digit character, either case.
pub open spec fn spec_hex_val(b: u8) -> Option<u8> {
    if 0x30u8 <= b <= 0x39u8 {
        Some((b - 0x30u8) as u8)
    } else if 0x41u8 <= b <= 0x46u8 {
        Some((b - 0x41u8 + 10) as u8)
    } else if 0x61u8 <= b <= 0x66u8 {
        Some((b - 0x61u8 + 10) as u8)
    } else {
        None
    }
}

fn hex_digit(n: u8) -> (r: u8)
    requires
        n < 16,
    ensures
        r == spec_hex_digit(n),
{
    if n < 10 {
        0x30u8 + n
    } else {
        0x41u8 + (n - 10)
    }
}

fn hex_val(b: u8) -> (r: Option<u8>)
    ensures
        r == spec_hex_val(b),
{
    if 0x30u8 <= b && b <= 0x39u8 {
        Some(b - 0x30u8)
    } else if 0x41u8 <= b && b <= 0x46u8 {
        Some(b - 0x41u8 + 10)
    } else if 0x61u8 <= b && b <= 0x66u8 {
        Some(b - 0x61u8 + 10)
    } else {
        None
    }
}

// ---------------------------------------------------------------------------
// Percent-encoding of a byte sequence
// ---------------------------------------------------------------------------

/// Form encoding of one byte.
pub open spec fn spec_pct_byte(b: u8) -> Seq<u8> {
    if is_unreserved_byte(b) {
        seq![b]
    } else if b == 0x20u8 {
        seq![0x2bu8]
    } else {
        seq![0x25u8, spec_hex_digit(b / 16), spec_hex_digit(b % 16)]
    }
}

/// Form encoding of a byte sequence.
pub open spec fn spec_pct_encode(s: Seq<u8>) -> Seq<u8>
    decreases s.len(),
{
    if s.len() == 0 {
        Seq::empty()
    } else {
        spec_pct_byte(s[0]) + spec_pct_encode(s.drop_first())
    }
}

/// Form decoding of a byte sequence: `+` becomes a space, `%` must be
/// followed by two hex digits, everything else stands for itself.
pub open spec fn spec_pct_decode(s: Seq<u8>) -> Option<Seq<u8>>
    decreases s.len(),
{
    if s.len() == 0 {
        Some(Seq::empty())
    } else if s[0] == 0x25u8 {
        if s.len() >= 3 {
            match (spec_hex_val(s[1]), spec_hex_val(s[2])) {
                (Some(h), Some(l)) => match spec_pct_decode(s.skip(3)) {
                    Some(rest) => Some(seq![(h * 16 + l) as u8] + rest),
                    None => None,
                },
                _ => None,
            }
        } else {
            None
        }
    } else if s[0] == 0x2bu8 {
        match spec_pct_decode(s.drop_first()) {
            Some(rest) => Some(seq![0x20u8] + rest),
            None => None,
        }
    } else {
        match spec_pct_decode(s.drop_first()) {
            Some(rest) => Some(seq![s[0]] + rest),
            None => None,
        }
    }
}

/// Encoding distributes over concatenation.
pub proof fn lemma_pct_encode_append(a: Seq<u8>, b: Seq<u8>)
    ensures
        spec_pct_encode(a + b) == spec_pct_encode(a) + spec_pct_encode(b),
    decreases a.len(),
{
    if a.len() == 0 {
        assert(a + b =~= b);
        assert(spec_pct_encode(a) + spec_pct_encode(b) =~= spec_pct_encode(b));
    } else {
        assert((a + b).drop_first() =~= a.drop_first() + b);
        lemma_pct_encode_append(a.drop_first(), b);
        assert(spec_pct_encode(a + b) =~= spec_pct_encode(a) + spec_pct_encode(b));
    }
}

/// The encoding of any byte sequence is ASCII and contains no `&`.
pub proof fn lemma_pct_encode_props(s: Seq<u8>)
    ensures
        all_ascii(spec_pct_encode(s)),
        amp_free(spec_pct_encode(s)),
    decreases s.len(),
{
    if s.len() > 0 {
        lemma_pct_encode_props(s.drop_first());
        let e = spec_pct_byte(s[0]);
        let rest = spec_pct_encode(s.drop_first());
        assert forall|i: int| 0 <= i < spec_pct_encode(s).len() implies spec_pct_encode(s)[i]
            < 0x80 && spec_pct_encode(s)[i] != 0x26u8 by {
            if i < e.len() {
                assert(spec_pct_encode(s)[i] == e[i]);
            } else {
                assert(spec_pct_encode(s)[i] == rest[i - e.len()]);
            }
        }
    }
}

/// Decoding a sequence with no `%` and no `+` returns it unchanged.
pub proof fn lemma_pct_decode_escape_free(s: Seq<u8>)
    requires
        escape_free(s),
    ensures
        spec_pct_decode(s) == Some(s),
    decreases s.len(),
{
    if s.len() == 0 {
        assert(Seq::<u8>::empty() =~= s);
    } else {
        lemma_pct_decode_escape_free(s.drop_first());
        assert(seq![s[0]] + s.drop_first() =~= s);
    }
}

/// Decoding inverts encoding.
pub proof fn lemma_pct_decode_encode(s: Seq<u8>)
    ensures
        spec_pct_decode(spec_pct_encode(s)) == Some(s),
    decreases s.len(),
{
    if s.len() == 0 {
    } else {
        lemma_pct_decode_encode(s.drop_first());
        let b = s[0];
        let e = spec_pct_byte(b);
        let rest = spec_pct_encode(s.drop_first());
        let whole = spec_pct_encode(s);
        if is_unreserved_byte(b) {
            assert(whole.drop_first() =~= rest);
            assert(seq![b] + s.drop_first() =~= s);
        } else if b == 0x20u8 {
            assert(whole.drop_first() =~= rest);
            assert(seq![0x20u8] + s.drop_first() =~= s);
        } else {
            assert(whole.len() >= 3);
            assert(whole[0] == 0x25u8);
            assert(whole[1] == spec_hex_digit(b / 16));
            assert(whole[2] == spec_hex_digit(b % 16));
            assert(whole.skip(3) =~= rest);
            assert(b / 16 < 16);
            assert(b % 16 < 16);
            assert(spec_hex_val(spec_hex_digit((b / 16) as u8)) == Some((b / 16) as u8));
            assert(spec_hex_val(spec_hex_digit((b % 16) as u8)) == Some((b % 16) as u8));
            assert((b / 16) * 16 + b % 16 == b) by {
                assert(b / 16 == (b as int) / 16 && b % 16 == (b as int) % 16);
            }
            assert(seq![b] + s.drop_first() =~= s);
        }
    }
}

// ---------------------------------------------------------------------------
// Decimal representation of the ping
// ---------------------------------------------------------------------------

/// Decimal digit characters of `n`, most significant first, no sign,
/// no leading zeros (a single `0` for zero).
pub open spec fn spec_dec_digits(n: nat) -> Seq<u8>
    decreases n,
{
    if n < 10 {
        seq![(0x30u8 + n) as u8]
    } else {
        spec_dec_digits(n / 10) + seq![(0x30u8 + n % 10) as u8]
    }
}

/// Value contributed by one digit character; non-digits count zero.
pub open spec fn spec_digit_val(b: u8) -> nat {
    if 0x30u8 <= b <= 0x39u8 {
        (b - 0x30u8) as nat
    } else {
        0
    }
}

/// Numeric value of a digit string, most significant first.
pub open spec fn spec_dec_val(s: Seq<u8>) -> nat
    decreases s.len(),
{
    if s.len() == 0 {
        0
    } else {
        spec_dec_val(s.drop_last()) * 10 + spec_digit_val(s.last())
    }
}

/// Is `b` a decimal digit character?
pub open spec fn spec_is_digit(b: u8) -> bool {
    0x30u8 <= b <= 0x39u8
}

/// A decimal string parses when it is non-empty, all digits, and its
/// value fits the ping's 128-bit range.
pub open spec fn spec_parse_dec(s: Seq<u8>) -> Option<u128> {
    if s.len() > 0 && (forall|i: int| 0 <= i < s.len() ==> spec_is_digit(s[i])) && spec_dec_val(s)
        <= u128::MAX {
        Some(spec_dec_val(s) as u128)
    } else {
        None
    }
}

/// The digits of `n` are digit characters, and they evaluate to `n`.
pub proof fn lemma_dec_digits_props(n: nat)
    ensures
        spec_dec_digits(n).len() > 0,
        forall|i: int|
            0 <= i < spec_dec_digits(n).len() ==> #[trigger] spec_is_digit(spec_dec_digits(n)[i]),
        spec_dec_val(spec_dec_digits(n)) == n,
    decreases n,
{
    if n < 10 {
        let d = spec_dec_digits(n);
        assert(d =~= seq![(0x30u8 + n) as u8]);
        assert(d.drop_last() =~= Seq::<u8>::empty());
        assert(spec_dec_val(d) == spec_dec_val(d.drop_last()) * 10 + spec_digit_val(d.last()));
        assert(spec_digit_val(d.last()) == n);
    } else {
        lemma_dec_digits_props(n / 10);
        let d = spec_dec_digits(n);
        let hi = spec_dec_digits(n / 10);
        assert(d.drop_last() =~= hi);
        assert(d.last() == (0x30u8 + n % 10) as u8);
        assert(spec_dec_val(d) == (n / 10) * 10 + n % 10);
        assert((n / 10) * 10 + n % 10 == n) by {
            assert(n == 10 * (n / 10) + n % 10);
        }
        assert forall|i: int| 0 <= i < d.len() implies #[trigger] spec_is_digit(d[i]) by {
            if i < hi.len() {
                assert(d[i] == hi[i]);
            } else {
                assert(d[i] == d.last());
            }
        }
    }
}

/// Digit strings are ASCII and contain no separator or escape bytes.
pub proof fn lemma_digits_classes(s: Seq<u8>)
    requires
        forall|i: int| 0 <= i < s.len() ==> #[trigger] spec_is_digit(s[i]),
    ensures
        all_ascii(s),
        amp_free(s),
        escape_free(s),
{
    assert forall|i: int| 0 <= i < s.len() implies s[i] < 0x80 && s[i] != 0x26u8 && s[i] != 0x25u8
        && s[i] != 0x2bu8 by {
        assert(spec_is_digit(s[i]));
    }
}

/// A digit-string prefix never exceeds the whole string's value.
pub proof fn lemma_dec_val_prefix_le(s: Seq<u8>, i: int)
    requires
        0 <= i <= s.len(),
    ensures
        spec_dec_val(s.take(i)) <= spec_dec_val(s),
    decreases s.len() - i,
{
    if i == s.len() {
        assert(s.take(i) =~= s);
    } else {
        lemma_dec_val_prefix_le(s, i + 1);
        assert(s.take(i + 1).drop_last() =~= s.take(i));
        assert(s.take(i + 1).last() == s[i]);
        assert(spec_dec_val(s.take(i)) <= spec_dec_val(s.take(i)) * 10 + spec_digit_val(s[i]));
    }
}

/// Rendering then parsing a ping returns it.
pub proof fn lemma_parse_dec_digits(n: u128)
    ensures
        spec_parse_dec(spec_dec_digits(n as nat)) == Some(n),
{
    lemma_dec_digits_props(n as nat);
}

fn push_dec_digits(out: &mut Vec<u8>, n: u128)
    ensures
        final(out)@ == old(out)@ + spec_dec_digits(n as nat),
    decreases n,
{
    if n < 10 {
        out.push(0x30u8 + (n as u8));
        proof {
            assert(out@ =~= old(out)@ + spec_dec_digits(n as nat));
        }
    } else {
        push_dec_digits(out, n / 10);
        out.push(0x30u8 + ((n % 10) as u8));
        proof {
            assert(out@ =~= old(out)@ + spec_dec_digits(n as nat));
        }
    }
}

fn parse_dec_u128(v: &Vec<u8>) -> (r: Option<u128>)
    ensures
        r == spec_parse_dec(v@),
{
    if v.len() == 0 {
        return None;
    }
    let mut acc: u128 = 0;
    let mut i: usize = 0;
    while i < v.len()
        invariant
            0 <= i <= v@.len(),
            forall|j: int| 0 <= j < i ==> #[trigger] spec_is_digit(v@[j]),
            acc == spec_dec_val(v@.take(i as int)),
        decreases v@.len() - i,
    {
        let b = v[i];
        if !(0x30u8 <= b && b <= 0x39u8) {
            return None;
        }
        proof {
            assert(v@.take(i + 1).drop_last() =~= v@.take(i as int));
            assert(v@.take(i + 1).last() == v@[i as int]);
        }
        let step = match acc.checked_mul(10) {
            Some(m) => m.checked_add((b - 0x30u8) as u128),
            None => None,
        };
        match step {
            Some(next) => {
                acc = next;
            },
            None => {
                proof {
                    lemma_dec_val_prefix_le(v@, i + 1);
                }
                return None;
            },
        }
        i += 1;
    }
    proof {
        assert(v@.take(v@.len() as int) =~= v@);
    }
    Some(acc)
}

// ---------------------------------------------------------------------------
// Status tokens and parameter keys, as wire bytes
// ---------------------------------------------------------------------------

/// UTF-8 (here: ASCII) bytes of a status's canonical token.
pub open spec fn spec_token_bytes(status: HeartbeatStatus) -> Seq<u8> {
    match status {
        // "up"
        HeartbeatStatus::Up => seq![0x75u8, 0x70u8],
        // "down"
        HeartbeatStatus::Down => seq![0x64u8, 0x6fu8, 0x77u8, 0x6eu8],
        // "degraded_performance"
        HeartbeatStatus::DegradedPerformance => seq![
            0x64u8,
            0x65u8,
            0x67u8,
            0x72u8,
            0x61u8,
            0x64u8,
            0x65u8,
            0x64u8,
            0x5fu8,
            0x70u8,
            0x65u8,
            0x72u8,
            0x66u8,
            0x6fu8,
            0x72u8,
            0x6du8,
            0x61u8,
            0x6eu8,
            0x63u8,
            0x65u8,
        ],
        // "under_maintenance"
        HeartbeatStatus::UnderMaintenance => seq![
            0x75u8,
            0x6eu8,
            0x64u8,
            0x65u8,
            0x72u8,
            0x5fu8,
            0x6du8,
            0x61u8,
            0x69u8,
            0x6eu8,
            0x74u8,
            0x65u8,
            0x6eu8,
            0x61u8,
            0x6eu8,
            0x63u8,
            0x65u8,
        ],
        // "limited_availability"
        HeartbeatStatus::LimitedAvailability => seq![
            0x6cu8,
            0x69u8,
            0x6du8,
            0x69u8,
            0x74u8,
            0x65u8,
            0x64u8,
            0x5fu8,
            0x61u8,
            0x76u8,
            0x61u8,
            0x69u8,
            0x6cu8,
            0x61u8,
            0x62u8,
            0x69u8,
            0x6cu8,
            0x69u8,
            0x74u8,
            0x79u8,
        ],
    }
}

/// The status whose token bytes are `s`, if any.
pub open spec fn spec_status_from_bytes(s: Seq<u8>) -> Option<HeartbeatStatus> {
    if s == spec_token_bytes(HeartbeatStatus::Up) {
        Some(HeartbeatStatus::Up)
    } else if s == spec_token_bytes(HeartbeatStatus::Down) {
        Some(HeartbeatStatus::Down)
    } else if s == spec_token_bytes(HeartbeatStatus::DegradedPerformance) {
        Some(HeartbeatStatus::DegradedPerformance)
    } else if s == spec_token_bytes(HeartbeatStatus::UnderMaintenance) {
        Some(HeartbeatStatus::UnderMaintenance)
    } else if s == spec_token_bytes(HeartbeatStatus::LimitedAvailability) {
        Some(HeartbeatStatus::LimitedAvailability)
    } else {
        None
    }
}

/// The wire bytes of a token are exactly the UTF-8 bytes of its
/// characters.
pub proof fn lemma_token_bytes_agree(status: HeartbeatStatus)
    ensures
        spec_token_bytes(status) == encode_utf8(status.token()),
{
    reveal_strlit("up");
    reveal_strlit("down");
    reveal_strlit("degraded_performance");
    reveal_strlit("under_maintenance");
    reveal_strlit("limited_availability");
    let chars = status.token();
    assert(is_ascii_chars(chars));
    is_ascii_chars_encode_utf8(chars);
    assert(spec_token_bytes(status) =~= encode_utf8(chars));
}

/// Every status's token bytes parse back to that status.
pub proof fn lemma_status_bytes_round_trip(status: HeartbeatStatus)
    ensures
        spec_status_from_bytes(spec_token_bytes(status)) == Some(status),
{
    if status is LimitedAvailability {
        assert(spec_token_bytes(HeartbeatStatus::LimitedAvailability)
            != spec_token_bytes(HeartbeatStatus::DegradedPerformance)) by {
            assert(spec_token_bytes(HeartbeatStatus::LimitedAvailability)[0] == 0x6cu8);
            assert(spec_token_bytes(HeartbeatStatus::DegradedPerformance)[0] == 0x64u8);
        }
    }
}

/// Token bytes are ASCII lowercase letters and underscores: no
/// separator, no escape bytes.
pub proof fn lemma_token_bytes_classes(status: HeartbeatStatus)
    ensures
        all_ascii(spec_token_bytes(status)),
        amp_free(spec_token_bytes(status)),
        escape_free(spec_token_bytes(status)),
{
    let t = spec_token_bytes(status);
    assert forall|i: int| 0 <= i < t.len() implies t[i] < 0x80 && t[i] != 0x26u8 && t[i]
        != 0x25u8 && t[i] != 0x2bu8 by {
        assert(0x5fu8 <= t[i] <= 0x79u8);
    }
}

/// Bytes of `"msg="`.
pub open spec fn spec_msg_key() -> Seq<u8> {
    seq![0x6du8, 0x73u8, 0x67u8, 0x3du8]
}

/// Bytes of `"status="`.
pub open spec fn spec_status_key() -> Seq<u8> {
    seq![0x73u8, 0x74u8, 0x61u8, 0x74u8, 0x75u8, 0x73u8, 0x3du8]
}

/// Bytes of `"ping="`.
pub open spec fn spec_ping_key() -> Seq<u8> {
    seq![0x70u8, 0x69u8, 0x6eu8, 0x67u8, 0x3du8]
}

// ---------------------------------------------------------------------------
// Splitting the query at the first pair separator
// ---------------------------------------------------------------------------

/// Splits at the first `&`: the part before it, and what follows it
/// (`None` when there is no `&`).
pub open spec fn spec_split_amp(s: Seq<u8>) -> (Seq<u8>, Option<Seq<u8>>)
    decreases s.len(),
{
    if s.len() == 0 {
        (Seq::empty(), None)
    } else if s[0] == 0x26u8 {
        (Seq::empty(), Some(s.drop_first()))
    } else {
        let (before, after) = spec_split_amp(s.drop_first());
        (seq![s[0]] + before, after)
    }
}

/// A sequence without `&` splits into itself and nothing.
pub proof fn lemma_split_amp_absent(s: Seq<u8>)
    requires
        amp_free(s),
    ensures
        spec_split_amp(s) == (s, None::<Seq<u8>>),
    decreases s.len(),
{
    if s.len() == 0 {
        assert(Seq::<u8>::empty() =~= s);
    } else {
        lemma_split_amp_absent(s.drop_first());
        assert(seq![s[0]] + s.drop_first() =~= s);
    }
}

/// With an `&`-free prefix, the split recovers that prefix and what
/// follows the first `&`.
pub proof fn lemma_split_amp_concat(x: Seq<u8>, y: Seq<u8>)
    requires
        amp_free(x),
    ensures
        spec_split_amp(x + seq![0x26u8] + y) == (x, Some(y)),
    decreases x.len(),
{
    let s = x + seq![0x26u8] + y;
    if x.len() == 0 {
        assert(s[0] == 0x26u8);
        assert(s.drop_first() =~= y);
        assert(spec_split_amp(s).0 =~= x);
    } else {
        lemma_split_amp_concat(x.drop_first(), y);
        assert(s[0] == x[0]);
        assert(s.drop_first() =~= x.drop_first() + seq![0x26u8] + y);
        assert(seq![x[0]] + x.drop_first() =~= x);
    }
}

/// Ties an index scan to `spec_split_amp`: when `[i, j)` is `&`-free
/// and `j` is either the end or the first `&`, the split of `s` from
/// `i` yields exactly that range.
pub proof fn lemma_split_amp_scan(s: Seq<u8>, i: int, j: int)
    requires
        0 <= i <= j <= s.len(),
        forall|k: int| i <= k < j ==> s[k] != 0x26u8,
        j < s.len() ==> s[j] == 0x26u8,
    ensures
        j == s.len() ==> spec_split_amp(s.skip(i)) == (s.subrange(i, j), None::<Seq<u8>>),
        j < s.len() ==> spec_split_amp(s.skip(i)) == (s.subrange(i, j), Some(s.skip(j + 1))),
    decreases j - i,
{
    if i == j {
        if j == s.len() {
            assert(s.skip(i) =~= Seq::<u8>::empty());
            assert(s.subrange(i, j) =~= Seq::<u8>::empty());
        } else {
            assert(s.skip(i)[0] == s[j]);
            assert(s.skip(i).drop_first() =~= s.skip(j + 1));
            assert(s.subrange(i, j) =~= Seq::<u8>::empty());
            assert(spec_split_amp(s.skip(i)).0 =~= s.subrange(i, j));
        }
    } else {
        lemma_split_amp_scan(s, i + 1, j);
        assert(s.skip(i)[0] == s[i]);
        assert(s[i] != 0x26u8);
        assert(s.skip(i).drop_first() =~= s.skip(i + 1));
        assert(seq![s[i]] + s.subrange(i + 1, j) =~= s.subrange(i, j));
    }
}

// ---------------------------------------------------------------------------
// The query string as a whole
// ---------------------------------------------------------------------------

/// Wire bytes of a heartbeat whose message has UTF-8 bytes `msg`:
/// `msg=<encoded message>&status=<token>&ping=<decimal>`.
pub open spec fn spec_encode_query(msg: Seq<u8>, status: HeartbeatStatus, ping: u128) -> Seq<u8> {
    spec_msg_key() + spec_pct_encode(msg) + seq![0x26u8] + spec_status_key() + spec_token_bytes(
        status,
    ) + seq![0x26u8] + spec_ping_key() + spec_dec_digits(ping as nat)
}

/// Parses wire bytes back into message bytes, status, and ping.
///
/// The grammar is exactly what `spec_encode_query` emits, with the
/// three keys in their fixed order; values are form-decoded, the
/// message must decode to valid UTF-8, the status must be a canonical
/// token, and the ping a decimal that fits 128 bits.
pub open spec fn spec_decode_query(b: Seq<u8>) -> Option<(Seq<u8>, HeartbeatStatus, u128)> {
    if b.len() < 4 || b.take(4) != spec_msg_key() {
        None
    } else {
        let (mseg, rest1opt) = spec_split_amp(b.skip(4));
        match rest1opt {
            None => None,
            Some(rest1) => if rest1.len() < 7 || rest1.take(7) != spec_status_key() {
                None
            } else {
                let (sseg, rest2opt) = spec_split_amp(rest1.skip(7));
                match rest2opt {
                    None => None,
                    Some(rest2) => if rest2.len() < 5 || rest2.take(5) != spec_ping_key() {
                        None
                    } else {
                        let (pseg, rest3opt) = spec_split_amp(rest2.skip(5));
                        if rest3opt is Some {
                            None
                        } else {
                            spec_decode_values(mseg, sseg, pseg)
                        }
                    },
                }
            },
        }
    }
}

/// Form-decodes and interprets the three raw values of a query.
pub open spec fn spec_decode_values(mseg: Seq<u8>, sseg: Seq<u8>, pseg: Seq<u8>) -> Option<
    (Seq<u8>, HeartbeatStatus, u128),
> {
    match (spec_pct_decode(mseg), spec_pct_decode(sseg), spec_pct_decode(pseg)) {
        (Some(m), Some(sv), Some(pv)) => if !valid_utf8(m) {
            None
        } else {
            match spec_status_from_bytes(sv) {
                None => None,
                Some(status) => match spec_parse_dec(pv) {
                    None => None,
                    Some(ping) => Some((m, status, ping)),
                },
            }
        },
        _ => None,
    }
}

/// An all-ASCII byte sequence is valid UTF-8.
pub proof fn lemma_ascii_valid_utf8(s: Seq<u8>)
    requires
        all_ascii(s),
    ensures
        valid_utf8(s),
{
    assert(partial_valid_utf8(s, 0)) by {
        assert(s.subrange(0, 0) =~= Seq::<u8>::empty());
    }
    assert forall|i: int| 0 <= i < s.len() implies #[trigger] is_leading_byte_width_1(s[i]) by {
        assert(s[i] < 0x80);
    }
    partial_valid_utf8_extend_ascii_block(s, 0, s.len() as int);
    assert(s.subrange(0, s.len() as int) =~= s);
}

// ---------------------------------------------------------------------------
// Executable encoding
// ---------------------------------------------------------------------------

/// Relies on `String::from_utf8`: it accepts exactly the byte vectors
/// that are valid UTF-8, and the returned string's characters decode
/// those bytes.
#[verifier::external_body]
fn string_from_utf8(bytes: Vec<u8>) -> (r: Option<String>)
    ensures
        (r is Some) == valid_utf8(bytes@),
        r matches Some(s) ==> s@ == decode_utf8(bytes@),
{
    String::from_utf8(bytes).ok()
}

fn push_token_bytes(out: &mut Vec<u8>, status: HeartbeatStatus)
    ensures
        final(out)@ == old(out)@ + spec_token_bytes(status),
{
    let token = status.as_token();
    let mut bytes = token.as_str().as_bytes_vec();
    proof {
        lemma_token_bytes_agree(status);
    }
    out.append(&mut bytes);
}

fn pct_encode_into(out: &mut Vec<u8>, src: &Vec<u8>)
    ensures
        final(out)@ == old(out)@ + spec_pct_encode(src@),
{
    let mut i: usize = 0;
    while i < src.len()
        invariant
            0 <= i <= src@.len(),
            out@ == old(out)@ + spec_pct_encode(src@.take(i as int)),
        decreases src@.len() - i,
    {
        let b = src[i];
        let ghost prefix = src@.take(i as int);
        if (0x41 <= b && b <= 0x5a) || (0x61 <= b && b <= 0x7a) || (0x30 <= b && b <= 0x39) || b
            == 0x2a || b == 0x2d || b == 0x2e || b == 0x5f {
            out.push(b);
        } else if b == 0x20 {
            out.push(0x2b);
        } else {
            out.push(0x25);
            out.push(hex_digit(b / 16));
            out.push(hex_digit(b % 16));
        }
        proof {
            assert(src@.take(i + 1) =~= prefix + seq![src@[i as int]]);
            lemma_pct_encode_append(prefix, seq![src@[i as int]]);
            assert(seq![src@[i as int]].drop_first() =~= Seq::<u8>::empty());
            assert(spec_pct_encode(seq![src@[i as int]]) =~= spec_pct_byte(src@[i as int])
                + spec_pct_encode(Seq::<u8>::empty()));
            assert(spec_pct_encode(seq![src@[i as int]]) =~= spec_pct_byte(src@[i as int]));
            assert(out@ =~= old(out)@ + spec_pct_encode(src@.take(i + 1)));
        }
        i += 1;
    }
    proof {
        assert(src@.take(src@.len() as int) =~= src@);
    }
}

/// Encodes a heartbeat into the query string of the push request:
/// `msg=...&status=...&ping=...`, ASCII, in the form encoding.
pub fn encode_heartbeat_query(hb: &Heartbeat) -> (r: String)
    ensures
        r@ == decode_utf8(spec_encode_query(encode_utf8(hb.msg@), hb.status, hb.ping)),
        encode_utf8(r@) == spec_encode_query(encode_utf8(hb.msg@), hb.status, hb.ping),
{
    let msg_bytes = hb.msg.as_str().as_bytes_vec();
    let mut out: Vec<u8> = Vec::new();
    // "msg="
    out.push(0x6d);
    out.push(0x73);
    out.push(0x67);
    out.push(0x3d);
    let ghost p0 = out@;
    proof {
        assert(p0 =~= spec_msg_key());
    }
    pct_encode_into(&mut out, &msg_bytes);
    out.push(0x26);
    // "status="
    out.push(0x73);
    out.push(0x74);
    out.push(0x61);
    out.push(0x74);
    out.push(0x75);
    out.push(0x73);
    out.push(0x3d);
    push_token_bytes(&mut out, hb.status);
    out.push(0x26);
    // "ping="
    out.push(0x70);
    out.push(0x69);
    out.push(0x6e);
    out.push(0x67);
    out.push(0x3d);
    push_dec_digits(&mut out, hb.ping);
    let ghost q = spec_encode_query(encode_utf8(hb.msg@), hb.status, hb.ping);
    proof {
        assert(out@ =~= q);
        assert(all_ascii(out@)) by {
            lemma_pct_encode_props(encode_utf8(hb.msg@));
            lemma_token_bytes_classes(hb.status);
            lemma_dec_digits_props(hb.ping as nat);
            lemma_digits_classes(spec_dec_digits(hb.ping as nat));
            assert forall|i: int| 0 <= i < q.len() implies q[i] < 0x80 by {
                lemma_concat_index_classes(hb.msg@, hb.status, hb.ping, i);
            }
        }
        lemma_ascii_valid_utf8(out@);
        broadcast use decode_utf8_encode_utf8;

    }
    match string_from_utf8(out) {
        Some(s) => s,
        None => {
            proof {
                assert(false);
            }
            String::new()
        },
    }
}

/// Each byte of an encoded query is a key byte, a separator, or a
/// byte of one of the three encoded values.
proof fn lemma_concat_index_classes(msg: Seq<char>, status: HeartbeatStatus, ping: u128, i: int)
    requires
        0 <= i < spec_encode_query(encode_utf8(msg), status, ping).len(),
    ensures
        spec_encode_query(encode_utf8(msg), status, ping)[i] < 0x80,
{
    let q = spec_encode_query(encode_utf8(msg), status, ping);
    let a1 = spec_msg_key();
    let a2 = spec_pct_encode(encode_utf8(msg));
    let a3 = seq![0x26u8];
    let a4 = spec_status_key();
    let a5 = spec_token_bytes(status);
    let a6 = seq![0x26u8];
    let a7 = spec_ping_key();
    let a8 = spec_dec_digits(ping as nat);
    lemma_pct_encode_props(encode_utf8(msg));
    lemma_token_bytes_classes(status);
    lemma_dec_digits_props(ping as nat);
    lemma_digits_classes(a8);
    assert(q =~= a1 + a2 + a3 + a4 + a5 + a6 + a7 + a8);
    let n1 = a1.len() as int;
    let n2 = n1 + a2.len();
    let n3 = n2 + 1;
    let n4 = n3 + a4.len();
    let n5 = n4 + a5.len();
    let n6 = n5 + 1;
    let n7 = n6 + a7.len();
    if i < n1 {
        assert(q[i] == a1[i]);
    } else if i < n2 {
        assert(q[i] == a2[i - n1]);
    } else if i < n3 {
        assert(q[i] == 0x26u8);
    } else if i < n4 {
        assert(q[i] == a4[i - n3]);
    } else if i < n5 {
        assert(q[i] == a5[i - n4]);
    } else if i < n6 {
        assert(q[i] == 0x26u8);
    } else if i < n7 {
        assert(q[i] == a7[i - n6]);
    } else {
        assert(q[i] == a8[i - n7]);
    }
}

// ---------------------------------------------------------------------------
// Executable decoding
// ---------------------------------------------------------------------------

fn vec_u8_eq(a: &Vec<u8>, b: &Vec<u8>) -> (r: bool)
    ensures
        r == (a@ == b@),
{
    if a.len() != b.len() {
        return false;
    }
    let mut i: usize = 0;
    while i < a.len()
        invariant
            a@.len() == b@.len(),
            0 <= i <= a@.len(),
            forall|j: int| 0 <= j < i ==> a@[j] == b@[j],
        decreases a@.len() - i,
    {
        if a[i] != b[i] {
            return false;
        }
        i += 1;
    }
    proof {
        assert(a@ =~= b@);
    }
    true
}

fn token_bytes_vec(status: HeartbeatStatus) -> (r: Vec<u8>)
    ensures
        r@ == spec_token_bytes(status),
{
    let mut v: Vec<u8> = Vec::new();
    push_token_bytes(&mut v, status);
    proof {
        assert(v@ =~= spec_token_bytes(status));
    }
    v
}

fn status_from_bytes(v: &Vec<u8>) -> (r: Option<HeartbeatStatus>)
    ensures
        r == spec_status_from_bytes(v@),
{
    let up = token_bytes_vec(HeartbeatStatus::Up);
    let down = token_bytes_vec(HeartbeatStatus::Down);
    let degraded = token_bytes_vec(HeartbeatStatus::DegradedPerformance);
    let maintenance = token_bytes_vec(HeartbeatStatus::UnderMaintenance);
    let limited = token_bytes_vec(HeartbeatStatus::LimitedAvailability);
    if vec_u8_eq(v, &up) {
        Some(HeartbeatStatus::Up)
    } else if vec_u8_eq(v, &down) {
        Some(HeartbeatStatus::Down)
    } else if vec_u8_eq(v, &degraded) {
        Some(HeartbeatStatus::DegradedPerformance)
    } else if vec_u8_eq(v, &maintenance) {
        Some(HeartbeatStatus::UnderMaintenance)
    } else if vec_u8_eq(v, &limited) {
        Some(HeartbeatStatus::LimitedAvailability)
    } else {
        None
    }
}

/// First position at or after `from` holding `&`, or the length.
fn scan_amp(v: &Vec<u8>, from: usize) -> (j: usize)
    requires
        from <= v@.len(),
    ensures
        from <= j <= v@.len(),
        forall|k: int| from <= k < j ==> v@[k] != 0x26u8,
        j < v@.len() ==> v@[j as int] == 0x26u8,
{
    let mut j = from;
    while j < v.len()
        invariant
            from <= j <= v@.len(),
            forall|k: int| from <= k < j ==> v@[k] != 0x26u8,
        decreases v@.len() - j,
    {
        if v[j] == 0x26 {
            return j;
        }
        j += 1;
    }
    j
}

/// Does `v` hold exactly the bytes of `key` starting at `at`?
fn eq_range(v: &Vec<u8>, at: usize, key: &Vec<u8>) -> (r: bool)
    requires
        at <= v@.len(),
    ensures
        r == (at + key@.len() <= v@.len() && v@.subrange(at as int, at + key@.len()) == key@),
{
    if key.len() > v.len() - at {
        return false;
    }
    let mut i: usize = 0;
    while i < key.len()
        invariant
            at + key@.len() <= v@.len(),
            at + key@.len() <= usize::MAX,
            0 <= i <= key@.len(),
            forall|j: int| 0 <= j < i ==> v@[at + j] == key@[j],
        decreases key@.len() - i,
    {
        if v[at + i] != key[i] {
            proof {
                assert(v@.subrange(at as int, at + key@.len())[i as int] != key@[i as int]);
            }
            return false;
        }
        i += 1;
    }
    proof {
        assert(v@.subrange(at as int, at + key@.len()) =~= key@);
    }
    true
}

fn msg_key_vec() -> (r: Vec<u8>)
    ensures
        r@ == spec_msg_key(),
{
    let mut v: Vec<u8> = Vec::new();
    v.push(0x6d);
    v.push(0x73);
    v.push(0x67);
    v.push(0x3d);
    proof {
        assert(v@ =~= spec_msg_key());
    }
    v
}

fn status_key_vec() -> (r: Vec<u8>)
    ensures
        r@ == spec_status_key(),
{
    let mut v: Vec<u8> = Vec::new();
    v.push(0x73);
    v.push(0x74);
    v.push(0x61);
    v.push(0x74);
    v.push(0x75);
    v.push(0x73);
    v.push(0x3d);
    proof {
        assert(v@ =~= spec_status_key());
    }
    v
}

fn ping_key_vec() -> (r: Vec<u8>)
    ensures
        r@ == spec_ping_key(),
{
    let mut v: Vec<u8> = Vec::new();
    v.push(0x70);
    v.push(0x69);
    v.push(0x6e);
    v.push(0x67);
    v.push(0x3d);
    proof {
        assert(v@ =~= spec_ping_key());
    }
    v
}

/// Form-decodes the bytes of `v` between `from` and `to`.
fn pct_decode_range(v: &Vec<u8>, from: usize, to: usize) -> (r: Option<Vec<u8>>)
    requires
        from <= to <= v@.len(),
    ensures
        (r is Some) == (spec_pct_decode(v@.subrange(from as int, to as int)) is Some),
        r matches Some(out) ==> spec_pct_decode(v@.subrange(from as int, to as int)) == Some(
            out@,
        ),
{
    let ghost seg = v@.subrange(from as int, to as int);
    let mut acc: Vec<u8> = Vec::new();
    let mut j = from;
    proof {
        assert(seg.skip(0) =~= seg);
    }
    while j < to
        invariant
            from <= j <= to <= v@.len(),
            seg == v@.subrange(from as int, to as int),
            (spec_pct_decode(seg) is Some) == (spec_pct_decode(seg.skip(j - from)) is Some),
            spec_pct_decode(seg) matches Some(w) ==> spec_pct_decode(seg.skip(j - from)) matches Some(
                rest,
            ) && w == acc@ + rest,
        decreases to - j,
    {
        let ghost tail = seg.skip(j - from);
        proof {
            assert(tail.len() == to - j);
            assert(tail[0] == v@[j as int]);
            assert(tail.drop_first() =~= seg.skip(j + 1 - from));
        }
        let b = v[j];
        if b == 0x25 {
            if to - j < 3 {
                return None;
            }
            let h = hex_val(v[j + 1]);
            let l = hex_val(v[j + 2]);
            proof {
                assert(tail[1] == v@[j + 1]);
                assert(tail[2] == v@[j + 2]);
                assert(tail.skip(3) =~= seg.skip(j + 3 - from));
            }
            match (h, l) {
                (Some(hv), Some(lv)) => {
                    acc.push(hv * 16 + lv);
                    j += 3;
                },
                _ => {
                    return None;
                },
            }
        } else if b == 0x2b {
            acc.push(0x20);
            j += 1;
        } else {
            acc.push(b);
            j += 1;
        }
    }
    proof {
        assert(seg.skip(to - from) =~= Seq::<u8>::empty());
        assert(spec_pct_decode(seg) matches Some(w) ==> w == acc@);
    }
    Some(acc)
}

/// Decodes an inbound federation query string into a heartbeat.
///
/// Accepts exactly the grammar of `spec_decode_query`: the three
/// parameters in the order `msg`, `status`, `ping`, with form-encoded
/// values, a canonical status token, and a decimal ping that fits the
/// heartbeat's range.
pub fn decode_heartbeat_query(q: &str) -> (r: Option<Heartbeat>)
    ensures
        (r is Some) == (spec_decode_query(encode_utf8(q@)) is Some),
        r matches Some(hb) ==> spec_decode_query(encode_utf8(q@)) matches Some(p) && hb.msg@
            == decode_utf8(p.0) && hb.status == p.1 && hb.ping == p.2,
{
    let bytes = q.as_bytes_vec();
    let ghost qb = encode_utf8(q@);
    let n = bytes.len();
    let mkey = msg_key_vec();
    if !eq_range(&bytes, 0, &mkey) {
        proof {
            if qb.len() >= 4 {
                assert(qb.take(4) =~= qb.subrange(0, 4));
            }
        }
        return None;
    }
    proof {
        assert(qb.take(4) =~= qb.subrange(0, 4));
    }
    let j1 = scan_amp(&bytes, 4);
    proof {
        lemma_split_amp_scan(qb, 4, j1 as int);
    }
    if j1 == n {
        return None;
    }
    let ghost mseg = qb.subrange(4, j1 as int);
    let ghost rest1 = qb.skip(j1 + 1);
    let skey = status_key_vec();
    if !eq_range(&bytes, j1 + 1, &skey) {
        proof {
            if rest1.len() >= 7 {
                assert(rest1.take(7) =~= qb.subrange(j1 + 1, j1 + 8));
            }
        }
        return None;
    }
    proof {
        assert(rest1.take(7) =~= qb.subrange(j1 + 1, j1 + 8));
        assert(rest1.take(7) == spec_status_key());
    }
    let j2 = scan_amp(&bytes, j1 + 8);
    proof {
        assert(rest1.skip(7) =~= qb.skip(j1 + 8));
        lemma_split_amp_scan(qb, j1 + 8, j2 as int);
        assert(spec_split_amp(rest1.skip(7)) == spec_split_amp(qb.skip(j1 + 8)));
    }
    if j2 == n {
        return None;
    }
    let ghost sseg = qb.subrange(j1 + 8, j2 as int);
    let ghost rest2 = qb.skip(j2 + 1);
    let pkey = ping_key_vec();
    if !eq_range(&bytes, j2 + 1, &pkey) {
        proof {
            if rest2.len() >= 5 {
                assert(rest2.take(5) =~= qb.subrange(j2 + 1, j2 + 6));
            }
        }
        return None;
    }
    proof {
        assert(rest2.take(5) =~= qb.subrange(j2 + 1, j2 + 6));
        assert(rest2.take(5) == spec_ping_key());
    }
    let j3 = scan_amp(&bytes, j2 + 6);
    proof {
        assert(rest2.skip(5) =~= qb.skip(j2 + 6));
        lemma_split_amp_scan(qb, j2 + 6, j3 as int);
        assert(spec_split_amp(rest2.skip(5)) == spec_split_amp(qb.skip(j2 + 6)));
    }
    if j3 != n {
        return None;
    }
    let ghost pseg = qb.subrange(j2 + 6, qb.len() as int);
    let mdec_opt = pct_decode_range(&bytes, 4, j1);
    let sdec_opt = pct_decode_range(&bytes, j1 + 8, j2);
    let pdec_opt = pct_decode_range(&bytes, j2 + 6, n);
    let (mdec, sdec, pdec) = match (mdec_opt, sdec_opt, pdec_opt) {
        (Some(m), Some(s), Some(p)) => (m, s, p),
        _ => {
            return None;
        },
    };
    let msg = match string_from_utf8(mdec) {
        Some(s) => s,
        None => {
            return None;
        },
    };
    let status = match status_from_bytes(&sdec) {
        Some(s) => s,
        None => {
            return None;
        },
    };
    let ping = match parse_dec_u128(&pdec) {
        Some(p) => p,
        None => {
            return None;
        },
    };
    Some(Heartbeat { msg, status, ping })
}

// ---------------------------------------------------------------------------
// The wire round trip
// ---------------------------------------------------------------------------

/// Heartbeat wire round trip: for every message, status, and ping,
/// decoding the encoded query yields exactly the encoded message
/// bytes, the same status, and the same ping; and those message bytes
/// decode back to the original message characters.
pub proof fn lemma_heartbeat_query_round_trip(msg: Seq<char>, status: HeartbeatStatus, ping: u128)
    ensures
        spec_decode_query(spec_encode_query(encode_utf8(msg), status, ping)) == Some(
            (encode_utf8(msg), status, ping),
        ),
        decode_utf8(encode_utf8(msg)) == msg,
{
    broadcast use encode_utf8_valid_utf8, encode_utf8_decode_utf8;

    let mb = encode_utf8(msg);
    let q = spec_encode_query(mb, status, ping);
    let enc = spec_pct_encode(mb);
    let tok = spec_token_bytes(status);
    let dig = spec_dec_digits(ping as nat);
    lemma_pct_encode_props(mb);
    lemma_token_bytes_classes(status);
    lemma_dec_digits_props(ping as nat);
    lemma_digits_classes(dig);
    assert(q.len() >= 4);
    assert(q.take(4) =~= spec_msg_key());
    let y1 = spec_status_key() + tok + seq![0x26u8] + spec_ping_key() + dig;
    assert(q.skip(4) =~= enc + seq![0x26u8] + y1);
    lemma_split_amp_concat(enc, y1);
    assert(y1.take(7) =~= spec_status_key());
    let y2 = spec_ping_key() + dig;
    assert(y1.skip(7) =~= tok + seq![0x26u8] + y2);
    lemma_split_amp_concat(tok, y2);
    assert(y2.take(5) =~= spec_ping_key());
    assert(y2.skip(5) =~= dig);
    lemma_split_amp_absent(dig);
    lemma_pct_decode_encode(mb);
    lemma_pct_decode_escape_free(tok);
    lemma_pct_decode_escape_free(dig);
    lemma_status_bytes_round_trip(status);
    lemma_parse_dec_digits(ping);
}

} // verus!
