//! The identifiers of recordings.
//!
//! An identifier is a UUID, held as the number that its 128 bits stand for.

use crate::text::starts_with_any_case;
use vstd::prelude::*;

verus! {

/// The identifier of a recording.
#[derive(Debug, Clone, Copy, PartialEq, Eq, Structural)]
pub struct RecordingId(pub u128);

/// The hexadecimal digit for `d`, in lower case.
pub open spec fn hex_digit(d: int) -> char {
    if d < 10 {
        (('0' as int) + d) as char
    } else {
        (('a' as int) + d - 10) as char
    }
}

/// What a hexadecimal digit stands for, in either case.
pub open spec fn hex_value(c: char) -> Option<int> {
    if '0' <= c <= '9' {
        Some(c as int - '0' as int)
    } else if 'a' <= c <= 'f' {
        Some(c as int - 'a' as int + 10)
    } else if 'A' <= c <= 'F' {
        Some(c as int - 'A' as int + 10)
    } else {
        None
    }
}

/// The last `k` hexadecimal digits of `n`.
pub open spec fn hex_digits(n: nat, k: nat) -> Seq<char>
    decreases k,
{
    if k == 0 {
        Seq::empty()
    } else {
        hex_digits(n / 16, (k - 1) as nat).push(hex_digit((n % 16) as int))
    }
}

/// The number that hexadecimal digits stand for.
pub open spec fn hex_number(s: Seq<char>) -> Option<int>
    decreases s.len(),
{
    if s.len() == 0 {
        Some(0)
    } else {
        match (hex_number(s.drop_last()), hex_value(s.last())) {
            (Some(n), Some(d)) => Some(16 * n + d),
            _ => None,
        }
    }
}

/// 32 digits in groups of 8, 4, 4, 4 and 12 with hyphens between them.
pub open spec fn grouped(d: Seq<char>) -> Seq<char> {
    d.subrange(0, 8) + seq!['-'] + d.subrange(8, 12) + seq!['-'] + d.subrange(12, 16) + seq!['-']
        + d.subrange(16, 20) + seq!['-'] + d.subrange(20, 32)
}

/// The digits of 36 characters in groups.
pub open spec fn ungrouped(s: Seq<char>) -> Seq<char> {
    s.subrange(0, 8) + s.subrange(9, 13) + s.subrange(14, 18) + s.subrange(19, 23) + s.subrange(
        24,
        36,
    )
}

/// Whether 36 characters have hyphens where the groups of an identifier meet.
pub open spec fn has_groups(s: Seq<char>) -> bool {
    s.len() == 36 && s[8] == '-' && s[13] == '-' && s[18] == '-' && s[23] == '-'
}

/// The number that digits in groups stand for.
pub open spec fn grouped_number(s: Seq<char>) -> Option<int> {
    if has_groups(s) {
        hex_number(ungrouped(s))
    } else {
        None
    }
}

/// The number that a text stands for: 32 digits, or digits in groups, which
/// may stand in braces or behind `urn:uuid:`.
pub open spec fn id_number(s: Seq<char>) -> Option<int> {
    if s.len() == 32 {
        hex_number(s)
    } else if s.len() == 38 && s[0] == '{' && s[37] == '}' {
        grouped_number(s.subrange(1, 37))
    } else if s.len() == 45 && starts_with_any_case(
        s,
        seq!['u', 'r', 'n', ':', 'u', 'u', 'i', 'd', ':'],
    ) {
        grouped_number(s.skip(9))
    } else {
        grouped_number(s)
    }
}

/// The text of an identifier.
pub open spec fn id_text(id: RecordingId) -> Seq<char> {
    grouped(hex_digits(id.0 as nat, 32))
}

/// Parses an identifier with `uuid::Uuid::parse_str` and takes its number with
/// `Uuid::as_u128`.
///
/// Claimed of them: 32 hexadecimal digits in either case are accepted, bare or
/// with hyphens behind the 8th, 12th, 16th and 20th, and in the latter form
/// also in braces or behind `urn:uuid:` in any case; the number is that of the
/// digits; anything else is refused.
#[verifier::external_body]
fn uuid_number(text: &str) -> (r: Option<u128>)
    ensures
        match r {
            Some(n) => id_number(text@) == Some(n as int),
            None => id_number(text@) is None,
        },
{
    uuid::Uuid::parse_str(text).ok().map(|u| u.as_u128())
}

/// Writes the identifier of a number (`uuid::Uuid::from_u128`) with its
/// `Display`.
///
/// Claimed of it: the text is the 32 hexadecimal digits of the number in lower
/// case, with hyphens behind the 8th, 12th, 16th and 20th.
#[verifier::external_body]
fn uuid_text(n: u128) -> (s: String)
    ensures
        s@ == grouped(hex_digits(n as nat, 32)),
{
    uuid::Uuid::from_u128(n).to_string()
}

/// Makes up an identifier with `uuid::Uuid::new_v4`.
///
/// Claimed of it: all but six bits are random; the version, the 13th digit of
/// the number, is 4, and the two highest bits of the 17th are 1 and 0. That no
/// two calls give the same number is not claimed: it is only overwhelmingly
/// likely.
#[verifier::external_body]
fn random_uuid() -> (n: u128)
    ensures
        (n / 0x1000_0000_0000_0000_0000) % 16 == 4,
        (n / 0x4000_0000_0000_0000) % 4 == 2,
{
    uuid::Uuid::new_v4().as_u128()
}

/// Whether an identifier is one of those that are made up at random.
pub open spec fn is_random_kind(id: RecordingId) -> bool {
    &&& (id.0 / 0x1000_0000_0000_0000_0000) % 16 == 4
    &&& (id.0 / 0x4000_0000_0000_0000) % 4 == 2
}

impl RecordingId {
    /// A new identifier.
    pub fn new() -> (id: RecordingId)
        ensures
            is_random_kind(id),
    {
        RecordingId(random_uuid())
    }

    /// The identifier that `text` stands for.
    pub fn parse(text: &str) -> (r: Option<RecordingId>)
        ensures
            match r {
                Some(id) => id_number(text@) == Some(id.0 as int),
                None => id_number(text@) is None,
            },
    {
        match uuid_number(text) {
            Some(n) => Some(RecordingId(n)),
            None => None,
        }
    }

    /// The identifier as text.
    pub fn to_text(&self) -> (s: String)
        ensures
            s@ == id_text(*self),
    {
        uuid_text(self.0)
    }
}

proof fn lemma_hex_digits(n: nat, k: nat)
    ensures
        hex_digits(n, k).len() == k,
        n < pow16(k) ==> hex_number(hex_digits(n, k)) == Some(n as int),
    decreases k,
{
    if k > 0 {
        lemma_hex_digits(n / 16, (k - 1) as nat);
        let s = hex_digits(n, k);
        assert(s.drop_last() == hex_digits(n / 16, (k - 1) as nat));
        let d = (n % 16) as int;
        assert(hex_value(hex_digit(d)) == Some(d)) by {
            assert(0 <= d < 16);
        }
        assert(s.last() == hex_digit(d));
        assert(n == 16 * (n / 16) + n % 16);
        if n < pow16(k) {
            assert(n / 16 < pow16((k - 1) as nat));
        }
    }
}

/// How many numbers `k` hexadecimal digits can write.
spec fn pow16(k: nat) -> nat
    decreases k,
{
    if k == 0 {
        1
    } else {
        16 * pow16((k - 1) as nat)
    }
}

/// An identifier is found again in its text.
pub proof fn law_id_text_round_trip(id: RecordingId)
    ensures
        id_text(id).len() == 36,
        id_number(id_text(id)) == Some(id.0 as int),
{
    let n = id.0 as nat;
    reveal_with_fuel(pow16, 33);
    lemma_hex_digits(n, 32);
    let d = hex_digits(n, 32);
    let s = grouped(d);
    assert(s.len() == 36);
    assert(has_groups(s));
    assert(ungrouped(s) == d) by {
        assert(s.subrange(0, 8) == d.subrange(0, 8));
        assert(s.subrange(9, 13) == d.subrange(8, 12));
        assert(s.subrange(14, 18) == d.subrange(12, 16));
        assert(s.subrange(19, 23) == d.subrange(16, 20));
        assert(s.subrange(24, 36) == d.subrange(20, 32));
    }
}

/// Two identifiers with the same text are the same.
pub proof fn law_id_text_is_unique(a: RecordingId, b: RecordingId)
    requires
        id_text(a) == id_text(b),
    ensures
        a == b,
{
    law_id_text_round_trip(a);
    law_id_text_round_trip(b);
}

proof fn lemma_hex_characters(n: nat, k: nat, j: int)
    requires
        0 <= j < k,
    ensures
        hex_digits(n, k).len() == k,
        '0' <= hex_digits(n, k)[j] <= '9' || 'a' <= hex_digits(n, k)[j] <= 'f',
    decreases k,
{
    lemma_hex_digits(n, k);
    if j < k - 1 {
        lemma_hex_characters(n / 16, (k - 1) as nat, j);
        lemma_hex_digits(n / 16, (k - 1) as nat);
        assert(hex_digits(n, k)[j] == hex_digits(n / 16, (k - 1) as nat)[j]);
    }
}

/// The text of an identifier is made of hexadecimal digits in lower case, with
/// hyphens that part them into groups of 8, 4, 4, 4 and 12.
pub proof fn law_id_text_is_hexadecimal(id: RecordingId, k: int)
    requires
        0 <= k < 36,
    ensures
        id_text(id).len() == 36,
        k == 8 || k == 13 || k == 18 || k == 23 ==> id_text(id)[k] == '-',
        k != 8 && k != 13 && k != 18 && k != 23 ==> '0' <= id_text(id)[k] <= '9' || 'a' <= id_text(
            id,
        )[k] <= 'f',
{
    let n = id.0 as nat;
    let d = hex_digits(n, 32);
    lemma_hex_digits(n, 32);
    let s = id_text(id);
    let j = if k < 8 {
        k
    } else if k < 13 {
        k - 1
    } else if k < 18 {
        k - 2
    } else if k < 23 {
        k - 3
    } else {
        k - 4
    };
    if k != 8 && k != 13 && k != 18 && k != 23 {
        lemma_hex_characters(n, 32, j);
        assert(s[k] == d[j]);
    }
}

} // verus!
