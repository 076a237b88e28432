//! Identifiers: 128-bit UUID values and their textual forms.
use vstd::arithmetic::power::pow;
use vstd::prelude::*;
use vstd::string::*;

verus! {

/// The lowercase hexadecimal digit for a value in `0..16`.
pub open spec fn hex_digit(n: int) -> char {
    if n < 10 {
        (('0' as int) + n) as char
    } else {
        (('a' as int) + n - 10) as char
    }
}

/// The `i`-th hexadecimal digit of `v`, counting from the most significant one.
pub open spec fn nibble(v: u128, i: int) -> int {
    ((v as int) / pow(16, (31 - i) as nat)) % 16
}

/// The 32 lowercase hexadecimal digits of an identifier, most significant first.
pub open spec fn simple_hex(v: u128) -> Seq<char> {
    Seq::new(32, |i: int| hex_digit(nibble(v, i)))
}

/// The hyphenated 8-4-4-4-12 lowercase form of an identifier.
pub open spec fn hyphenated_hex(v: u128) -> Seq<char> {
    let s = simple_hex(v);
    s.subrange(0, 8) + seq!['-'] + s.subrange(8, 12) + seq!['-'] + s.subrange(12, 16) + seq!['-']
        + s.subrange(16, 20) + seq!['-'] + s.subrange(20, 32)
}

/// The last `n` hexadecimal digits of an identifier.
pub open spec fn id_suffix_spec(v: u128, n: nat) -> Seq<char> {
    simple_hex(v).subrange(32 - n, 32)
}

/// A time-ordered identifier: version 7 with the RFC 4122 variant.
pub open spec fn is_v7(id: u128) -> bool {
    &&& (id >> 76u128) & 0xfu128 == 7
    &&& (id >> 62u128) & 0x3u128 == 2
}

/// Formats an identifier with `uuid::Uuid::simple`: the 32 lowercase
/// hexadecimal digits of the big-endian value, with no separators.
#[verifier::external_body]
fn format_simple(id: u128) -> (s: String)
    ensures
        s@ == simple_hex(id),
{
    uuid::Uuid::from_u128(id).simple().to_string()
}

/// Formats an identifier with `uuid::Uuid`'s `Display`: lowercase hexadecimal
/// in groups of 8, 4, 4, 4 and 12 digits separated by hyphens.
#[verifier::external_body]
fn format_hyphenated(id: u128) -> (s: String)
    ensures
        s@ == hyphenated_hex(id),
{
    uuid::Uuid::from_u128(id).hyphenated().to_string()
}

/// Draws a fresh identifier with `uuid::Uuid::now_v7`. The value depends on the
/// clock and on random bytes, so nothing is said of it but the two fields that
/// `now_v7` always sets: the version nibble (7) and the RFC 4122 variant bits
/// (`10`).
#[verifier::external_body]
pub(crate) fn fresh_id() -> (id: u128)
    ensures
        is_v7(id),
{
    uuid::Uuid::now_v7().as_u128()
}

/// The hyphenated text of an identifier.
pub fn id_text(id: u128) -> (s: String)
    ensures
        s@ == hyphenated_hex(id),
{
    format_hyphenated(id)
}

/// The compact 32-digit text of an identifier.
pub fn id_simple_text(id: u128) -> (s: String)
    ensures
        s@ == simple_hex(id),
{
    format_simple(id)
}

/// The last `n` digits of an identifier's compact text.
pub fn id_suffix(id: u128, n: usize) -> (s: String)
    requires
        n <= 32,
    ensures
        s@ == id_suffix_spec(id, n as nat),
{
    let full = format_simple(id);
    let part = full.as_str().substring_char(32 - n, 32);
    String::from_str(part)
}

/// Whether `reference` is a prefix of the hyphenated text of `id`.
pub fn id_has_prefix(id: u128, reference: &str) -> (b: bool)
    ensures
        b == reference@.is_prefix_of(hyphenated_hex(id)),
{
    let text = format_hyphenated(id);
    let n = reference.unicode_len();
    if n > 36 {
        return false;
    }
    let mut i: usize = 0;
    while i < n
        invariant
            n == reference@.len(),
            n <= 36,
            text@ == hyphenated_hex(id),
            text@.len() == 36,
            i <= n,
            forall|j: int| 0 <= j < i ==> reference@[j] == text@[j],
        decreases n - i,
    {
        if reference.get_char(i) != text.as_str().get_char(i) {
            return false;
        }
        i = i + 1;
    }
    true
}

} // verus!
