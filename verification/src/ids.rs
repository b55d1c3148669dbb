//! Event identities: UUIDs, held as 128-bit numbers.

use vstd::prelude::*;

verus! {

/// Whether a number can be a random identity: its version digit is 4, and its
/// variant digit is 8 to b.
pub open spec fn is_random_identity(id: u128) -> bool {
    &&& (id / 0x1000_0000_0000_0000_0000) % 16 == 4
    &&& 8 <= (id / 0x1000_0000_0000_0000) % 16 <= 11
}

/// Makes a new identity with `uuid::Uuid::new_v4`, which draws it at random;
/// nothing is known of it but the version and the variant digit. Where the system has no randomness to give, the call panics.
#[verifier::external_body]
pub(crate) fn fresh_id() -> (id: u128)
    ensures
        is_random_identity(id),
{
    uuid::Uuid::new_v4().as_u128()
}

/// The character of a hexadecimal digit.
pub open spec fn hex_digit(value: int) -> char {
    if value < 10 {
        (48 + value) as char
    } else {
        (87 + value) as char
    }
}

/// The hexadecimal digits of an identity, of which `count` are left to the
/// right, without hyphens.
pub open spec fn hex_digits(id: nat, count: nat) -> Seq<char>
    decreases count,
{
    if count == 0 {
        Seq::empty()
    } else {
        hex_digits(id / 16, (count - 1) as nat).push(hex_digit((id % 16) as int))
    }
}

/// An identity as 32 small hexadecimal digits, in groups of 8, 4, 4, 4 and 12
/// with hyphens between them.
pub open spec fn hyphenated(id: u128) -> Seq<char> {
    let digits = hex_digits(id as nat, 32);
    digits.subrange(0, 8).push('-') + digits.subrange(8, 12).push('-') + digits.subrange(
        12,
        16,
    ).push('-') + digits.subrange(16, 20).push('-') + digits.subrange(20, 32)
}

/// Writes an identity out, through `uuid::Uuid`'s `Display`: lower case and
/// hyphenated.
#[verifier::external_body]
pub(crate) fn id_text(id: u128) -> (text: String)
    ensures
        text@ == hyphenated(id),
{
    uuid::Uuid::from_u128(id).to_string()
}

proof fn lemma_hex_digits(id: nat, count: nat)
    ensures
        hex_digits(id, count).len() == count,
    decreases count,
{
    if count > 0 {
        lemma_hex_digits(id / 16, (count - 1) as nat);
    }
}

/// An identity is written with 36 characters, and never blank.
pub proof fn law_written_identities_are_not_blank(id: u128)
    ensures
        hyphenated(id).len() == 36,
        !crate::text::blank(hyphenated(id)),
{
    lemma_hex_digits(id as nat, 32);
    assert(hyphenated(id)[8] == '-');
}

} // verus!
