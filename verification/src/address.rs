//! Reading the identity of an account from the text of a wallet address.

use vstd::prelude::*;
use vstd::string::StringSliceAdditionalSpecFns;

use crate::identity::AccountOwner;

verus! {

/// What is left of a text once the white space at both of its ends is taken
/// away.
pub uninterp spec fn trimmed(text: Seq<char>) -> Seq<char>;

/// `str::trim`: the text without leading and trailing white space. Which
/// characters are white space is left to the standard library; the result is
/// a function of the text alone, and is the one that `trimmed` names.
#[verifier::external_body]
fn trim(text: &str) -> (r: &str)
    ensures
        r@ == trimmed(text@),
{
    text.trim()
}

/// What is left of a text once every leading repetition of `prefix` is taken
/// away.
pub open spec fn without_leading(text: Seq<char>, prefix: Seq<char>) -> Seq<char>
    decreases text.len(),
{
    if prefix.len() > 0 && prefix.is_prefix_of(text) {
        without_leading(text.skip(prefix.len() as int), prefix)
    } else {
        text
    }
}

/// `str::trim_start_matches` with a text as the pattern: the prefix is taken
/// away from the start of the text as often as it stands there. Nothing is
/// claimed for an empty pattern.
#[verifier::external_body]
fn trim_start_matches<'a>(text: &'a str, prefix: &str) -> (r: &'a str)
    requires
        prefix@.len() > 0,
    ensures
        r@ == without_leading(text@, prefix@),
{
    text.trim_start_matches(prefix)
}

/// The value of a hexadecimal digit in either case, if the byte is one.
pub open spec fn hex_digit(c: u8) -> Option<u8> {
    if 0x30 <= c <= 0x39 {
        Some((c - 0x30) as u8)
    } else if 0x61 <= c <= 0x66 {
        Some((c - 0x61 + 10) as u8)
    } else if 0x41 <= c <= 0x46 {
        Some((c - 0x41 + 10) as u8)
    } else {
        None
    }
}

/// Whether the bytes are the 40 hexadecimal digits of a 20-byte address.
pub open spec fn is_hex_address(digits: Seq<u8>) -> bool {
    &&& digits.len() == 40
    &&& forall|i: int| 0 <= i < 40 ==> hex_digit(#[trigger] digits[i]) is Some
}

/// The byte at position `i` of the address that the digits spell: two digits
/// to a byte, the first of them the upper half.
pub open spec fn hex_byte(digits: Seq<u8>, i: int) -> u8 {
    (hex_digit(digits[2 * i]).unwrap() * 16 + hex_digit(digits[2 * i + 1]).unwrap()) as u8
}

/// `hex::decode_to_slice` into 20 bytes: succeeds exactly on 40 hexadecimal
/// digits, upper or lower case, and then gives the bytes they spell, two
/// digits to a byte. Any other text gives `None`.
#[verifier::external_body]
fn decode_address(digits: &str) -> (r: Option<[u8; 20]>)
    ensures
        r is Some <==> is_hex_address(digits.spec_bytes()),
        r matches Some(bytes) ==> forall|i: int|
            0 <= i < 20 ==> #[trigger] bytes@[i] == hex_byte(digits.spec_bytes(), i),
{
    let mut bytes = [0u8; 20];
    match hex::decode_to_slice(digits, &mut bytes) {
        Ok(()) => Some(bytes),
        Err(_) => None,
    }
}

/// The text of an address with its prefixes taken away: every leading
/// `User:`, then every leading `0x`.
pub open spec fn address_digits(clean: Seq<char>) -> Seq<char> {
    without_leading(without_leading(clean, "User:"@), "0x"@)
}

/// Whether `owner` is the 20-byte address that the digits spell.
pub open spec fn spells(digits: Seq<u8>, owner: AccountOwner) -> bool {
    owner matches AccountOwner::Address20(bytes) && forall|i: int|
        0 <= i < 20 ==> #[trigger] bytes@[i] == hex_byte(digits, i)
}

/// Reads a 20-byte address from a text that has no white space around it.
///
/// Every leading `User:` and then every leading `0x` is taken away. If 40
/// hexadecimal digits are left, the result is the address they spell;
/// otherwise there is none.
pub fn parse_trimmed_address(clean: &str) -> (r: Option<AccountOwner>)
    ensures
        r is Some <==> is_hex_address(vstd::utf8::encode_utf8(address_digits(clean@))),
        r matches Some(owner) ==> spells(
            vstd::utf8::encode_utf8(address_digits(clean@)),
            owner,
        ),
{
    proof {
        reveal_strlit("User:");
        reveal_strlit("0x");
    }
    let unprefixed = trim_start_matches(clean, "User:");
    let digits = trim_start_matches(unprefixed, "0x");
    if digits.as_bytes().len() == 40 {
        match decode_address(digits) {
            Some(bytes) => Some(AccountOwner::Address20(bytes)),
            None => None,
        }
    } else {
        None
    }
}

/// Reads a 20-byte address from the text of a wallet address.
///
/// White space around the text is ignored, as are a leading `User:` and a
/// leading `0x`. If 40 hexadecimal digits are left, the result is the address
/// they spell; otherwise there is none.
pub fn parse_account_owner(wallet: &str) -> (r: Option<AccountOwner>)
    ensures
        r is Some <==> is_hex_address(
            vstd::utf8::encode_utf8(address_digits(trimmed(wallet@))),
        ),
        r matches Some(owner) ==> spells(
            vstd::utf8::encode_utf8(address_digits(trimmed(wallet@))),
            owner,
        ),
{
    parse_trimmed_address(trim(wallet))
}

} // verus!
