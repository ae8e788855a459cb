use arcade_hub::{parse_account_owner, parse_trimmed_address, AccountOwner};

fn sample_bytes() -> [u8; 20] {
    [
        0x00, 0x11, 0x22, 0x33, 0x44, 0x55, 0x66, 0x77, 0x88, 0x99, 0xaa, 0xbb, 0xcc, 0xdd, 0xee,
        0xff, 0x01, 0x23, 0x45, 0x67,
    ]
}

#[test]
fn reads_forty_hex_digits() {
    assert_eq!(
        parse_account_owner("00112233445566778899aabbccddeeff01234567"),
        Some(AccountOwner::Address20(sample_bytes()))
    );
}

#[test]
fn reads_digits_of_either_case() {
    assert_eq!(
        parse_account_owner("00112233445566778899AABBCCDDEEFF01234567"),
        Some(AccountOwner::Address20(sample_bytes()))
    );
    assert_eq!(
        parse_account_owner("00112233445566778899aAbBcCdDeEfF01234567"),
        Some(AccountOwner::Address20(sample_bytes()))
    );
}

#[test]
fn ignores_the_hex_prefix() {
    assert_eq!(
        parse_account_owner("0x00112233445566778899aabbccddeeff01234567"),
        Some(AccountOwner::Address20(sample_bytes()))
    );
    assert_eq!(
        parse_trimmed_address("0x0x00112233445566778899aabbccddeeff01234567"),
        Some(AccountOwner::Address20(sample_bytes()))
    );
}

#[test]
fn ignores_the_user_prefix() {
    assert_eq!(
        parse_account_owner("User:00112233445566778899aabbccddeeff01234567"),
        Some(AccountOwner::Address20(sample_bytes()))
    );
    assert_eq!(
        parse_account_owner("User:0x00112233445566778899aabbccddeeff01234567"),
        Some(AccountOwner::Address20(sample_bytes()))
    );
    assert_eq!(
        parse_trimmed_address("User:User:0x00112233445566778899aabbccddeeff01234567"),
        Some(AccountOwner::Address20(sample_bytes()))
    );
}

#[test]
fn ignores_white_space_around_the_text() {
    assert_eq!(
        parse_account_owner("  \t0x00112233445566778899aabbccddeeff01234567\n"),
        Some(AccountOwner::Address20(sample_bytes()))
    );
}

#[test]
fn white_space_is_not_taken_away_after_trimming() {
    assert_eq!(
        parse_trimmed_address(" 00112233445566778899aabbccddeeff01234567"),
        None
    );
    assert_eq!(
        parse_account_owner("User: 00112233445566778899aabbccddeeff01234567"),
        None
    );
}

#[test]
fn the_prefixes_are_taken_in_their_order_only() {
    assert_eq!(
        parse_account_owner("0xUser:00112233445566778899aabbccddeeff01234567"),
        None
    );
}

#[test]
fn rejects_texts_that_are_no_address() {
    assert_eq!(parse_account_owner(""), None);
    assert_eq!(parse_account_owner("0x"), None);
    assert_eq!(parse_account_owner("00112233445566778899aabbccddeeff0123456"), None);
    assert_eq!(parse_account_owner("00112233445566778899aabbccddeeff012345678"), None);
    assert_eq!(parse_account_owner("0011223344556677889gaabbccddeeff01234567"), None);
    assert_eq!(parse_account_owner("00112233445566778899aabbccddeeff0123456 "), None);
    // Forty bytes, but not forty digits.
    assert_eq!(
        parse_account_owner("\u{e9}\u{e9}\u{e9}\u{e9}\u{e9}\u{e9}\u{e9}\u{e9}\u{e9}\u{e9}\u{e9}\u{e9}\u{e9}\u{e9}\u{e9}\u{e9}\u{e9}\u{e9}\u{e9}\u{e9}"),
        None
    );
}

#[test]
fn the_first_digit_of_a_pair_is_the_upper_half() {
    let mut expected = [0u8; 20];
    expected[0] = 0x1f;
    expected[19] = 0xf1;
    assert_eq!(
        parse_account_owner("1f000000000000000000000000000000000000f1"),
        Some(AccountOwner::Address20(expected))
    );
}
