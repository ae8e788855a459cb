use arcade_hub::{validate_username, ArcadeError, ArcadeResponse};

#[test]
fn accepts_names_of_three_to_twenty_bytes() {
    assert_eq!(validate_username("abc"), Ok(()));
    assert_eq!(validate_username("abcdefghijklmnopqrst"), Ok(()));
    assert_eq!(validate_username("Player_One-2"), Ok(()));
    assert_eq!(validate_username("___"), Ok(()));
    assert_eq!(validate_username("---"), Ok(()));
    assert_eq!(validate_username("007"), Ok(()));
}

#[test]
fn rejects_names_of_the_wrong_length() {
    assert_eq!(validate_username(""), Err(ArcadeError::InvalidUsernameLength));
    assert_eq!(validate_username("ab"), Err(ArcadeError::InvalidUsernameLength));
    assert_eq!(
        validate_username("abcdefghijklmnopqrstu"),
        Err(ArcadeError::InvalidUsernameLength)
    );
}

#[test]
fn rejects_names_with_other_characters() {
    assert_eq!(validate_username("abc def"), Err(ArcadeError::InvalidUsernameCharacters));
    assert_eq!(validate_username("abc!"), Err(ArcadeError::InvalidUsernameCharacters));
    assert_eq!(validate_username("a.b"), Err(ArcadeError::InvalidUsernameCharacters));
    assert_eq!(validate_username("abc\n"), Err(ArcadeError::InvalidUsernameCharacters));
    assert_eq!(validate_username("abcdefghijklmnopqrs@"), Err(ArcadeError::InvalidUsernameCharacters));
}

#[test]
fn length_is_checked_before_characters() {
    assert_eq!(validate_username("!!"), Err(ArcadeError::InvalidUsernameLength));
    assert_eq!(
        validate_username("this name is much too long!"),
        Err(ArcadeError::InvalidUsernameLength)
    );
    assert_eq!(validate_username("a b"), Err(ArcadeError::InvalidUsernameCharacters));
}

#[test]
fn length_is_counted_in_bytes() {
    // Two bytes in one character.
    assert_eq!(validate_username("\u{e9}"), Err(ArcadeError::InvalidUsernameLength));
    // Two characters of three bytes each.
    assert_eq!(validate_username("\u{65e5}\u{672c}"), Ok(()));
    // Seven characters of three bytes each: 21 bytes.
    assert_eq!(
        validate_username("\u{65e5}\u{65e5}\u{65e5}\u{65e5}\u{65e5}\u{65e5}\u{65e5}"),
        Err(ArcadeError::InvalidUsernameLength)
    );
}

#[test]
fn letters_and_numbers_of_any_script_are_allowed() {
    assert_eq!(validate_username("h\u{e9}llo"), Ok(()));
    assert_eq!(validate_username("\u{65e5}\u{672c}\u{8a9e}"), Ok(()));
    assert_eq!(validate_username("\u{663}\u{663}"), Ok(()));
    assert_eq!(
        validate_username("ab\u{1f600}"),
        Err(ArcadeError::InvalidUsernameCharacters)
    );
}

#[test]
fn every_error_has_its_message() {
    assert_eq!(
        ArcadeError::PlayerAlreadyRegistered.message(),
        "Player is already registered"
    );
    assert_eq!(ArcadeError::PlayerNotRegistered.message(), "Player is not registered");
    assert_eq!(
        ArcadeError::InvalidUsernameLength.message(),
        "Username must be between 3 and 20 characters"
    );
    assert_eq!(
        ArcadeError::InvalidUsernameCharacters.message(),
        "Username contains invalid characters"
    );
    assert_eq!(
        ArcadeError::NotAuthenticated.message(),
        "Operation requires authentication"
    );
    assert_eq!(
        ArcadeError::Internal(String::from("disk on fire")).message(),
        "Internal error: disk on fire"
    );
}

#[test]
fn an_error_becomes_an_error_response() {
    assert_eq!(
        ArcadeError::PlayerNotRegistered.into_response(),
        ArcadeResponse::Error(String::from("Player is not registered"))
    );
    assert_eq!(
        ArcadeError::Internal(String::from("x")).into_response(),
        ArcadeResponse::Error(String::from("Internal error: x"))
    );
}

#[test]
fn a_cloned_error_is_the_same_error() {
    let e = ArcadeError::Internal(String::from("why"));
    assert_eq!(e.clone(), e);
    assert_eq!(ArcadeError::NotAuthenticated.clone(), ArcadeError::NotAuthenticated);
}
