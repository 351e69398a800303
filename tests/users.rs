use highlights::payload::error_report_text;
use highlights::users::{user_id_from_word, user_ids_from_args};

#[test]
fn bare_user_id() {
    assert_eq!(user_id_from_word("1234567890123456"), Some(1234567890123456));
    assert_eq!(user_id_from_word("123456789012345"), None);
}

#[test]
fn user_mentions() {
    assert_eq!(user_id_from_word("<@1234567890123456>"), Some(1234567890123456));
    assert_eq!(user_id_from_word("<@!1234567890123456>"), Some(1234567890123456));
    assert_eq!(user_id_from_word("<@!1234567890123456"), Some(1234567890123456));
    assert_eq!(user_id_from_word("<@!!123456789012345>"), None);
    assert_eq!(user_id_from_word("<@!123456789012345>"), None);
}

#[test]
fn id_found_anywhere_in_the_word() {
    assert_eq!(user_id_from_word("hey1234567890123456x"), Some(1234567890123456));
    assert_eq!(user_id_from_word("x<@!1234567890123456>,"), Some(1234567890123456));
}

#[test]
fn long_digit_runs_take_twenty_digits() {
    assert_eq!(user_id_from_word("123456789012345678901234"), Some(12345678901234567890));
    assert_eq!(user_id_from_word("999999999999999999999"), None);
    assert_eq!(user_id_from_word("11111111111111111111"), Some(11111111111111111111));
    assert_eq!(user_id_from_word("<@123456789012345678901>"), Some(12345678901234567890));
    assert_eq!(user_id_from_word("<@1111111111111111111122>"), Some(11111111111111111111));
}

#[test]
fn user_ids_from_each_argument() {
    let r = user_ids_from_args("<@1234567890123456> bob 9999999999999999");
    assert_eq!(
        r,
        vec![Ok(1234567890123456), Err("bob".to_string()), Ok(9999999999999999)]
    );
}

#[test]
fn error_report_names_channel_and_user() {
    assert_eq!(error_report_text(12, 34, "boom"), "Error in 12 by 34: boom");
}
