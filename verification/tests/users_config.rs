//! Tests of user validation and the configuration enums.

use fake::Fake;
use pine_tails::config::Environment;
use pine_tails::telemetry::LoggerFormat;
use pine_tails::users::UserEmail;
use pine_tails::users::UserName;

#[test]
fn valid_emails_are_parsed_successfully() {
    let email = fake::faker::internet::en::SafeEmail().fake::<String>();
    assert!(UserEmail::try_from(email).is_ok());
}

#[test]
fn email_without_at_sign_is_rejected() {
    assert!(UserEmail::try_from("not-an-address".to_string()).is_err());
}

#[test]
fn user_names_are_validated() {
    assert!(UserName::try_from("Alice".to_string()).is_ok());
    assert!(UserName::try_from("   ".to_string()).is_err());
    assert!(UserName::try_from("a".repeat(300)).is_err());
    assert!(UserName::try_from("Alice<script>".to_string()).is_err());
}

#[test]
fn environment_names_round_trip() {
    assert_eq!(Environment::Local.as_str(), "local");
    assert_eq!(Environment::Production.as_str(), "production");
    assert!(matches!(Environment::try_from("local".to_string()), Ok(Environment::Local)));
    assert!(matches!(
        Environment::try_from("PRODUCTION".to_string()),
        Ok(Environment::Production)
    ));
    assert!(Environment::try_from("staging".to_string()).is_err());
}

#[test]
fn logger_formats_have_configuration_names() {
    assert_eq!(LoggerFormat::Compact.as_str(), "compact");
    assert_eq!(LoggerFormat::Bunyan.as_str(), "bunyan");
}
