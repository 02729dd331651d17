//! Tests of the request types' validation rules and the duration record.

use upload_engine::dtos::Duration;
use upload_engine::dtos::LoginUserDto;
use upload_engine::dtos::NameUpdateDto;
use upload_engine::dtos::RegisterUserDto;
use upload_engine::dtos::RequestQueryDto;
use upload_engine::dtos::Response;
use upload_engine::dtos::UserPasswordUpdateDto;
use upload_engine::dtos::ValidationIssue;
use upload_engine::dtos::validate_username;

fn register(username: &str, email: &str, password: &str, confirm: &str) -> RegisterUserDto {
    RegisterUserDto {
        username: String::from(username),
        email: String::from(email),
        password: String::from(password),
        password_confirm: String::from(confirm),
    }
}

#[test]
fn registration_accepts_well_formed_requests() {
    let dto = register("alice_01", "alice@example.com", "secret1", "secret1");
    assert_eq!(dto.validate(), Ok(()));
}

#[test]
fn registration_rejects_short_username() {
    let dto = register("al", "alice@example.com", "secret1", "secret1");
    assert_eq!(dto.validate(), Err(ValidationIssue::UsernameTooShort));
}

#[test]
fn registration_rejects_bad_username_character() {
    let dto = register("al!ce", "alice@example.com", "secret1", "secret1");
    assert_eq!(dto.validate(), Err(ValidationIssue::UsernameBadCharacter));
}

#[test]
fn registration_rejects_missing_and_invalid_email() {
    let dto = register("alice", "", "secret1", "secret1");
    assert_eq!(dto.validate(), Err(ValidationIssue::EmailMissing));
    let dto = register("alice", "not-an-email", "secret1", "secret1");
    assert_eq!(dto.validate(), Err(ValidationIssue::EmailInvalid));
}

#[test]
fn registration_rejects_short_or_mismatched_password() {
    let dto = register("alice", "alice@example.com", "abc", "abc");
    assert_eq!(dto.validate(), Err(ValidationIssue::PasswordTooShort));
    let dto = register("alice", "alice@example.com", "secret1", "secret2");
    assert_eq!(dto.validate(), Err(ValidationIssue::PasswordMismatch));
    let dto = register("alice", "alice@example.com", "secret1", "");
    assert_eq!(dto.validate(), Err(ValidationIssue::PasswordConfirmMissing));
}

#[test]
fn username_rule_accepts_letters_digits_underscore() {
    assert!(validate_username("user_123"));
    assert!(!validate_username(""));
    assert!(!validate_username("user-123"));
    assert!(!validate_username("user name"));
}

#[test]
fn login_accepts_email_or_username_identifier() {
    let dto = LoginUserDto {
        identifier: String::from("alice@example.com"),
        password: String::from("secret1"),
    };
    assert_eq!(dto.validate(), Ok(()));
    let dto = LoginUserDto {
        identifier: String::from("alice"),
        password: String::from("secret1"),
    };
    assert_eq!(dto.validate(), Ok(()));
}

#[test]
fn login_rejects_malformed_identifier() {
    let dto = LoginUserDto {
        identifier: String::from("not@@ok"),
        password: String::from("secret1"),
    };
    assert_eq!(dto.validate(), Err(ValidationIssue::IdentifierNotAnEmail));
    let dto = LoginUserDto {
        identifier: String::from("al"),
        password: String::from("secret1"),
    };
    assert_eq!(dto.validate(), Err(ValidationIssue::IdentifierTooShort));
}

#[test]
fn login_rejects_short_password() {
    let dto = LoginUserDto {
        identifier: String::from("alice"),
        password: String::from("12345"),
    };
    assert_eq!(dto.validate(), Err(ValidationIssue::PasswordTooShort));
}

#[test]
fn paging_bounds_are_enforced() {
    let q = RequestQueryDto { page: Some(1), limit: Some(50) };
    assert_eq!(q.validate(), Ok(()));
    let q = RequestQueryDto { page: None, limit: None };
    assert_eq!(q.validate(), Ok(()));
    let q = RequestQueryDto { page: Some(0), limit: Some(10) };
    assert_eq!(q.validate(), Err(ValidationIssue::PageOutOfRange));
    let q = RequestQueryDto { page: Some(1), limit: Some(51) };
    assert_eq!(q.validate(), Err(ValidationIssue::LimitOutOfRange));
}

#[test]
fn name_update_requires_a_name() {
    let dto = NameUpdateDto { name: String::from("New Name") };
    assert_eq!(dto.validate(), Ok(()));
    let dto = NameUpdateDto { name: String::new() };
    assert_eq!(dto.validate(), Err(ValidationIssue::NameMissing));
}

#[test]
fn password_update_checks_all_three_fields() {
    let ok = UserPasswordUpdateDto {
        new_password: String::from("newpass"),
        new_password_confirm: String::from("newpass"),
        old_password: String::from("oldpass"),
    };
    assert_eq!(ok.validate(), Ok(()));
    let mismatch = UserPasswordUpdateDto {
        new_password: String::from("newpass"),
        new_password_confirm: String::from("newpas2"),
        old_password: String::from("oldpass"),
    };
    assert_eq!(mismatch.validate(), Err(ValidationIssue::PasswordMismatch));
    let short_old = UserPasswordUpdateDto {
        new_password: String::from("newpass"),
        new_password_confirm: String::from("newpass"),
        old_password: String::from("old"),
    };
    assert_eq!(short_old.validate(), Err(ValidationIssue::OldPasswordTooShort));
    let missing_new = UserPasswordUpdateDto {
        new_password: String::new(),
        new_password_confirm: String::from("newpass"),
        old_password: String::from("oldpass"),
    };
    assert_eq!(missing_new.validate(), Err(ValidationIssue::PasswordMissing));
}

#[test]
fn duration_default_is_zero_and_seconds_convert() {
    let d = Duration::default();
    assert_eq!(d.months, 0);
    assert_eq!(d.days, 0);
    assert_eq!(d.microseconds, 0);
    let d = Duration::from_seconds(3);
    assert_eq!(d.microseconds, 3_000_000);
    assert_eq!(d.months, 0);
}

#[test]
fn response_envelope_carries_status_and_message() {
    let r = Response { status: "success", message: String::from("Thumbnail updated") };
    assert_eq!(r.status, "success");
    assert_eq!(r.message, "Thumbnail updated");
}
