//! Request types of the service and their validation rules.
//!
//! Each `validate` method reports the first rule its data violates, fields
//! in declaration order, and succeeds exactly when every rule holds. Rule
//! lengths count characters, not bytes. Only the e-mail well-formedness
//! check itself is delegated to the validator library.

use vstd::prelude::*;
use vstd::string::StrSliceExecFns;

verus! {

/// The first validation rule a request violates.
#[derive(Clone, Copy, Debug, PartialEq, Eq, Structural)]
pub enum ValidationIssue {
    UsernameTooShort,
    UsernameBadCharacter,
    EmailMissing,
    EmailInvalid,
    PasswordMissing,
    PasswordTooShort,
    PasswordConfirmMissing,
    PasswordMismatch,
    IdentifierNotAnEmail,
    IdentifierTooShort,
    OldPasswordMissing,
    OldPasswordTooShort,
    NameMissing,
    PageOutOfRange,
    LimitOutOfRange,
}

/// Whether `s` is a well-formed e-mail address, as the validator library's
/// check defines it.
pub uninterp spec fn email_ok(s: Seq<char>) -> bool;

/// Relies on validator::validate_email: a user@domain well-formedness
/// check that reads only the string, so its result is a function of the
/// characters alone; its source returns false outright for an empty string.
#[verifier::external_body]
fn check_email(s: &str) -> (r: bool)
    ensures
        r == email_ok(s@),
        s@.len() == 0 ==> r == false,
{
    validator::validate_email(s)
}

/// A character the username rule accepts: a letter, a digit, or `_`.
pub open spec fn username_char_ok(c: char) -> bool {
    ('a' <= c && c <= 'z') || ('A' <= c && c <= 'Z') || ('0' <= c && c <= '9') || c == '_'
}

/// Every character of `s` is acceptable in a username.
pub open spec fn username_chars_ok(s: Seq<char>) -> bool {
    forall|i: int| 0 <= i < s.len() ==> username_char_ok(#[trigger] s[i])
}

/// Check `name` against the username rule: non-empty, every character a
/// letter, a digit, or `_`.
pub fn validate_username(name: &str) -> (r: bool)
    ensures
        r == (name@.len() >= 1 && username_chars_ok(name@)),
{
    let n = name.unicode_len();
    if n == 0 {
        return false;
    }
    for i in 0..n
        invariant
            n == name@.len(),
            forall|j: int| 0 <= j < i ==> username_char_ok(#[trigger] name@[j]),
    {
        let c = name.get_char(i);
        let ok = ('a' <= c && c <= 'z') || ('A' <= c && c <= 'Z') || ('0' <= c && c <= '9') || c
            == '_';
        if !ok {
            return false;
        }
    }
    true
}

/// Whether `s` holds an `@` anywhere.
fn contains_at_sign(s: &str) -> (r: bool)
    ensures
        r == s@.contains('@'),
{
    let n = s.unicode_len();
    for i in 0..n
        invariant
            n == s@.len(),
            forall|j: int| 0 <= j < i ==> s@[j] != '@',
    {
        if s.get_char(i) == '@' {
            assert(s@.contains('@'));
            return true;
        }
    }
    proof {
        if s@.contains('@') {
            let j = choose|j: int| 0 <= j < s@.len() && s@[j] == '@';
            assert(s@[j] != '@');
        }
    }
    false
}

/// A registration request.
#[derive(Clone, Debug)]
pub struct RegisterUserDto {
    pub username: String,
    pub email: String,
    pub password: String,
    pub password_confirm: String,
}

impl RegisterUserDto {
    /// The registration rules: a username of at least three acceptable
    /// characters, a present and well-formed e-mail, a password of at
    /// least six characters, and a matching confirmation.
    pub fn validate(&self) -> (r: Result<(), ValidationIssue>)
        ensures
            self.username@.len() < 3 <==> r == Err::<(), ValidationIssue>(
                ValidationIssue::UsernameTooShort,
            ),
            (self.username@.len() >= 3 && !username_chars_ok(self.username@)) <==> r == Err::<
                (),
                ValidationIssue,
            >(ValidationIssue::UsernameBadCharacter),
            (self.username@.len() >= 3 && username_chars_ok(self.username@) && self.email@.len()
                == 0) <==> r == Err::<(), ValidationIssue>(ValidationIssue::EmailMissing),
            (self.username@.len() >= 3 && username_chars_ok(self.username@) && self.email@.len()
                > 0 && !email_ok(self.email@)) <==> r == Err::<(), ValidationIssue>(
                ValidationIssue::EmailInvalid,
            ),
            r == Ok::<(), ValidationIssue>(()) <==> {
                &&& self.username@.len() >= 3
                &&& username_chars_ok(self.username@)
                &&& self.email@.len() > 0
                &&& email_ok(self.email@)
                &&& self.password@.len() >= 6
                &&& self.password_confirm@.len() > 0
                &&& self.password_confirm@ == self.password@
            },
    {
        if self.username.as_str().unicode_len() < 3 {
            return Err(ValidationIssue::UsernameTooShort);
        }
        if !validate_username(self.username.as_str()) {
            return Err(ValidationIssue::UsernameBadCharacter);
        }
        if self.email.as_str().unicode_len() == 0 {
            return Err(ValidationIssue::EmailMissing);
        }
        if !check_email(self.email.as_str()) {
            return Err(ValidationIssue::EmailInvalid);
        }
        if self.password.as_str().unicode_len() == 0 {
            return Err(ValidationIssue::PasswordMissing);
        }
        if self.password.as_str().unicode_len() < 6 {
            return Err(ValidationIssue::PasswordTooShort);
        }
        if self.password_confirm.as_str().unicode_len() == 0 {
            return Err(ValidationIssue::PasswordConfirmMissing);
        }
        if !(self.password_confirm == self.password) {
            return Err(ValidationIssue::PasswordMismatch);
        }
        Ok(())
    }
}

/// A login request: an e-mail or username, and a password.
#[derive(Clone, Debug)]
pub struct LoginUserDto {
    pub identifier: String,
    pub password: String,
}

impl LoginUserDto {
    /// The login rules: an identifier holding `@` must be a well-formed
    /// e-mail, one without must have at least three characters; the
    /// password at least six.
    pub fn validate(&self) -> (r: Result<(), ValidationIssue>)
        ensures
            (self.identifier@.contains('@') && !email_ok(self.identifier@)) <==> r == Err::<
                (),
                ValidationIssue,
            >(ValidationIssue::IdentifierNotAnEmail),
            (!self.identifier@.contains('@') && self.identifier@.len() < 3) <==> r == Err::<
                (),
                ValidationIssue,
            >(ValidationIssue::IdentifierTooShort),
            r == Ok::<(), ValidationIssue>(()) <==> {
                &&& (self.identifier@.contains('@') ==> email_ok(self.identifier@))
                &&& (!self.identifier@.contains('@') ==> self.identifier@.len() >= 3)
                &&& self.password@.len() >= 6
            },
    {
        if contains_at_sign(self.identifier.as_str()) {
            if !check_email(self.identifier.as_str()) {
                return Err(ValidationIssue::IdentifierNotAnEmail);
            }
        } else {
            if self.identifier.as_str().unicode_len() < 3 {
                return Err(ValidationIssue::IdentifierTooShort);
            }
        }
        if self.password.as_str().unicode_len() == 0 {
            return Err(ValidationIssue::PasswordMissing);
        }
        if self.password.as_str().unicode_len() < 6 {
            return Err(ValidationIssue::PasswordTooShort);
        }
        Ok(())
    }
}

/// Paging parameters of a listing request.
#[derive(Clone, Copy, Debug)]
pub struct RequestQueryDto {
    pub page: Option<usize>,
    pub limit: Option<usize>,
}

impl RequestQueryDto {
    /// The paging rules: a given page is at least 1; a given limit lies
    /// in 1..=50.
    pub fn validate(&self) -> (r: Result<(), ValidationIssue>)
        ensures
            r == Ok::<(), ValidationIssue>(()) <==> {
                &&& (self.page is Some ==> self.page->0 >= 1)
                &&& (self.limit is Some ==> 1 <= self.limit->0 <= 50)
            },
            (self.page is Some && self.page->0 < 1) <==> r == Err::<(), ValidationIssue>(
                ValidationIssue::PageOutOfRange,
            ),
    {
        if let Some(p) = self.page {
            if p < 1 {
                return Err(ValidationIssue::PageOutOfRange);
            }
        }
        if let Some(l) = self.limit {
            if l < 1 || l > 50 {
                return Err(ValidationIssue::LimitOutOfRange);
            }
        }
        Ok(())
    }
}

/// A response envelope for operations that return only a message.
pub struct Response {
    pub status: &'static str,
    pub message: String,
}

/// A display-name update request.
#[derive(Clone, Debug)]
pub struct NameUpdateDto {
    pub name: String,
}

impl NameUpdateDto {
    /// The rule: a name is required.
    pub fn validate(&self) -> (r: Result<(), ValidationIssue>)
        ensures
            r == Ok::<(), ValidationIssue>(()) <==> self.name@.len() >= 1,
            r == Err::<(), ValidationIssue>(ValidationIssue::NameMissing) <==> self.name@.len()
                == 0,
    {
        if self.name.as_str().unicode_len() == 0 {
            return Err(ValidationIssue::NameMissing);
        }
        Ok(())
    }
}

/// A password-change request.
#[derive(Clone, Debug)]
pub struct UserPasswordUpdateDto {
    pub new_password: String,
    pub new_password_confirm: String,
    pub old_password: String,
}

impl UserPasswordUpdateDto {
    /// The password-change rules: new password and confirmation of at
    /// least six characters and equal, old password of at least six.
    pub fn validate(&self) -> (r: Result<(), ValidationIssue>)
        ensures
            r == Ok::<(), ValidationIssue>(()) <==> {
                &&& self.new_password@.len() >= 6
                &&& self.new_password_confirm@.len() >= 6
                &&& self.new_password_confirm@ == self.new_password@
                &&& self.old_password@.len() >= 6
            },
            self.new_password@.len() == 0 <==> r == Err::<(), ValidationIssue>(
                ValidationIssue::PasswordMissing,
            ),
    {
        if self.new_password.as_str().unicode_len() == 0 {
            return Err(ValidationIssue::PasswordMissing);
        }
        if self.new_password.as_str().unicode_len() < 6 {
            return Err(ValidationIssue::PasswordTooShort);
        }
        if self.new_password_confirm.as_str().unicode_len() == 0 {
            return Err(ValidationIssue::PasswordConfirmMissing);
        }
        if self.new_password_confirm.as_str().unicode_len() < 6 {
            return Err(ValidationIssue::PasswordTooShort);
        }
        if !(self.new_password_confirm == self.new_password) {
            return Err(ValidationIssue::PasswordMismatch);
        }
        if self.old_password.as_str().unicode_len() == 0 {
            return Err(ValidationIssue::OldPasswordMissing);
        }
        if self.old_password.as_str().unicode_len() < 6 {
            return Err(ValidationIssue::OldPasswordTooShort);
        }
        Ok(())
    }
}

/// A time interval in calendar parts, as the track store records play
/// durations.
#[derive(Clone, Copy, Debug, PartialEq, Eq, Structural)]
pub struct Duration {
    pub months: i32,
    pub days: i32,
    pub microseconds: i64,
}

impl Duration {
    /// The interval of a whole number of seconds, as a finalized track's
    /// probed duration is stored.
    pub fn from_seconds(seconds: i64) -> (r: Duration)
        requires
            0 <= seconds <= i64::MAX / 1_000_000,
        ensures
            r.months == 0,
            r.days == 0,
            r.microseconds == seconds * 1_000_000,
    {
        Duration { months: 0, days: 0, microseconds: seconds * 1_000_000 }
    }
}

impl Default for Duration {
    /// The zero interval.
    fn default() -> (r: Self)
        ensures
            r.months == 0,
            r.days == 0,
            r.microseconds == 0,
    {
        Duration { months: 0, days: 0, microseconds: 0 }
    }
}

} // verus!
