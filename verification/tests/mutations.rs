use munje::forms::Validate;
use munje::mutations::{AuthenticateUser, RegisterUser};

fn assert_includes(errors: Vec<String>, string: &str) {
    let string = string.to_string();
    assert!(
        errors.clone().into_iter().any(|s| s == string),
        "collection does not contain string: {:?}",
        errors
    );
}

#[test]
fn register_user_invalid_if_handle_not_long_enough() {
    let mut mutation = RegisterUser::new("gn", "password1", "password1");

    assert!(!mutation.validate());
    assert!(!mutation.handle.is_valid());
    assert_includes(
        mutation.handle.errors,
        "Username must have at least three characters",
    );
}

#[test]
fn register_user_invalid_if_handle_has_whitespace() {
    let mut mutation = RegisterUser::new("gnusto frotz", "password1", "password1");

    assert!(!mutation.validate());
    assert!(!mutation.handle.is_valid());
    assert_includes(mutation.handle.errors, "Username cannot have spaces");
}

#[test]
fn register_user_invalid_if_handle_is_not_ascii() {
    let mut mutation = RegisterUser::new("ﬀrotz", "password1", "password1");

    assert!(!mutation.validate());
    assert!(!mutation.handle.is_valid());
    assert_includes(
        mutation.handle.errors,
        "Username cannot have special characters",
    );
}

#[test]
fn register_user_invalid_if_password_mismatch() {
    let mut mutation = RegisterUser::new("gnusto", "password1", "password2");

    assert!(!mutation.validate());
    assert!(!mutation.password_confirmation.is_valid());
    assert_includes(
        mutation.password_confirmation.errors,
        "Passwords do not match",
    );
}

#[test]
fn register_user_invalid_if_password_blank() {
    let mut mutation = RegisterUser::new("gnusto", "", "");

    assert!(!mutation.validate());
    assert!(!mutation.password.is_valid());
    assert_includes(mutation.password.errors, "Password cannot be empty");
}

#[test]
fn register_user_invalid_if_password_too_short() {
    let mut mutation = RegisterUser::new("gnusto", "pass1", "passs1");

    assert!(!mutation.validate());
    assert!(!mutation.password.is_valid());
    assert_includes(
        mutation.password.errors,
        "Password must have at least eight characters",
    );
}

#[test]
fn authenticate_user_invalid_if_username_blank() {
    let mut mutation = AuthenticateUser::new("", "password1");

    assert!(!mutation.validate());
    assert!(!mutation.handle.is_valid());
    assert_includes(mutation.handle.errors, "Username cannot be empty");
}

#[test]
fn authenticate_user_invalid_if_password_blank() {
    let mut mutation = AuthenticateUser::new("gnusto", "");

    assert!(!mutation.validate());
    assert!(!mutation.password.is_valid());
    assert_includes(mutation.password.errors, "Password cannot be empty");
}

#[test]
fn register_user_valid_with_good_fields() {
    let mut mutation = RegisterUser::new("gnusto", "password1", "password1");
    assert!(mutation.validate());
    assert_eq!(Some(true), mutation.is_valid);
    assert!(mutation.handle.errors.is_empty());
    assert!(mutation.password.errors.is_empty());
    assert!(mutation.password_confirmation.errors.is_empty());
}

#[test]
fn validate_is_idempotent() {
    let mut mutation = RegisterUser::new("gn", "password1", "password1");
    assert!(!mutation.validate());
    let errors_after_first = mutation.handle.errors.len();
    assert!(!mutation.validate());
    assert_eq!(errors_after_first, mutation.handle.errors.len());
}
