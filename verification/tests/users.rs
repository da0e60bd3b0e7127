use munje::mutations::{AuthenticateUser, RegisterUser};
use munje::store::Store;
use munje::users::{Password, User};

fn registered_store(handle: &str, password: &str) -> Store {
    let mut store = Store::new();
    let mut form = RegisterUser::new(handle, password, password);
    assert!(form.validate());
    User::register(&form, &mut store).unwrap();
    store
}

#[test]
fn hash_password() {
    let pass = Password("keyboard cat".to_string());
    assert_eq!(116, pass.to_hash().unwrap().len());
}

#[test]
fn verify_accepts_only_the_hashed_password() {
    let hash = Password("keyboard cat".to_string()).to_hash().unwrap();
    let stored = Password(hash);
    assert!(stored.verify("keyboard cat").unwrap());
    assert!(!stored.verify("keyboard dog").unwrap());
}

#[test]
fn guest_is_anonymous() {
    let guest = User::guest();
    assert!(guest.is_anonymous);
    assert!(!guest.is_authenticated());
}

#[test]
fn register_then_find_by_handle() {
    let store = registered_store("gnusto", "password1");
    let user = User::find_by_handle("gnusto", &store).unwrap();
    assert_eq!("gnusto", user.handle);
    assert!(!user.is_anonymous);
    assert!(User::find_by_handle("frotz", &store).is_err());
}

#[test]
fn authenticate_checks_the_password() {
    let mut store = registered_store("gnusto", "password1");

    let mut good = AuthenticateUser::new("gnusto", "password1");
    assert!(good.validate());
    assert!(good.call(&mut store).is_ok());

    let mut bad = AuthenticateUser::new("gnusto", "wrong-password");
    assert!(bad.validate());
    assert!(matches!(
        bad.call(&mut store),
        Err(munje::error::Error::InvalidPassword)
    ));

    let mut unknown = AuthenticateUser::new("frotz", "password1");
    assert!(unknown.validate());
    assert!(matches!(
        unknown.call(&mut store),
        Err(munje::error::Error::NotFound)
    ));
}

#[test]
fn register_call_is_idempotent_per_handle() {
    let mut store = Store::new();
    let mut form = RegisterUser::new("gnusto", "password1", "password1");
    assert!(form.validate());

    let first = form.call(&mut store).unwrap();
    assert!(first.created);
    let second = form.call(&mut store).unwrap();
    assert!(!second.created);
    assert_eq!(first.record.id, second.record.id);
    assert_eq!(1, store.users.len());
}

#[test]
fn authenticate_stamps_last_login() {
    let mut store = registered_store("gnusto", "password1");
    let before = User::find_by_handle("gnusto", &store).unwrap();

    let mut form = AuthenticateUser::new("gnusto", "password1");
    assert!(form.validate());
    form.call(&mut store).unwrap();

    let after = User::find_by_handle("gnusto", &store).unwrap();
    assert_eq!(before.id, after.id);
    assert!(after.last_login.is_some());
}
