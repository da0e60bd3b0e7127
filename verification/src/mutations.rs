//! User-facing mutations: registration, sign-in, sign-out, and answering a
//! question from a form.  The validation rules live here; the surrounding
//! application performs the session plumbing.

use vstd::prelude::*;
use vstd::string::StringSliceAdditionalSpecFns;
use vstd::utf8::encode_utf8;
use vstd::utf8::is_ascii_chars;

use crate::choosers::Clock;
use crate::error::Error;
use crate::forms::{PasswordField, TextField};
use crate::models::UpsertResult;
use crate::queues::Queue;
use crate::store::Store;
use crate::users::User;

verus! {

/// An ASCII whitespace byte: space, tab, line feed, vertical tab, form feed,
/// or carriage return.
pub open spec fn ascii_ws_byte(b: u8) -> bool {
    b == 32 || (9 <= b && b <= 13)
}

/// Whether any byte of the sequence is ASCII whitespace.
pub open spec fn has_ascii_ws(bytes: Seq<u8>) -> bool {
    exists|i: int| 0 <= i < bytes.len() && ascii_ws_byte(#[trigger] bytes[i])
}

/// `post` is `pre` with the texts of `added` appended, in order.
pub open spec fn errors_extended(pre: Seq<String>, post: Seq<String>, added: Seq<Seq<char>>) -> bool {
    &&& post.len() == pre.len() + added.len()
    &&& forall|i: int| 0 <= i < pre.len() ==> #[trigger] post[i] == pre[i]
    &&& forall|k: int| 0 <= k < added.len() ==> (#[trigger] post[pre.len() + k])@ == added[k]
}

/// Whether the string contains an ASCII whitespace character.
fn contains_ascii_ws(s: &str) -> (r: bool)
    ensures
        r == has_ascii_ws(s.spec_bytes()),
{
    let bytes = s.as_bytes();
    let mut i: usize = 0;
    while i < bytes.len()
        invariant
            i <= bytes@.len(),
            bytes@ == s.spec_bytes(),
            forall|j: int| 0 <= j < i ==> !ascii_ws_byte(#[trigger] bytes@[j]),
        decreases bytes@.len() - i,
    {
        let b = bytes[i];
        if b == 32 || (9 <= b && b <= 13) {
            return true;
        }
        i = i + 1;
    }
    false
}

/// A registration form: desired handle, password, and its confirmation.
#[derive(Debug, Default)]
pub struct RegisterUser {
    pub handle: TextField,
    pub password: PasswordField,
    pub password_confirmation: PasswordField,
    pub is_valid: Option<bool>,
}

impl RegisterUser {
    /// The handle's UTF-8 bytes.
    pub open spec fn handle_bytes(self) -> Seq<u8> {
        encode_utf8(self.handle.value@)
    }

    /// The handle must have at least three characters.
    pub open spec fn handle_too_short(self) -> bool {
        self.handle_bytes().len() < 3
    }

    /// The handle cannot have spaces.
    pub open spec fn handle_has_space(self) -> bool {
        has_ascii_ws(self.handle_bytes())
    }

    /// The handle cannot have special characters.
    pub open spec fn handle_not_ascii(self) -> bool {
        !is_ascii_chars(self.handle.value@)
    }

    /// The password cannot be empty.
    pub open spec fn password_blank(self) -> bool {
        self.password.value@.len() == 0
    }

    /// A non-empty password must have at least eight characters.
    pub open spec fn password_too_short(self) -> bool {
        !self.password_blank() && encode_utf8(self.password.value@).len() < 8
    }

    /// The password and its confirmation must agree.
    pub open spec fn password_mismatch(self) -> bool {
        self.password.value@ != self.password_confirmation.value@
    }

    /// Whether the whole form is acceptable.
    pub open spec fn valid_spec(self) -> bool {
        &&& !self.handle_too_short()
        &&& !self.handle_has_space()
        &&& !self.handle_not_ascii()
        &&& !self.password_blank()
        &&& !self.password_too_short()
        &&& !self.password_mismatch()
    }

    /// The error texts a validation run appends to the handle field.
    pub open spec fn new_handle_errors(self) -> Seq<Seq<char>> {
        (if self.handle_too_short() {
            seq!["Username must have at least three characters"@]
        } else {
            Seq::empty()
        }) + (if self.handle_has_space() {
            seq!["Username cannot have spaces"@]
        } else {
            Seq::empty()
        }) + (if self.handle_not_ascii() {
            seq!["Username cannot have special characters"@]
        } else {
            Seq::empty()
        })
    }

    /// The error texts a validation run appends to the password field.
    pub open spec fn new_password_errors(self) -> Seq<Seq<char>> {
        if self.password_blank() {
            seq!["Password cannot be empty"@]
        } else if self.password_too_short() {
            seq!["Password must have at least eight characters"@]
        } else {
            Seq::empty()
        }
    }

    /// The error texts a validation run appends to the confirmation field.
    pub open spec fn new_confirmation_errors(self) -> Seq<Seq<char>> {
        if self.password_mismatch() {
            seq!["Passwords do not match"@]
        } else {
            Seq::empty()
        }
    }

    /// A form filled with the given values, not yet validated.
    pub fn new(handle: &str, password: &str, password_confirmation: &str) -> (r: Self)
        ensures
            r.handle.value@ == handle@,
            r.handle.errors@.len() == 0,
            r.password.value@ == password@,
            r.password.errors@.len() == 0,
            r.password_confirmation.value@ == password_confirmation@,
            r.password_confirmation.errors@.len() == 0,
            r.is_valid is None,
    {
        RegisterUser {
            handle: TextField::new(handle),
            password: PasswordField::new(password),
            password_confirmation: PasswordField::new(password_confirmation),
            is_valid: None,
        }
    }

    /// Checks the form once, recording errors beside the offending fields; a
    /// later call returns the recorded verdict without re-checking.
    pub fn validate(&mut self) -> (r: bool)
        ensures
            match old(self).is_valid {
                Some(v) => *final(self) == *old(self) && r == v,
                None => {
                    &&& r == old(self).valid_spec()
                    &&& final(self).is_valid == Some(r)
                    &&& final(self).handle.value == old(self).handle.value
                    &&& final(self).password.value == old(self).password.value
                    &&& final(self).password_confirmation.value == old(
                        self,
                    ).password_confirmation.value
                    &&& errors_extended(
                        old(self).handle.errors@,
                        final(self).handle.errors@,
                        old(self).new_handle_errors(),
                    )
                    &&& errors_extended(
                        old(self).password.errors@,
                        final(self).password.errors@,
                        old(self).new_password_errors(),
                    )
                    &&& errors_extended(
                        old(self).password_confirmation.errors@,
                        final(self).password_confirmation.errors@,
                        old(self).new_confirmation_errors(),
                    )
                },
            },
    {
        if let Some(v) = self.is_valid {
            return v;
        }
        let mut valid = true;
        if self.handle.value.as_str().as_bytes().len() < 3 {
            self.handle.errors.push("Username must have at least three characters".to_owned());
            valid = false;
        }
        if contains_ascii_ws(self.handle.value.as_str()) {
            self.handle.errors.push("Username cannot have spaces".to_owned());
            valid = false;
        }
        if !self.handle.value.as_str().is_ascii() {
            self.handle.errors.push("Username cannot have special characters".to_owned());
            valid = false;
        }
        if self.password.value.as_str().is_empty() {
            self.password.errors.push("Password cannot be empty".to_owned());
            valid = false;
        } else if self.password.value.as_str().as_bytes().len() < 8 {
            self.password.errors.push("Password must have at least eight characters".to_owned());
            valid = false;
        }
        if !self.password.value.eq(&self.password_confirmation.value) {
            self.password_confirmation.errors.push("Passwords do not match".to_owned());
            valid = false;
        }
        self.is_valid = Some(valid);
        valid
    }
}

/// A sign-in form: handle and password.
#[derive(Debug, Default)]
pub struct AuthenticateUser {
    pub handle: TextField,
    pub password: PasswordField,
    pub is_valid: Option<bool>,
}

impl AuthenticateUser {
    /// Whether the whole form is acceptable: neither field is empty.
    pub open spec fn valid_spec(self) -> bool {
        self.handle.value@.len() > 0 && self.password.value@.len() > 0
    }

    /// The error texts a validation run appends to the handle field.
    pub open spec fn new_handle_errors(self) -> Seq<Seq<char>> {
        if self.handle.value@.len() == 0 {
            seq!["Username cannot be empty"@]
        } else {
            Seq::empty()
        }
    }

    /// The error texts a validation run appends to the password field.
    pub open spec fn new_password_errors(self) -> Seq<Seq<char>> {
        if self.password.value@.len() == 0 {
            seq!["Password cannot be empty"@]
        } else {
            Seq::empty()
        }
    }

    /// A form filled with the given values, not yet validated.
    pub fn new(handle: &str, password: &str) -> (r: Self)
        ensures
            r.handle.value@ == handle@,
            r.handle.errors@.len() == 0,
            r.password.value@ == password@,
            r.password.errors@.len() == 0,
            r.is_valid is None,
    {
        AuthenticateUser {
            handle: TextField::new(handle),
            password: PasswordField::new(password),
            is_valid: None,
        }
    }

    /// Checks the form once, recording errors beside the offending fields; a
    /// later call returns the recorded verdict without re-checking.
    pub fn validate(&mut self) -> (r: bool)
        ensures
            match old(self).is_valid {
                Some(v) => *final(self) == *old(self) && r == v,
                None => {
                    &&& r == old(self).valid_spec()
                    &&& final(self).is_valid == Some(r)
                    &&& final(self).handle.value == old(self).handle.value
                    &&& final(self).password.value == old(self).password.value
                    &&& errors_extended(
                        old(self).handle.errors@,
                        final(self).handle.errors@,
                        old(self).new_handle_errors(),
                    )
                    &&& errors_extended(
                        old(self).password.errors@,
                        final(self).password.errors@,
                        old(self).new_password_errors(),
                    )
                },
            },
    {
        if let Some(v) = self.is_valid {
            return v;
        }
        let mut valid = true;
        if self.handle.value.as_str().is_empty() {
            self.handle.errors.push("Username cannot be empty".to_owned());
            valid = false;
        }
        if self.password.value.as_str().is_empty() {
            self.password.errors.push("Password cannot be empty".to_owned());
            valid = false;
        }
        self.is_valid = Some(valid);
        valid
    }
}

impl RegisterUser {
    /// Registers the account, or returns the existing one with the same
    /// handle; only a validated form may be submitted.  The surrounding
    /// application remembers the session afterwards.
    pub fn call(&self, store: &mut Store) -> (r: Result<UpsertResult<User>, Error>)
        requires
            old(store).wf(),
            self.is_valid == Some(true),
        ensures
            final(store).wf(),
            final(store).questions == old(store).questions,
            final(store).queues == old(store).queues,
            final(store).answers == old(store).answers,
            final(store).last_answers == old(store).last_answers,
            match r {
                Ok(ur) => {
                    &&& ur.record.handle@ == self.handle.value@
                    &&& if ur.created {
                        &&& !crate::store::has_user_by_handle(
                            old(store).users@,
                            self.handle.value@,
                        )
                        &&& final(store).users@ == old(store).users@.push(ur.record)
                    } else {
                        &&& *final(store) == *old(store)
                        &&& exists|i: int|
                            crate::store::first_user_by_handle(
                                old(store).users@,
                                self.handle.value@,
                                i,
                            ) && ur.record == old(store).users@[i]
                    }
                },
                Err(e) => {
                    &&& *final(store) == *old(store)
                    &&& (e is HashPassword || e is Generic)
                    &&& (e is Generic ==> old(store).next_id == crate::store::MAX_STORE_ID)
                },
            },
    {
        match User::find_by_handle(self.handle.value.as_str(), store) {
            Ok(user) => Ok(UpsertResult { record: user, created: false }),
            Err(_) => {
                let user = match User::register(self, store) {
                    Ok(u) => u,
                    Err(e) => {
                        return Err(e);
                    },
                };
                Ok(UpsertResult { record: user, created: true })
            },
        }
    }
}

impl AuthenticateUser {
    /// Signs the user in: checks the password against the stored hash and
    /// stamps the last-login instant; only a validated form may be
    /// submitted.  The surrounding application remembers the session.
    pub fn call(&self, store: &mut Store) -> (r: Result<(), Error>)
        requires
            old(store).wf(),
            self.is_valid == Some(true),
        ensures
            final(store).wf(),
            final(store).questions == old(store).questions,
            final(store).queues == old(store).queues,
            final(store).answers == old(store).answers,
            final(store).last_answers == old(store).last_answers,
            match r {
                Ok(()) => exists|i: int|
                    (#[trigger] crate::store::first_user_by_handle(
                        old(store).users@,
                        self.handle.value@,
                        i,
                    )) && crate::users::argon2_verify_of(
                        old(store).users@[i].hashed_password@,
                        self.password.value@,
                    ) == Some(true),
                Err(e) => {
                    &&& *final(store) == *old(store)
                    &&& (e is NotFound || e is InvalidPassword || e is HashPassword)
                    &&& (e is NotFound ==> !crate::store::has_user_by_handle(
                        old(store).users@,
                        self.handle.value@,
                    ))
                    &&& (e is InvalidPassword ==> exists|i: int|
                        (#[trigger] crate::store::first_user_by_handle(
                            old(store).users@,
                            self.handle.value@,
                            i,
                        )) && crate::users::argon2_verify_of(
                            old(store).users@[i].hashed_password@,
                            self.password.value@,
                        ) == Some(false))
                    &&& (e is HashPassword ==> exists|i: int|
                        (#[trigger] crate::store::first_user_by_handle(
                            old(store).users@,
                            self.handle.value@,
                            i,
                        )) && crate::users::argon2_verify_of(
                            old(store).users@[i].hashed_password@,
                            self.password.value@,
                        ) is None)
                },
            },
    {
        let user = match User::authenticate(self, store) {
            Ok(u) => u,
            Err(e) => {
                return Err(e);
            },
        };
        match User::update_last_login(user.id, store) {
            Ok(()) => Ok(()),
            Err(e) => Err(e),
        }
    }
}

/// Signing out; the session teardown itself belongs to the surrounding
/// application.
#[derive(Debug, Default)]
pub struct DestroyUserSession;

/// A request to answer a question, as it arrives from the request path:
/// everything is still a public identifier or handle.
#[derive(Debug)]
pub struct AnswerQuestion {
    pub handle: String,
    pub question_external_id: String,
    pub queue_external_id: String,
    pub state: String,
}

impl AnswerQuestion {
    /// The request carries no free-form fields to check.
    pub fn validate(&self) -> (r: bool)
        ensures
            r,
    {
        true
    }

    /// Resolves the queue, user, and question, then records the attempt.
    pub fn call(&self, store: &mut Store, clock: &Clock) -> (r: Result<(), Error>)
        requires
            old(store).wf(),
            clock.wf(),
            crate::store::terminal_state(self.state@),
        ensures
            final(store).wf(),
            final(store).questions == old(store).questions,
            final(store).queues == old(store).queues,
            final(store).users == old(store).users,
            match r {
                Ok(()) => exists|qqi: int, ui: int|
                    (#[trigger] crate::store::first_queue_by_external(
                        old(store).queues@,
                        self.queue_external_id@,
                        qqi,
                    )) && (#[trigger] crate::store::first_user_by_handle(
                        old(store).users@,
                        self.handle@,
                        ui,
                    )) && crate::queues::answer_recorded(
                        *old(store),
                        *final(store),
                        old(store).users@[ui].id,
                        old(store).queues@[qqi].id,
                        self.question_external_id@,
                        self.state@,
                        clock.now,
                    ),
                Err(e) => {
                    &&& *final(store) == *old(store)
                    &&& (e is NotFound || e is Generic)
                    &&& (e is NotFound ==> {
                        ||| !crate::store::has_queue_by_external(
                            old(store).queues@,
                            self.queue_external_id@,
                        )
                        ||| !crate::store::has_user_by_handle(old(store).users@, self.handle@)
                        ||| !crate::store::has_question_by_external(
                            old(store).questions@,
                            self.question_external_id@,
                        )
                    })
                    &&& (e is Generic ==> old(store).next_id + 2 >= crate::store::MAX_STORE_ID)
                },
            },
    {
        let queue = match Queue::find(self.queue_external_id.as_str(), store) {
            Ok(q) => q,
            Err(_) => {
                return Err(Error::NotFound);
            },
        };
        let user = match User::find_by_handle(self.handle.as_str(), store) {
            Ok(u) => u,
            Err(_) => {
                return Err(Error::NotFound);
            },
        };
        let request = crate::queues::AnswerQuestion {
            question_external_id: self.question_external_id.clone(),
            queue_id: queue.id,
            state: self.state.clone(),
            user_id: user.id,
        };
        match queue.answer_question(request, store, clock) {
            Ok(()) => Ok(()),
            Err(e) => {
                match e {
                    Error::NotFound => Err(Error::NotFound),
                    _ => Err(Error::Generic("could not record the answer".to_owned())),
                }
            },
        }
    }
}

} // verus!
