//! Form fields and their validation contract.

use vstd::prelude::*;

use crate::types::Message;

verus! {

/// A sequence of messages mirrors a list of error strings, all at the
/// `error` level.
pub open spec fn messages_match(msgs: Seq<Message>, errors: Seq<String>) -> bool {
    &&& msgs.len() == errors.len()
    &&& forall|i: int|
        0 <= i < msgs.len() ==> (#[trigger] msgs[i]).content@ == errors[i]@ && msgs[i].level@
            == "error"@
}

/// `post`'s errors are `pre`'s with one more appended, whose text is `text`.
pub open spec fn one_error_appended(pre: Seq<String>, post: Seq<String>, text: Seq<char>) -> bool {
    &&& post.len() == pre.len() + 1
    &&& forall|i: int| 0 <= i < pre.len() ==> (#[trigger] post[i])@ == pre[i]@
    &&& post[post.len() - 1]@ == text
}

/// A value that can check itself and report its errors as messages.
pub trait Validate: Sized {
    /// The relation a `validate` call establishes between the value before,
    /// the value after, and the verdict.
    spec fn validate_rel(pre: Self, post: Self, verdict: bool) -> bool;

    /// Whether the value currently counts as valid.
    spec fn is_valid_spec(&self) -> bool;

    /// The messages this value would report.
    spec fn messages_ok(&self, msgs: Seq<Message>) -> bool;

    /// Checks the value, possibly recording errors in it.
    fn validate(&mut self) -> (r: bool)
        ensures
            Self::validate_rel(*old(self), *final(self), r),
    ;

    /// Whether no errors have been recorded.
    fn is_valid(&self) -> (r: bool)
        ensures
            r == self.is_valid_spec(),
    ;

    /// The recorded errors, as messages.
    fn messages(&self) -> (r: Vec<Message>)
        ensures
            self.messages_ok(r@),
    ;
}

/// A free-form text field.
#[derive(Debug, Default)]
pub struct TextField {
    pub value: String,
    pub errors: Vec<String>,
}

impl Clone for TextField {
    /// A clone carries the same value and errors.
    fn clone(&self) -> (r: Self)
        ensures
            r.value == self.value,
            r.errors@.len() == self.errors@.len(),
            forall|i: int|
                0 <= i < self.errors@.len() ==> (#[trigger] r.errors@[i])@ == self.errors@[i]@,
    {
        let mut errors: Vec<String> = Vec::new();
        let mut i: usize = 0;
        while i < self.errors.len()
            invariant
                i <= self.errors@.len(),
                errors@.len() == i,
                forall|j: int|
                    0 <= j < i ==> (#[trigger] errors@[j])@ == self.errors@[j]@,
            decreases self.errors@.len() - i,
        {
            errors.push(self.errors[i].clone());
            i = i + 1;
        }
        TextField { value: self.value.clone(), errors }
    }
}

impl TextField {
    /// A field holding `value` with no errors.
    pub fn new(value: &str) -> (r: Self)
        ensures
            r.value@ == value@,
            r.errors@.len() == 0,
    {
        TextField { value: value.to_owned(), errors: Vec::new() }
    }
}

impl Validate for TextField {
    open spec fn validate_rel(pre: Self, post: Self, verdict: bool) -> bool {
        post == pre && verdict
    }

    open spec fn is_valid_spec(&self) -> bool {
        self.errors@.len() == 0
    }

    open spec fn messages_ok(&self, msgs: Seq<Message>) -> bool {
        messages_match(msgs, self.errors@)
    }

    /// A bare text field accepts anything.
    fn validate(&mut self) -> (r: bool) {
        true
    }

    fn is_valid(&self) -> (r: bool) {
        self.errors.len() == 0
    }

    fn messages(&self) -> (r: Vec<Message>) {
        messages_from_errors(&self.errors)
    }
}

/// A password field.
#[derive(Debug, Default)]
pub struct PasswordField {
    pub value: String,
    pub errors: Vec<String>,
}

impl Clone for PasswordField {
    /// A clone carries the same value and errors.
    fn clone(&self) -> (r: Self)
        ensures
            r.value == self.value,
            r.errors@.len() == self.errors@.len(),
            forall|i: int|
                0 <= i < self.errors@.len() ==> (#[trigger] r.errors@[i])@ == self.errors@[i]@,
    {
        let mut errors: Vec<String> = Vec::new();
        let mut i: usize = 0;
        while i < self.errors.len()
            invariant
                i <= self.errors@.len(),
                errors@.len() == i,
                forall|j: int|
                    0 <= j < i ==> (#[trigger] errors@[j])@ == self.errors@[j]@,
            decreases self.errors@.len() - i,
        {
            errors.push(self.errors[i].clone());
            i = i + 1;
        }
        PasswordField { value: self.value.clone(), errors }
    }
}

impl PasswordField {
    /// A field holding `value` with no errors.
    pub fn new(value: &str) -> (r: Self)
        ensures
            r.value@ == value@,
            r.errors@.len() == 0,
    {
        PasswordField { value: value.to_owned(), errors: Vec::new() }
    }
}

impl Validate for PasswordField {
    open spec fn validate_rel(pre: Self, post: Self, verdict: bool) -> bool {
        if pre.value@.len() == 0 {
            &&& !verdict
            &&& post.value == pre.value
            &&& one_error_appended(pre.errors@, post.errors@, "Cannot be blank"@)
        } else {
            post == pre && verdict
        }
    }

    open spec fn is_valid_spec(&self) -> bool {
        self.errors@.len() == 0
    }

    open spec fn messages_ok(&self, msgs: Seq<Message>) -> bool {
        messages_match(msgs, self.errors@)
    }

    /// A password must not be blank.
    fn validate(&mut self) -> (r: bool) {
        if self.value.as_str().is_empty() {
            self.errors.push("Cannot be blank".to_owned());
            return false;
        }
        true
    }

    fn is_valid(&self) -> (r: bool) {
        self.errors.len() == 0
    }

    fn messages(&self) -> (r: Vec<Message>) {
        messages_from_errors(&self.errors)
    }
}

/// Turns a list of error strings into error-level messages.
pub fn messages_from_errors(errors: &Vec<String>) -> (r: Vec<Message>)
    ensures
        messages_match(r@, errors@),
{
    let mut out: Vec<Message> = Vec::new();
    let mut i: usize = 0;
    while i < errors.len()
        invariant
            i <= errors@.len(),
            out@.len() == i,
            forall|j: int|
                0 <= j < i ==> (#[trigger] out@[j]).content@ == errors@[j]@ && out@[j].level@
                    == "error"@,
        decreases errors@.len() - i,
    {
        out.push(Message { content: errors[i].clone(), level: "error".to_owned() });
        i = i + 1;
    }
    out
}

} // verus!
