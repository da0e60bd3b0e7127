//! Question records: the study material a queue presents.

use vstd::prelude::*;
use vstd::string::StringExecFns;

use crate::error::Error;
use crate::store::{
    first_question_by_external, first_question_by_id, has_question_by_external, has_question_by_id,
    Store,
};
use crate::types::{hashid_of, DateTime, Id, Markdown, ID_SALT};

verus! {

/// The fields a caller supplies when adding a question.
#[derive(Debug, Clone)]
pub struct CreateQuestion {
    pub author_id: i64,
    pub title: String,
    pub link: String,
    pub link_logo: Option<String>,
}

/// A stored question.
#[derive(Debug)]
pub struct Question {
    pub author_id: i64,
    pub created_at: DateTime,
    pub external_id: String,
    pub id: i64,
    pub link_logo: Option<String>,
    pub link: Option<String>,
    pub text: Markdown,
    pub title: String,
    pub updated_at: DateTime,
}

impl Clone for Question {
    /// A clone carries the same fields.
    fn clone(&self) -> (r: Self)
        ensures
            r == *self,
    {
        Question {
            author_id: self.author_id,
            created_at: self.created_at,
            external_id: self.external_id.clone(),
            id: self.id,
            link_logo: match &self.link_logo {
                Some(s) => Some(s.clone()),
                None => None,
            },
            link: match &self.link {
                Some(s) => Some(s.clone()),
                None => None,
            },
            text: self.text.clone(),
            title: self.title.clone(),
            updated_at: self.updated_at,
        }
    }
}

/// The body text generated for a new question, wrapped around its link.
pub open spec fn question_text_spec(link: Seq<char>) -> Seq<char> {
    "Complete the challenge at [this link]("@ + link
        + "). When you're done, come back to this question and indicate whether you solved the problem."@
}

impl Question {
    /// All stored questions, most recently added first.
    pub fn find_all(store: &Store) -> (r: Result<Vec<Question>, Error>)
        ensures
            match r {
                Ok(qs) => qs@ == store.questions@.reverse(),
                Err(_) => false,
            },
    {
        let mut out: Vec<Question> = Vec::new();
        let mut i: usize = store.questions.len();
        while i > 0
            invariant
                i <= store.questions@.len(),
                out@.len() == store.questions@.len() - i,
                forall|j: int|
                    0 <= j < out@.len() ==> #[trigger] out@[j] == store.questions@[store.questions@.len()
                        - 1 - j],
            decreases i,
        {
            i = i - 1;
            out.push(store.questions[i].clone());
        }
        proof {
            assert(out@ =~= store.questions@.reverse());
        }
        Ok(out)
    }

    /// The first question with the given public identifier.
    pub fn find(external_id: &str, store: &Store) -> (r: Result<Question, Error>)
        ensures
            match r {
                Ok(q) => exists|i: int|
                    first_question_by_external(store.questions@, external_id@, i)
                        && q == store.questions@[i],
                Err(e) => !has_question_by_external(store.questions@, external_id@) && e is NotFound,
            },
    {
        let ext: String = external_id.to_owned();
        let mut i: usize = 0;
        while i < store.questions.len()
            invariant
                i <= store.questions@.len(),
                ext@ == external_id@,
                forall|j: int|
                    0 <= j < i ==> (#[trigger] store.questions@[j]).external_id@ != external_id@,
            decreases store.questions@.len() - i,
        {
            if store.questions[i].external_id.eq(&ext) {
                return Ok(store.questions[i].clone());
            }
            i = i + 1;
        }
        Err(Error::NotFound)
    }

    /// The first question with the given row identifier.
    pub fn find_by_id(id: i64, store: &Store) -> (r: Result<Question, Error>)
        ensures
            match r {
                Ok(q) => exists|i: int|
                    first_question_by_id(store.questions@, id, i) && q == store.questions@[i],
                Err(e) => !has_question_by_id(store.questions@, id) && e is NotFound,
            },
    {
        let mut i: usize = 0;
        while i < store.questions.len()
            invariant
                i <= store.questions@.len(),
                forall|j: int| 0 <= j < i ==> (#[trigger] store.questions@[j]).id != id,
            decreases store.questions@.len() - i,
        {
            if store.questions[i].id == id {
                return Ok(store.questions[i].clone());
            }
            i = i + 1;
        }
        Err(Error::NotFound)
    }

    /// Adds a question: allocates its identifiers, generates its body text
    /// around the link, and appends it to the store.
    pub fn create(question: CreateQuestion, store: &mut Store) -> (r: Result<Question, Error>)
        requires
            old(store).wf(),
        ensures
            final(store).wf(),
            final(store).queues == old(store).queues,
            final(store).answers == old(store).answers,
            final(store).last_answers == old(store).last_answers,
            final(store).users == old(store).users,
            match r {
                Ok(q) => {
                    &&& final(store).questions@ == old(store).questions@.push(q)
                    &&& q.id == old(store).next_id
                    &&& q.external_id@ == hashid_of(ID_SALT@, q.id as u64)
                    &&& q.author_id == question.author_id
                    &&& q.title == question.title
                    &&& q.link == Some(question.link)
                    &&& q.link_logo == question.link_logo
                    &&& q.text.text@ == question_text_spec(question.link@)
                    &&& q.created_at.wf()
                    &&& q.updated_at.wf()
                },
                Err(e) => {
                    &&& *final(store) == *old(store)
                    &&& e is Generic
                    &&& old(store).next_id == crate::store::MAX_STORE_ID
                },
            },
    {
        let id_value = match store.allocate_id() {
            Ok(v) => v,
            Err(e) => {
                return Err(e);
            },
        };
        let id = Id(id_value);

        let mut text = String::new();
        text.append("Complete the challenge at [this link](");
        text.append(question.link.as_str());
        text.append(
            "). When you're done, come back to this question and indicate whether you solved the problem.",
        );

        let now = DateTime::now();
        let q = Question {
            author_id: question.author_id,
            created_at: now,
            external_id: id.external_id(),
            id: id.internal_id(),
            link_logo: question.link_logo,
            link: Some(question.link),
            text: Markdown::from(text),
            title: question.title,
            updated_at: now,
        };
        store.questions.push(q.clone());
        proof {
            Store::lemma_wf_after_push_question(*old(store), *store, q);
        }
        Ok(q)
    }
}

} // verus!
