//! Queues and progress records: the append-only answer log, the per-triple
//! `LastAnswer` projection, and the operations that sequence "fetch next
//! question" and "record answer" against the store and the scheduler.

use vstd::prelude::*;
use vstd::string::StringExecFns;

use crate::choosers::{stage_spec, Clock, Strategy};
use crate::error::Error;
use crate::models::UpsertResult;
use crate::questions::Question;
use crate::store::{
    first_queue_by_external, first_queue_by_pair, has_queue_by_external, has_queue_by_pair,
    queue_pair_match, first_question_by_external, has_question_by_external, Store, MAX_STORE_ID,
};
use crate::types::{hashid_of, str_is, DateTime, Id, Markdown, ID_SALT};

verus! {

/// The fields a caller supplies when opening a queue.
#[derive(Debug)]
pub struct CreateQueue {
    pub description: String,
    pub starting_question_external_id: String,
    pub title: String,
    pub user_id: i64,
}

/// A stored queue: one user's study session anchored to a starting question.
#[derive(Debug)]
pub struct Queue {
    pub created_at: DateTime,
    pub description: Option<Markdown>,
    pub external_id: String,
    pub id: i64,
    pub starting_question_id: i64,
    pub title: String,
    pub updated_at: DateTime,
    pub user_id: i64,
}

impl Clone for Queue {
    /// A clone carries the same fields.
    fn clone(&self) -> (r: Self)
        ensures
            r == *self,
    {
        Queue {
            created_at: self.created_at,
            description: match &self.description {
                Some(d) => Some(d.clone()),
                None => None,
            },
            external_id: self.external_id.clone(),
            id: self.id,
            starting_question_id: self.starting_question_id,
            title: self.title.clone(),
            updated_at: self.updated_at,
            user_id: self.user_id,
        }
    }
}

/// The scheduler's verdict for a queue: the question to present, or none
/// plus the instant the next one unlocks.
pub struct NextQuestion {
    pub question: Option<Question>,
    pub next_available_at: DateTime,
}

impl NextQuestion {
    /// A human-readable phrase for when the next question unlocks.
    pub fn available_at(&self) -> String {
        self.next_available_at.humanize()
    }
}

/// One recorded attempt; rows are appended and finalized, never replaced.
#[derive(Debug)]
pub struct Answer {
    pub answered_at: DateTime,
    pub consecutive_correct: i32,
    pub external_id: String,
    pub id: i64,
    pub question_id: i64,
    pub queue_id: i64,
    pub stage: i32,
    pub state: String,
    pub user_id: i64,
}

impl Clone for Answer {
    /// A clone carries the same fields.
    fn clone(&self) -> (r: Self)
        ensures
            r == *self,
    {
        Answer {
            answered_at: self.answered_at,
            consecutive_correct: self.consecutive_correct,
            external_id: self.external_id.clone(),
            id: self.id,
            question_id: self.question_id,
            queue_id: self.queue_id,
            stage: self.stage,
            state: self.state.clone(),
            user_id: self.user_id,
        }
    }
}

impl Answer {
    /// An internally consistent answer record: timestamp in range,
    /// non-negative streak, stage of exactly `2^streak`, terminal state.
    pub open spec fn wf_rec(self) -> bool {
        &&& self.answered_at.wf()
        &&& self.consecutive_correct >= 0
        &&& self.stage == stage_spec(self.consecutive_correct as int)
        &&& crate::store::terminal_state(self.state@)
    }
}

/// The identifiers of an attempt, as strings from the request path.
#[derive(Debug)]
pub struct QueueAnswer {
    pub question_id: String,
    pub queue_id: String,
    pub user_id: String,
}

/// An answer joined with its question, as shown in a queue's history.
#[derive(Debug)]
pub struct WideAnswer {
    pub answer_id: i64,
    pub answer_state: String,
    pub answer_answered_at: DateTime,
    pub answer_consecutive_correct: i32,
    pub question_title: String,
    pub question_text: String,
    pub question_link: Option<String>,
    pub question_id: i64,
    pub queue_id: i64,
}

/// A request to record an attempt at a question.
#[derive(Debug)]
pub struct AnswerQuestion {
    pub question_external_id: String,
    pub queue_id: i64,
    pub state: String,
    pub user_id: i64,
}

impl AnswerQuestion {
    /// The streak a brand-new attempt row starts with, before the prior
    /// record is consulted.
    pub open spec fn initial_streak(self) -> int {
        if self.state@ == "correct"@ {
            1
        } else {
            0
        }
    }

    /// Computes [`Self::initial_streak`].
    pub fn consecutive_correct(&self) -> (r: i32)
        ensures
            r as int == self.initial_streak(),
    {
        if str_is(&self.state, "correct") {
            1
        } else {
            0
        }
    }
}

/// The unique, continuously updated row per `(user, queue, question)` triple
/// holding that question's current scheduling state.
#[derive(Debug)]
pub struct LastAnswer {
    pub answer_id: i64,
    pub answer_state: String,
    pub answer_answered_at: DateTime,
    pub answer_consecutive_correct: i32,
    pub stage: i32,
    pub created_at: DateTime,
    pub id: i64,
    pub question_id: i64,
    pub queue_id: i64,
    pub updated_at: DateTime,
    pub user_id: i64,
}

impl Clone for LastAnswer {
    /// A clone carries the same fields.
    fn clone(&self) -> (r: Self)
        ensures
            r == *self,
    {
        LastAnswer {
            answer_id: self.answer_id,
            answer_state: self.answer_state.clone(),
            answer_answered_at: self.answer_answered_at,
            answer_consecutive_correct: self.answer_consecutive_correct,
            stage: self.stage,
            created_at: self.created_at,
            id: self.id,
            question_id: self.question_id,
            queue_id: self.queue_id,
            updated_at: self.updated_at,
            user_id: self.user_id,
        }
    }
}

/// The field values an upsert writes into a `LastAnswer` row.
#[derive(Debug)]
pub struct UpsertLastAnswer {
    pub answer_answered_at: DateTime,
    pub answer_consecutive_correct: i32,
    pub answer_id: i64,
    pub answer_state: String,
    pub question_id: i64,
    pub queue_id: i64,
    pub user_id: i64,
}

/// A streak incremented by one more correct answer; saturates at the
/// counter's limit instead of wrapping.
pub open spec fn inc_streak(prior: int) -> int {
    if prior >= 0x7fff_ffff {
        prior
    } else {
        prior + 1
    }
}

/// The streak after submitting `state` against a prior streak: one more for
/// a correct outcome, zero for anything else.
pub open spec fn next_streak(state: Seq<char>, prior: int) -> int {
    if state == "correct"@ {
        inc_streak(prior)
    } else {
        0
    }
}

/// Streak law: submitting a correct outcome when the prior streak is `k`
/// yields `k + 1`, for every `k` the counter can represent; submitting any
/// other outcome yields `0` from any `k`.
pub proof fn lemma_streak_law(state: Seq<char>, prior: int)
    requires
        0 <= prior < 0x7fff_ffff,
    ensures
        state == "correct"@ ==> next_streak(state, prior) == prior + 1,
        state != "correct"@ ==> next_streak(state, prior) == 0,
{
}

/// What one find-or-create call promises, connecting the store before and
/// after with the returned queue: either the first stored queue with the
/// identity pair is returned and nothing changes, or no queue had the pair
/// and exactly the returned one is appended.
pub open spec fn find_or_create_post(
    pre: Store,
    post: Store,
    user_id: i64,
    question_id: i64,
    rec: Queue,
    created: bool,
) -> bool {
    &&& rec.user_id == user_id
    &&& rec.starting_question_id == question_id
    &&& if created {
        &&& !has_queue_by_pair(pre.queues@, user_id, question_id)
        &&& post.queues@ == pre.queues@.push(rec)
    } else {
        &&& post == pre
        &&& exists|i: int|
            first_queue_by_pair(pre.queues@, user_id, question_id, i) && rec == pre.queues@[i]
    }
}

/// Idempotent queue creation law: two consecutive find-or-create calls for
/// one `(user, starting question)` pair return the same queue; the second
/// call creates nothing and leaves the store unchanged.
pub proof fn lemma_find_or_create_idempotent(
    s0: Store,
    s1: Store,
    s2: Store,
    user_id: i64,
    question_id: i64,
    q1: Queue,
    c1: bool,
    q2: Queue,
    c2: bool,
)
    requires
        find_or_create_post(s0, s1, user_id, question_id, q1, c1),
        find_or_create_post(s1, s2, user_id, question_id, q2, c2),
    ensures
        !c2,
        q2 == q1,
        s2 == s1,
{
    if c1 {
        assert(queue_pair_match(q1, user_id, question_id));
        assert(has_queue_by_pair(s1.queues@, user_id, question_id)) by {
            assert(s1.queues@[s1.queues@.len() - 1] == q1);
        }
        assert(!c2);
        let i = choose|i: int| first_queue_by_pair(s1.queues@, user_id, question_id, i) && q2
            == s1.queues@[i];
        if i < s0.queues@.len() {
            assert(s1.queues@[i] == s0.queues@[i]);
            assert(queue_pair_match(s0.queues@[i], user_id, question_id));
            assert(false);
        }
        assert(i == s0.queues@.len());
        assert(q2 == q1);
    } else {
        assert(s1 == s0);
        assert(!c2) by {
            let i = choose|i: int|
                first_queue_by_pair(s0.queues@, user_id, question_id, i) && q1 == s0.queues@[i];
            assert(queue_pair_match(s1.queues@[i], user_id, question_id));
        }
        let i1 = choose|i: int|
            first_queue_by_pair(s0.queues@, user_id, question_id, i) && q1 == s0.queues@[i];
        let i2 = choose|i: int|
            first_queue_by_pair(s1.queues@, user_id, question_id, i) && q2 == s1.queues@[i];
        assert(i1 == i2);
    }
}

impl Queue {
    /// Opens a queue anchored to the question with the given public
    /// identifier, with the standard title and description.
    pub fn create(queue: CreateQueue, store: &mut Store) -> (r: Result<Queue, Error>)
        requires
            old(store).wf(),
        ensures
            final(store).wf(),
            final(store).questions == old(store).questions,
            final(store).answers == old(store).answers,
            final(store).last_answers == old(store).last_answers,
            final(store).users == old(store).users,
            match r {
                Ok(q) => exists|qi: int|
                    first_question_by_external(
                        old(store).questions@,
                        queue.starting_question_external_id@,
                        qi,
                    ) && {
                        &&& q.starting_question_id == old(store).questions@[qi].id
                        &&& q.user_id == queue.user_id
                        &&& q.id == old(store).next_id
                        &&& q.external_id@ == hashid_of(ID_SALT@, q.id as u64)
                        &&& q.title@ == "Algorithms and data structures"@
                        &&& match q.description {
                            Some(d) => d.text@ == "A queue of problems related to this question"@,
                            None => false,
                        }
                        &&& q.created_at.wf()
                        &&& q.updated_at.wf()
                        &&& final(store).queues@ == old(store).queues@.push(q)
                    },
                Err(e) => {
                    &&& *final(store) == *old(store)
                    &&& (e is NotFound || e is Generic)
                    &&& (e is NotFound ==> !has_question_by_external(
                        old(store).questions@,
                        queue.starting_question_external_id@,
                    ))
                    &&& (e is Generic ==> old(store).next_id == MAX_STORE_ID)
                },
            },
    {
        let question = match Question::find(queue.starting_question_external_id.as_str(), store) {
            Ok(q) => q,
            Err(_) => {
                return Err(Error::NotFound);
            },
        };
        let id_value = match store.allocate_id() {
            Ok(v) => v,
            Err(e) => {
                return Err(e);
            },
        };
        let id = Id(id_value);

        let now = DateTime::now();
        let q = Queue {
            created_at: now,
            description: Some(Markdown::from("A queue of problems related to this question".to_owned())),
            external_id: id.external_id(),
            id: id.internal_id(),
            starting_question_id: question.id,
            title: "Algorithms and data structures".to_owned(),
            updated_at: now,
            user_id: queue.user_id,
        };
        store.queues.push(q.clone());
        proof {
            let qi = choose|qi: int|
                first_question_by_external(
                    old(store).questions@,
                    queue.starting_question_external_id@,
                    qi,
                ) && question == old(store).questions@[qi];
            assert(old(store).questions@[qi].id == question.id);
            assert(crate::store::has_question_by_id(old(store).questions@, question.id));
            Store::lemma_wf_after_push_queue(*old(store), *store, q);
            assert(first_question_by_external(
                old(store).questions@,
                queue.starting_question_external_id@,
                qi,
            ));
        }
        Ok(q)
    }

    /// The first queue with the given public identifier.
    pub fn find(external_id: &str, store: &Store) -> (r: Result<Queue, Error>)
        ensures
            match r {
                Ok(q) => exists|i: int|
                    first_queue_by_external(store.queues@, external_id@, i) && q
                        == store.queues@[i],
                Err(e) => !has_queue_by_external(store.queues@, external_id@) && e is NotFound,
            },
    {
        let wanted: String = external_id.to_owned();
        let mut i: usize = 0;
        while i < store.queues.len()
            invariant
                i <= store.queues@.len(),
                wanted@ == external_id@,
                forall|j: int|
                    0 <= j < i ==> (#[trigger] store.queues@[j]).external_id@ != external_id@,
            decreases store.queues@.len() - i,
        {
            if store.queues[i].external_id.eq(&wanted) {
                return Ok(store.queues[i].clone());
            }
            i = i + 1;
        }
        Err(Error::NotFound)
    }

    /// Finds the queue for `(user, starting question)` or creates it:
    /// creating a queue for a pair that already exists returns the existing
    /// record rather than a duplicate.
    pub fn find_or_create(queue: CreateQueue, store: &mut Store) -> (r: Result<
        UpsertResult<Queue>,
        Error,
    >)
        requires
            old(store).wf(),
        ensures
            final(store).wf(),
            final(store).questions == old(store).questions,
            final(store).answers == old(store).answers,
            final(store).last_answers == old(store).last_answers,
            final(store).users == old(store).users,
            match r {
                Ok(ur) => exists|qi: int|
                    first_question_by_external(
                        old(store).questions@,
                        queue.starting_question_external_id@,
                        qi,
                    ) && find_or_create_post(
                        *old(store),
                        *final(store),
                        queue.user_id,
                        old(store).questions@[qi].id,
                        ur.record,
                        ur.created,
                    ),
                Err(e) => {
                    &&& *final(store) == *old(store)
                    &&& (e is NotFound || e is Generic)
                    &&& (e is NotFound ==> !has_question_by_external(
                        old(store).questions@,
                        queue.starting_question_external_id@,
                    ))
                    &&& (e is Generic ==> old(store).next_id == MAX_STORE_ID)
                },
            },
    {
        let question = match Question::find(queue.starting_question_external_id.as_str(), store) {
            Ok(q) => q,
            Err(_) => {
                return Err(Error::NotFound);
            },
        };

        let mut i: usize = 0;
        while i < store.queues.len()
            invariant
                i <= store.queues@.len(),
                *store == *old(store),
                old(store).wf(),
                exists|qi: int|
                    first_question_by_external(
                        old(store).questions@,
                        queue.starting_question_external_id@,
                        qi,
                    ) && question == old(store).questions@[qi],
                forall|j: int|
                    0 <= j < i ==> !queue_pair_match(
                        #[trigger] store.queues@[j],
                        queue.user_id,
                        question.id,
                    ),
            decreases store.queues@.len() - i,
        {
            if store.queues[i].user_id == queue.user_id && store.queues[i].starting_question_id
                == question.id {
                let record = store.queues[i].clone();
                proof {
                    let qi = choose|qi: int|
                        first_question_by_external(
                            store.questions@,
                            queue.starting_question_external_id@,
                            qi,
                        ) && question == store.questions@[qi];
                    assert(first_queue_by_pair(store.queues@, queue.user_id, question.id, i as int));
                    assert(find_or_create_post(
                        *store,
                        *store,
                        queue.user_id,
                        question.id,
                        record,
                        false,
                    ));
                }
                return Ok(UpsertResult { record, created: false });
            }
            i = i + 1;
        }

        let ghost mid = *store;
        let record = match Queue::create(queue, store) {
            Ok(q) => q,
            Err(e) => {
                return Err(e);
            },
        };
        proof {
            let qi1 = choose|qi: int|
                first_question_by_external(
                    mid.questions@,
                    queue.starting_question_external_id@,
                    qi,
                ) && question == mid.questions@[qi];
            let qi2 = choose|qi: int|
                first_question_by_external(
                    mid.questions@,
                    queue.starting_question_external_id@,
                    qi,
                ) && record.starting_question_id == mid.questions@[qi].id;
            assert(qi1 == qi2);
            assert(record.starting_question_id == question.id);
            assert(!has_queue_by_pair(mid.queues@, queue.user_id, question.id));
            assert(find_or_create_post(
                mid,
                *store,
                queue.user_id,
                question.id,
                record,
                true,
            ));
        }
        Ok(UpsertResult { record, created: true })
    }

    /// Every recorded attempt in this queue, in log order.
    pub fn answers(&self, store: &Store) -> (r: Result<Vec<Answer>, Error>)
        ensures
            match r {
                Ok(ans) => ans@ == store.answers@.filter(|a: Answer| a.queue_id == self.id),
                Err(_) => false,
            },
    {
        broadcast use vstd::prelude::Seq::lemma_filter_push;

        let ghost p = |a: Answer| a.queue_id == self.id;
        let mut out: Vec<Answer> = Vec::new();
        let mut i: usize = 0;
        proof {
            assert(store.answers@.take(0int).filter(p) =~= Seq::empty());
        }
        while i < store.answers.len()
            invariant
                i <= store.answers@.len(),
                out@ == store.answers@.take(i as int).filter(p),
                p == (|a: Answer| a.queue_id == self.id),
            decreases store.answers@.len() - i,
        {
            proof {
                assert(store.answers@.take(i + 1) =~= store.answers@.take(i as int).push(
                    store.answers@[i as int],
                ));
                store.answers@.take(i as int).lemma_filter_push(store.answers@[i as int], p);
            }
            if store.answers[i].queue_id == self.id {
                out.push(store.answers[i].clone());
            }
            i = i + 1;
        }
        proof {
            assert(store.answers@.take(store.answers@.len() as int) =~= store.answers@);
        }
        Ok(out)
    }
}

impl Answer {
    /// The first answer whose public identifier is `ext`.
    pub fn find(external_id: String, store: &Store) -> (r: Result<Answer, Error>)
        ensures
            match r {
                Ok(a) => exists|i: int|
                    crate::store::first_answer_by_external(store.answers@, external_id@, i) && a
                        == store.answers@[i],
                Err(e) => e is NotFound && forall|i: int|
                    0 <= i < store.answers@.len() ==> (#[trigger] store.answers@[i]).external_id@
                        != external_id@,
            },
    {
        let mut i: usize = 0;
        while i < store.answers.len()
            invariant
                i <= store.answers@.len(),
                forall|j: int|
                    0 <= j < i ==> (#[trigger] store.answers@[j]).external_id@ != external_id@,
            decreases store.answers@.len() - i,
        {
            if store.answers[i].external_id.eq(&external_id) {
                return Ok(store.answers[i].clone());
            }
            i = i + 1;
        }
        Err(Error::NotFound)
    }

    /// Records a fresh attempt row for the question with the given public
    /// identifier, timestamped at the clock's captured instant.
    pub fn create_from(answer: &AnswerQuestion, store: &mut Store, clock: &Clock) -> (r: Result<
        Answer,
        Error,
    >)
        requires
            old(store).wf(),
            clock.wf(),
            crate::store::terminal_state(answer.state@),
        ensures
            final(store).wf(),
            final(store).questions == old(store).questions,
            final(store).queues == old(store).queues,
            final(store).last_answers == old(store).last_answers,
            final(store).users == old(store).users,
            match r {
                Ok(a) => {
                    &&& exists|qi: int|
                        first_question_by_external(
                            old(store).questions@,
                            answer.question_external_id@,
                            qi,
                        ) && a.question_id == old(store).questions@[qi].id
                    &&& final(store).answers@ == old(store).answers@.push(a)
                    &&& final(store).next_id == old(store).next_id + 1
                    &&& a.id == old(store).next_id
                    &&& a.external_id@ == hashid_of(ID_SALT@, a.id as u64)
                    &&& a.user_id == answer.user_id
                    &&& a.queue_id == answer.queue_id
                    &&& a.state@ == answer.state@
                    &&& a.answered_at == clock.now
                    &&& a.consecutive_correct as int == answer.initial_streak()
                    &&& a.stage == stage_spec(a.consecutive_correct as int)
                    &&& a.wf_rec()
                },
                Err(e) => {
                    &&& *final(store) == *old(store)
                    &&& (e is NotFound || e is Generic)
                    &&& (e is NotFound ==> !has_question_by_external(
                        old(store).questions@,
                        answer.question_external_id@,
                    ))
                    &&& (e is Generic ==> old(store).next_id == MAX_STORE_ID)
                },
            },
    {
        let question = match Question::find(answer.question_external_id.as_str(), store) {
            Ok(q) => q,
            Err(_) => {
                return Err(Error::NotFound);
            },
        };
        let id_value = match store.allocate_id() {
            Ok(v) => v,
            Err(e) => {
                return Err(e);
            },
        };
        let id = Id(id_value);
        let cc = answer.consecutive_correct();
        let a = Answer {
            answered_at: clock.threshold(),
            consecutive_correct: cc,
            external_id: id.external_id(),
            id: id.internal_id(),
            question_id: question.id,
            queue_id: answer.queue_id,
            stage: crate::choosers::Choice::stage_from(cc),
            state: answer.state.clone(),
            user_id: answer.user_id,
        };
        store.answers.push(a.clone());
        proof {
            Store::lemma_wf_after_push_answer(*old(store), *store, a);
        }
        Ok(a)
    }

    /// Overwrites this attempt's outcome fields in the store with the final
    /// state, instant, and streak, and returns the finalized row.
    pub fn finalize(
        &self,
        state: String,
        answered_at: DateTime,
        consecutive_correct: i32,
        store: &mut Store,
    ) -> (r: Result<Answer, Error>)
        requires
            old(store).wf(),
            crate::store::terminal_state(state@),
            answered_at.wf(),
            consecutive_correct >= 0,
        ensures
            final(store).wf(),
            final(store).questions == old(store).questions,
            final(store).queues == old(store).queues,
            final(store).last_answers == old(store).last_answers,
            final(store).users == old(store).users,
            final(store).next_id == old(store).next_id,
            match r {
                Ok(a) => exists|i: int|
                    (#[trigger] crate::store::first_answer_by_id(old(store).answers@, self.id, i))
                        && {
                        &&& a == Answer {
                            state: a.state,
                            answered_at,
                            consecutive_correct,
                            stage: a.stage,
                            ..old(store).answers@[i]
                        }
                        &&& a.state@ == state@
                        &&& a.stage == stage_spec(consecutive_correct as int)
                        &&& final(store).answers@ == old(store).answers@.update(i, a)
                        &&& a.wf_rec()
                    },
                Err(e) => {
                    &&& *final(store) == *old(store)
                    &&& e is NotFound
                    &&& forall|i: int|
                        0 <= i < old(store).answers@.len() ==> (#[trigger] old(
                            store,
                        ).answers@[i]).id != self.id
                },
            },
    {
        let mut i: usize = 0;
        while i < store.answers.len()
            invariant
                i <= store.answers@.len(),
                *store == *old(store),
                old(store).wf(),
                crate::store::terminal_state(state@),
                answered_at.wf(),
                consecutive_correct >= 0,
                forall|j: int| 0 <= j < i ==> (#[trigger] store.answers@[j]).id != self.id,
            decreases store.answers@.len() - i,
        {
            if store.answers[i].id == self.id {
                let a = Answer {
                    state: state.clone(),
                    answered_at,
                    consecutive_correct,
                    stage: crate::choosers::Choice::stage_from(consecutive_correct),
                    ..store.answers[i].clone()
                };
                store.answers.set(i, a.clone());
                proof {
                    Store::lemma_wf_after_update_answer(*old(store), *store, i as int, a);
                    assert(crate::store::first_answer_by_id(old(store).answers@, self.id, i as int));
                    assert(store.answers@ =~= old(store).answers@.update(i as int, a));
                    assert(a == Answer {
                        state: a.state,
                        answered_at,
                        consecutive_correct,
                        stage: a.stage,
                        ..old(store).answers@[i as int]
                    });
                }
                return Ok(a);
            }
            i = i + 1;
        }
        Err(Error::NotFound)
    }

    /// The question this attempt was recorded against.
    pub fn question(&self, store: &Store) -> (r: Result<Question, Error>)
        ensures
            match r {
                Ok(q) => exists|i: int|
                    crate::store::first_question_by_id(store.questions@, self.question_id, i) && q
                        == store.questions@[i],
                Err(e) => !crate::store::has_question_by_id(store.questions@, self.question_id)
                    && e is NotFound,
            },
    {
        Question::find_by_id(self.question_id, store)
    }
}

impl LastAnswer {
    /// The scheduling pointer this answer's triple should update, created
    /// from the answer itself on the triple's first attempt.
    pub fn find_or_create(answer: &Answer, store: &mut Store) -> (r: Result<
        UpsertResult<LastAnswer>,
        Error,
    >)
        requires
            old(store).wf(),
            answer.wf_rec(),
        ensures
            final(store).wf(),
            final(store).questions == old(store).questions,
            final(store).queues == old(store).queues,
            final(store).answers == old(store).answers,
            final(store).users == old(store).users,
            match r {
                Ok(ur) => {
                    &&& crate::store::la_triple_match(
                        ur.record,
                        answer.user_id,
                        answer.queue_id,
                        answer.question_id,
                    )
                    &&& if ur.created {
                        &&& !crate::store::has_la_by_triple(
                            old(store).last_answers@,
                            answer.user_id,
                            answer.queue_id,
                            answer.question_id,
                        )
                        &&& final(store).last_answers@ == old(store).last_answers@.push(ur.record)
                        &&& final(store).next_id == old(store).next_id + 1
                        &&& ur.record.answer_id == answer.id
                        &&& ur.record.answer_state@ == answer.state@
                        &&& ur.record.answer_answered_at == answer.answered_at
                        &&& ur.record.answer_consecutive_correct == answer.consecutive_correct
                        &&& ur.record.stage == answer.stage
                        &&& ur.record.id == old(store).next_id
                    } else {
                        &&& *final(store) == *old(store)
                        &&& exists|i: int|
                            crate::store::first_la_by_triple(
                                old(store).last_answers@,
                                answer.user_id,
                                answer.queue_id,
                                answer.question_id,
                                i,
                            ) && ur.record == old(store).last_answers@[i]
                    }
                },
                Err(e) => *final(store) == *old(store) && e is Generic && old(store).next_id
                    == MAX_STORE_ID,
            },
    {
        let mut i: usize = 0;
        while i < store.last_answers.len()
            invariant
                i <= store.last_answers@.len(),
                *store == *old(store),
                old(store).wf(),
                forall|j: int|
                    0 <= j < i ==> !crate::store::la_triple_match(
                        #[trigger] store.last_answers@[j],
                        answer.user_id,
                        answer.queue_id,
                        answer.question_id,
                    ),
            decreases store.last_answers@.len() - i,
        {
            if store.last_answers[i].user_id == answer.user_id && store.last_answers[i].queue_id
                == answer.queue_id && store.last_answers[i].question_id == answer.question_id {
                return Ok(UpsertResult { record: store.last_answers[i].clone(), created: false });
            }
            i = i + 1;
        }
        let record = match LastAnswer::create_from(answer, store) {
            Ok(la) => la,
            Err(e) => {
                return Err(e);
            },
        };
        Ok(UpsertResult { record, created: true })
    }

    /// Creates the scheduling pointer for an answer's triple, copying the
    /// answer's outcome fields.
    pub fn create_from(answer: &Answer, store: &mut Store) -> (r: Result<LastAnswer, Error>)
        requires
            old(store).wf(),
            answer.wf_rec(),
            !crate::store::has_la_by_triple(
                old(store).last_answers@,
                answer.user_id,
                answer.queue_id,
                answer.question_id,
            ),
        ensures
            final(store).wf(),
            final(store).questions == old(store).questions,
            final(store).queues == old(store).queues,
            final(store).answers == old(store).answers,
            final(store).users == old(store).users,
            match r {
                Ok(la) => {
                    &&& final(store).last_answers@ == old(store).last_answers@.push(la)
                    &&& final(store).next_id == old(store).next_id + 1
                    &&& la.id == old(store).next_id
                    &&& la.answer_id == answer.id
                    &&& la.answer_state@ == answer.state@
                    &&& la.answer_answered_at == answer.answered_at
                    &&& la.answer_consecutive_correct == answer.consecutive_correct
                    &&& la.stage == answer.stage
                    &&& la.user_id == answer.user_id
                    &&& la.queue_id == answer.queue_id
                    &&& la.question_id == answer.question_id
                },
                Err(e) => *final(store) == *old(store) && e is Generic && old(store).next_id
                    == MAX_STORE_ID,
            },
    {
        let id_value = match store.allocate_id() {
            Ok(v) => v,
            Err(e) => {
                return Err(e);
            },
        };
        let now = DateTime::now();
        let la = LastAnswer {
            answer_id: answer.id,
            answer_state: answer.state.clone(),
            answer_answered_at: answer.answered_at,
            answer_consecutive_correct: answer.consecutive_correct,
            stage: answer.stage,
            created_at: now,
            id: id_value,
            question_id: answer.question_id,
            queue_id: answer.queue_id,
            updated_at: now,
            user_id: answer.user_id,
        };
        store.last_answers.push(la.clone());
        proof {
            Store::lemma_wf_after_push_last_answer(*old(store), *store, la);
        }
        Ok(la)
    }

    /// Overwrites this scheduling pointer with a finalized answer's outcome
    /// fields.
    pub fn update(&self, answer: &Answer, store: &mut Store) -> (r: Result<(), Error>)
        requires
            old(store).wf(),
            answer.wf_rec(),
        ensures
            final(store).wf(),
            final(store).questions == old(store).questions,
            final(store).queues == old(store).queues,
            final(store).answers == old(store).answers,
            final(store).users == old(store).users,
            final(store).next_id == old(store).next_id,
            match r {
                Ok(()) => exists|i: int|
                    (#[trigger] crate::store::first_la_by_id(old(store).last_answers@, self.id, i))
                        && {
                        let la = final(store).last_answers@[i];
                        &&& final(store).last_answers@ == old(store).last_answers@.update(i, la)
                        &&& la == LastAnswer {
                            answer_id: answer.id,
                            answer_state: la.answer_state,
                            answer_answered_at: answer.answered_at,
                            answer_consecutive_correct: answer.consecutive_correct,
                            stage: answer.stage,
                            updated_at: la.updated_at,
                            ..old(store).last_answers@[i]
                        }
                        &&& la.answer_state@ == answer.state@
                        &&& la.updated_at.wf()
                    },
                Err(e) => {
                    &&& *final(store) == *old(store)
                    &&& e is NotFound
                    &&& forall|i: int|
                        0 <= i < old(store).last_answers@.len() ==> (#[trigger] old(
                            store,
                        ).last_answers@[i]).id != self.id
                },
            },
    {
        let mut i: usize = 0;
        while i < store.last_answers.len()
            invariant
                i <= store.last_answers@.len(),
                *store == *old(store),
                old(store).wf(),
                answer.wf_rec(),
                forall|j: int| 0 <= j < i ==> (#[trigger] store.last_answers@[j]).id != self.id,
            decreases store.last_answers@.len() - i,
        {
            if store.last_answers[i].id == self.id {
                let now = DateTime::now();
                let la = LastAnswer {
                    answer_id: answer.id,
                    answer_state: answer.state.clone(),
                    answer_answered_at: answer.answered_at,
                    answer_consecutive_correct: answer.consecutive_correct,
                    stage: answer.stage,
                    updated_at: now,
                    ..store.last_answers[i].clone()
                };
                store.last_answers.set(i, la.clone());
                proof {
                    Store::lemma_wf_after_update_last_answer(*old(store), *store, i as int, la);
                    assert(crate::store::first_la_by_id(old(store).last_answers@, self.id, i as int));
                    assert(store.last_answers@ =~= old(store).last_answers@.update(i as int, la));
                }
                return Ok(());
            }
            i = i + 1;
        }
        Err(Error::NotFound)
    }
}

/// The outcome fields an upsert writes into the triple's scheduling pointer:
/// the new streak, its stage, the submitted state, the decision instant, and
/// a reference to the answer row the same call appended.
pub open spec fn updated_pointer(
    la: LastAnswer,
    state: Seq<char>,
    now: DateTime,
    new_cc: int,
    answer_id: i64,
) -> bool {
    &&& la.answer_consecutive_correct as int == new_cc
    &&& la.stage == stage_spec(new_cc)
    &&& la.answer_state@ == state
    &&& la.answer_answered_at == now
    &&& la.answer_id == answer_id
}

/// What a successful attempt recording promises, connecting the store before
/// and after: one finalized answer appended for the resolved question, and
/// the triple's `LastAnswer` row carrying the same new streak, stage, state,
/// and instant, pointing at that answer.  A pre-existing row is overwritten
/// in place, keeping its identifier and triple and touching no other row; a
/// first attempt appends exactly one row.
pub open spec fn answer_recorded(
    pre: Store,
    post: Store,
    user_id: i64,
    queue_id: i64,
    question_ext: Seq<char>,
    state: Seq<char>,
    now: DateTime,
) -> bool {
    exists|qi: int|
        (#[trigger] first_question_by_external(pre.questions@, question_ext, qi)) && {
            let qid = pre.questions@[qi].id;
            let new_cc = next_streak(state, prior_streak(pre, user_id, queue_id, qid));
            &&& ({
                let a = post.answers@.last();
                &&& post.answers@ == pre.answers@.push(a)
                &&& a.user_id == user_id
                &&& a.queue_id == queue_id
                &&& a.question_id == qid
                &&& a.state@ == state
                &&& a.answered_at == now
                &&& a.consecutive_correct as int == new_cc
                &&& a.stage == stage_spec(new_cc)
            })
            &&& if crate::store::has_la_by_triple(pre.last_answers@, user_id, queue_id, qid) {
                exists|li: int|
                    (#[trigger] crate::store::first_la_by_triple(
                        pre.last_answers@,
                        user_id,
                        queue_id,
                        qid,
                        li,
                    )) && {
                        let la = post.last_answers@[li];
                        &&& post.last_answers@ == pre.last_answers@.update(li, la)
                        &&& la.id == pre.last_answers@[li].id
                        &&& crate::store::la_triple_match(la, user_id, queue_id, qid)
                        &&& updated_pointer(la, state, now, new_cc, post.answers@.last().id)
                    }
            } else {
                ({
                    let la = post.last_answers@.last();
                    &&& post.last_answers@ == pre.last_answers@.push(la)
                    &&& crate::store::la_triple_match(la, user_id, queue_id, qid)
                    &&& updated_pointer(la, state, now, new_cc, post.answers@.last().id)
                })
            }
        }
}

/// The streak recorded for a triple before an attempt: the `LastAnswer`
/// row's streak, or zero when the triple was never attempted.
pub open spec fn prior_streak(s: Store, user_id: i64, queue_id: i64, question_id: i64) -> int {
    if crate::store::has_la_by_triple(s.last_answers@, user_id, queue_id, question_id) {
        let i = choose|i: int|
            0 <= i < s.last_answers@.len() && crate::store::la_triple_match(
                #[trigger] s.last_answers@[i],
                user_id,
                queue_id,
                question_id,
            );
        s.last_answers@[i].answer_consecutive_correct as int
    } else {
        0
    }
}

impl Queue {
    /// Records an attempt at a question in this queue: appends the finalized
    /// answer to the log and upserts the triple's `LastAnswer` row with the
    /// new streak, stage, state, and instant, as one all-or-nothing step.
    pub fn answer_question(
        &self,
        answer_question: AnswerQuestion,
        store: &mut Store,
        clock: &Clock,
    ) -> (r: Result<(), Error>)
        requires
            old(store).wf(),
            clock.wf(),
            crate::store::terminal_state(answer_question.state@),
        ensures
            final(store).wf(),
            final(store).questions == old(store).questions,
            final(store).queues == old(store).queues,
            final(store).users == old(store).users,
            match r {
                Ok(()) => answer_recorded(
                    *old(store),
                    *final(store),
                    answer_question.user_id,
                    answer_question.queue_id,
                    answer_question.question_external_id@,
                    answer_question.state@,
                    clock.now,
                ),
                Err(e) => {
                    &&& *final(store) == *old(store)
                    &&& (e is NotFound || e is Generic)
                    &&& (e is NotFound ==> !has_question_by_external(
                        old(store).questions@,
                        answer_question.question_external_id@,
                    ))
                    &&& (e is Generic ==> old(store).next_id + 2 >= MAX_STORE_ID)
                },
            },
    {
        // Both identifier allocations below must succeed, or nothing at all
        // may change; leave headroom up front.
        if store.next_id >= MAX_STORE_ID - 2 {
            return Err(Error::Generic("identifier space exhausted".to_owned()));
        }
        let ghost s0 = *old(store);

        let answer = match Answer::create_from(&answer_question, store, clock) {
            Ok(a) => a,
            Err(e) => {
                return Err(e);
            },
        };
        let ghost s1 = *store;
        let ghost a0 = answer;

        let upsert = match LastAnswer::find_or_create(&answer, store) {
            Ok(u) => u,
            Err(e) => {
                proof {
                    assert(false);
                }
                return Err(e);
            },
        };
        let ghost s2 = *store;
        let last_answer = upsert.record;

        let prior: i32 = if upsert.created {
            0
        } else {
            last_answer.answer_consecutive_correct
        };
        proof {
            if upsert.created {
                assert(!crate::store::has_la_by_triple(
                    s0.last_answers@,
                    answer_question.user_id,
                    answer_question.queue_id,
                    a0.question_id,
                ));
            } else {
                let fi = choose|fi: int|
                    crate::store::first_la_by_triple(
                        s1.last_answers@,
                        a0.user_id,
                        a0.queue_id,
                        a0.question_id,
                        fi,
                    ) && last_answer == s1.last_answers@[fi];
                assert(crate::store::has_la_by_triple(
                    s0.last_answers@,
                    answer_question.user_id,
                    answer_question.queue_id,
                    a0.question_id,
                ));
                let ci = choose|i: int|
                    0 <= i < s0.last_answers@.len() && crate::store::la_triple_match(
                        #[trigger] s0.last_answers@[i],
                        answer_question.user_id,
                        answer_question.queue_id,
                        a0.question_id,
                    );
                s0.lemma_last_answer_unique(
                    answer_question.user_id,
                    answer_question.queue_id,
                    a0.question_id,
                    fi,
                    ci,
                );
            }
            assert(prior as int == prior_streak(
                s0,
                answer_question.user_id,
                answer_question.queue_id,
                a0.question_id,
            ));
            assert(prior >= 0);
        }

        let consecutive_correct: i32 = if str_is(&answer_question.state, "correct") {
            if prior == i32::MAX {
                prior
            } else {
                prior + 1
            }
        } else {
            0
        };
        proof {
            assert(consecutive_correct as int == next_streak(
                answer_question.state@,
                prior as int,
            ));
        }

        proof {
            assert(crate::store::first_answer_by_id(
                s2.answers@,
                a0.id,
                s0.answers@.len() as int,
            )) by {
                assert(s2.answers@ == s0.answers@.push(a0));
                assert(s2.answers@[s0.answers@.len() as int] == a0);
                assert(forall|j: int|
                    0 <= j < s0.answers@.len() ==> (#[trigger] s0.answers@[j]).id < a0.id);
            }
        }
        let answer = match answer.finalize(
            answer_question.state.clone(),
            clock.threshold(),
            consecutive_correct,
            store,
        ) {
            Ok(a) => a,
            Err(e) => {
                proof {
                    assert(false);
                }
                return Err(e);
            },
        };
        let ghost s3 = *store;
        proof {
            let fi = choose|fi: int|
                crate::store::first_answer_by_id(s2.answers@, a0.id, fi) && s3.answers@
                    == s2.answers@.update(fi, answer);
            assert(fi == s0.answers@.len()) by {
                assert(s2.answers@[s0.answers@.len() as int].id == a0.id);
                if fi < s0.answers@.len() {
                    assert(s2.answers@[fi] == s0.answers@[fi]);
                }
            }
            assert(s3.answers@ =~= s0.answers@.push(answer));
        }

        match last_answer.update(&answer, store) {
            Ok(()) => {},
            Err(e) => {
                proof {
                    if upsert.created {
                        assert(s2.last_answers@[s0.last_answers@.len() as int].id
                            == last_answer.id);
                    } else {
                        let fi = choose|fi: int|
                            crate::store::first_la_by_triple(
                                s1.last_answers@,
                                a0.user_id,
                                a0.queue_id,
                                a0.question_id,
                                fi,
                            ) && last_answer == s1.last_answers@[fi];
                        assert(s2.last_answers@[fi].id == last_answer.id);
                    }
                    assert(false);
                }
                return Err(e);
            },
        };

        proof {
            let li = choose|li: int|
                crate::store::first_la_by_id(s3.last_answers@, last_answer.id, li) && store.last_answers@
                    == s3.last_answers@.update(li, store.last_answers@[li]);
            assert(store.answers@.last() == answer);
            if upsert.created {
                let n0 = s0.last_answers@.len() as int;
                assert(li == n0) by {
                    assert(s3.last_answers@[n0].id == last_answer.id);
                    if li < n0 {
                        assert(s3.last_answers@[li] == s0.last_answers@[li]);
                        assert(s0.last_answers@[li].id < last_answer.id);
                    }
                }
                assert(store.last_answers@ =~= s0.last_answers@.push(store.last_answers@[n0]));
                assert(store.last_answers@.last() == store.last_answers@[n0]);
                assert(crate::store::la_triple_match(
                    store.last_answers@[n0],
                    answer_question.user_id,
                    answer_question.queue_id,
                    a0.question_id,
                ));
            } else {
                let fi = choose|fi: int|
                    crate::store::first_la_by_triple(
                        s1.last_answers@,
                        a0.user_id,
                        a0.queue_id,
                        a0.question_id,
                        fi,
                    ) && last_answer == s1.last_answers@[fi];
                assert(li == fi) by {
                    assert(s3.last_answers@[fi].id == last_answer.id);
                    assert(s3.last_answers@[li].id == last_answer.id);
                    assert(s3.ids_unique());
                }
                assert(crate::store::first_la_by_triple(
                    s0.last_answers@,
                    answer_question.user_id,
                    answer_question.queue_id,
                    a0.question_id,
                    fi,
                ));
                assert(store.last_answers@ == s0.last_answers@.update(
                    fi,
                    store.last_answers@[fi],
                ));
                assert(store.last_answers@[fi].id == s0.last_answers@[fi].id);
                assert(crate::store::la_triple_match(
                    store.last_answers@[fi],
                    answer_question.user_id,
                    answer_question.queue_id,
                    a0.question_id,
                ));
            }
        }
        Ok(())
    }
}

/// The candidate row a queue's left join produces for the question at
/// position `i`: the triple's `LastAnswer` fields when one exists, absent
/// fields otherwise.
pub open spec fn candidate_row_spec(
    s: Store,
    user_id: i64,
    queue_id: i64,
    i: int,
) -> crate::choosers::ChoiceRow {
    let q = s.questions@[i];
    if crate::store::has_la_by_triple(s.last_answers@, user_id, queue_id, q.id) {
        let j = choose|j: int|
            0 <= j < s.last_answers@.len() && crate::store::la_triple_match(
                #[trigger] s.last_answers@[j],
                user_id,
                queue_id,
                q.id,
            );
        let la = s.last_answers@[j];
        crate::choosers::ChoiceRow {
            answer_answered_at: Some(la.answer_answered_at),
            answer_consecutive_correct: Some(la.answer_consecutive_correct),
            answer_state: Some(la.answer_state),
            question_id: q.id,
        }
    } else {
        crate::choosers::ChoiceRow {
            answer_answered_at: None,
            answer_consecutive_correct: None,
            answer_state: None,
            question_id: q.id,
        }
    }
}

/// The position of the first `LastAnswer` row for the triple, if any.
fn find_last_answer_index(store: &Store, user_id: i64, queue_id: i64, question_id: i64) -> (r:
    Option<usize>)
    ensures
        match r {
            Some(j) => crate::store::first_la_by_triple(
                store.last_answers@,
                user_id,
                queue_id,
                question_id,
                j as int,
            ),
            None => !crate::store::has_la_by_triple(
                store.last_answers@,
                user_id,
                queue_id,
                question_id,
            ),
        },
{
    let mut j: usize = 0;
    while j < store.last_answers.len()
        invariant
            j <= store.last_answers@.len(),
            forall|k: int|
                0 <= k < j ==> !crate::store::la_triple_match(
                    #[trigger] store.last_answers@[k],
                    user_id,
                    queue_id,
                    question_id,
                ),
        decreases store.last_answers@.len() - j,
    {
        if store.last_answers[j].user_id == user_id && store.last_answers[j].queue_id == queue_id
            && store.last_answers[j].question_id == question_id {
            return Some(j);
        }
        j = j + 1;
    }
    None
}

impl Queue {
    /// The left join of the stored questions against this queue's
    /// `LastAnswer` rows: exactly one candidate row per stored question.
    pub fn candidates(&self, store: &Store) -> (r: Vec<crate::choosers::ChoiceRow>)
        requires
            store.wf(),
        ensures
            r@.len() == store.questions@.len(),
            forall|i: int|
                0 <= i < r@.len() ==> #[trigger] r@[i] == candidate_row_spec(
                    *store,
                    self.user_id,
                    self.id,
                    i,
                ),
            forall|i: int| 0 <= i < r@.len() ==> (#[trigger] r@[i]).wf(),
    {
        let mut out: Vec<crate::choosers::ChoiceRow> = Vec::new();
        let mut i: usize = 0;
        while i < store.questions.len()
            invariant
                i <= store.questions@.len(),
                store.wf(),
                out@.len() == i,
                forall|k: int|
                    0 <= k < i ==> #[trigger] out@[k] == candidate_row_spec(
                        *store,
                        self.user_id,
                        self.id,
                        k,
                    ),
                forall|k: int| 0 <= k < i ==> (#[trigger] out@[k]).wf(),
            decreases store.questions@.len() - i,
        {
            let qid = store.questions[i].id;
            let row = match find_last_answer_index(store, self.user_id, self.id, qid) {
                Some(j) => {
                    let la = &store.last_answers[j];
                    proof {
                        let cj = choose|cj: int|
                            0 <= cj < store.last_answers@.len() && crate::store::la_triple_match(
                                #[trigger] store.last_answers@[cj],
                                self.user_id,
                                self.id,
                                qid,
                            );
                        store.lemma_last_answer_unique(self.user_id, self.id, qid, j as int, cj);
                    }
                    crate::choosers::ChoiceRow {
                        answer_answered_at: Some(la.answer_answered_at),
                        answer_consecutive_correct: Some(la.answer_consecutive_correct),
                        answer_state: Some(la.answer_state.clone()),
                        question_id: qid,
                    }
                },
                None => crate::choosers::ChoiceRow {
                    answer_answered_at: None,
                    answer_consecutive_correct: None,
                    answer_state: None,
                    question_id: qid,
                },
            };
            out.push(row);
            i = i + 1;
        }
        out
    }

    /// Asks the spaced-repetition policy for this queue's next question,
    /// deciding at the given clock's captured instant, in minutes.  With any
    /// question available the best one is returned; otherwise the verdict
    /// reports when the first candidate in priority order unlocks.  An empty
    /// question table is a data-integrity fault and yields an error.
    pub fn next_question(&self, store: &Store, clock: &Clock) -> (r: Result<NextQuestion, Error>)
        requires
            store.wf(),
            clock.wf(),
        ensures
            match r {
                Ok(nq) => store.questions@.len() > 0 && ({
                    let cl = Clock {
                        now: clock.now,
                        unit: crate::choosers::TimeUnit::Minutes,
                    };
                    let choices = Seq::new(
                        store.questions@.len(),
                        |i: int|
                            candidate_row_spec(*store, self.user_id, self.id, i).to_choice_spec(cl),
                    );
                    let total = crate::choosers::spaced_order(choices);
                    let avail = total.filter(
                        |c: crate::choosers::Choice|
                            crate::choosers::available_with(
                                c,
                                crate::choosers::TimeUnit::Minutes,
                                clock.now.seconds as int,
                            ),
                    );
                    match nq.question {
                        Some(q) => {
                            &&& avail.len() > 0
                            &&& nq.next_available_at.seconds == crate::choosers::avail_at_of(
                                avail[0],
                                crate::choosers::TimeUnit::Minutes,
                            )
                            &&& exists|i: int|
                                (#[trigger] crate::store::first_question_by_id(
                                    store.questions@,
                                    avail[0].question_id,
                                    i,
                                )) && q == store.questions@[i]
                        },
                        None => {
                            &&& total.len() > 0
                            &&& avail.len() == 0
                            &&& nq.next_available_at.seconds == crate::choosers::avail_at_of(
                                total[0],
                                crate::choosers::TimeUnit::Minutes,
                            )
                        },
                    }
                }),
                Err(_) => store.questions@.len() == 0,
            },
    {
        let choices = self.candidates(store);
        if choices.len() < 1 {
            return Err(Error::Generic("No choices found for queue".to_owned()));
        }

        let cl = Clock::at(clock.threshold(), crate::choosers::TimeUnit::Minutes);
        let mut converted: Vec<crate::choosers::Choice> = Vec::new();
        let mut i: usize = 0;
        while i < choices.len()
            invariant
                i <= choices@.len(),
                cl.wf(),
                forall|k: int| 0 <= k < choices@.len() ==> (#[trigger] choices@[k]).wf(),
                converted@.len() == i,
                forall|k: int|
                    0 <= k < i ==> #[trigger] converted@[k] == (choices@[k]).to_choice_spec(cl),
                forall|k: int| 0 <= k < i ==> (#[trigger] converted@[k]).wf(),
            decreases choices@.len() - i,
        {
            let c = choices[i].to_choice(&cl);
            converted.push(c);
            i = i + 1;
        }

        let ghost spec_choices = Seq::new(
            store.questions@.len(),
            |i: int| candidate_row_spec(*store, self.user_id, self.id, i).to_choice_spec(cl),
        );
        proof {
            assert(converted@ =~= spec_choices);
        }

        let chooser = crate::choosers::SpacedRepetition::new(
            converted,
            cl,
            crate::choosers::TimeUnit::Minutes,
        );
        let pair = match Strategy::next_question(&chooser) {
            Ok(p) => p,
            Err(e) => {
                proof {
                    assert(false);
                }
                return Err(e);
            },
        };
        let (next_choice, next_available_at) = pair;

        proof {
            let p1 = |c: crate::choosers::Choice| chooser.is_available(c);
            let p2 = |c: crate::choosers::Choice|
                crate::choosers::available_with(
                    c,
                    crate::choosers::TimeUnit::Minutes,
                    clock.now.seconds as int,
                );
            assert forall|c: crate::choosers::Choice| #[trigger] p1(c) == p2(c) by {}
            assert(p1 =~= p2);
        }

        match next_choice {
            Some(choice) => {
                proof {
                    let total = crate::choosers::spaced_order(spec_choices);
                    crate::choosers::lemma_spaced_order_elements(spec_choices);
                    let avail = total.filter(
                        |c: crate::choosers::Choice|
                            crate::choosers::available_with(
                                c,
                                crate::choosers::TimeUnit::Minutes,
                                clock.now.seconds as int,
                            ),
                    );
                    assert(avail[0] == choice);
                    vstd::prelude::Seq::lemma_filter_contains_rev(
                        total,
                        |c: crate::choosers::Choice|
                            crate::choosers::available_with(
                                c,
                                crate::choosers::TimeUnit::Minutes,
                                clock.now.seconds as int,
                            ),
                        choice,
                    );
                    assert(total.contains(choice));
                    let ti = choose|ti: int| 0 <= ti < total.len() && total[ti] == choice;
                    let si = choose|si: int|
                        0 <= si < spec_choices.len() && spec_choices[si] == total[ti];
                    assert(spec_choices[si].question_id == store.questions@[si].id);
                    assert(crate::store::has_question_by_id(
                        store.questions@,
                        choice.question_id,
                    ));
                }
                let question = match Question::find_by_id(choice.question_id, store) {
                    Ok(q) => q,
                    Err(e) => {
                        proof {
                            assert(false);
                        }
                        return Err(e);
                    },
                };
                Ok(NextQuestion { question: Some(question), next_available_at })
            },
            None => Ok(NextQuestion { question: None, next_available_at }),
        }
    }
}

/// The posted answer form: the outcome name as the user's browser sends it.
#[derive(Debug)]
pub struct AnswerQuestionForm {
    pub state: String,
}

/// How posted outcome names map to stored states: the three recognized
/// names map to their spellings; anything else is rejected.
pub open spec fn translated_state_spec(state: Seq<char>) -> Option<Seq<char>> {
    if state == "Correct"@ {
        Some("correct"@)
    } else if state == "Incorrect"@ {
        Some("incorrect"@)
    } else if state == "Too hard"@ {
        Some("unsure"@)
    } else {
        None
    }
}

impl AnswerQuestionForm {
    /// Maps the posted outcome name to its stored spelling, rejecting
    /// anything unrecognized before it can reach the scheduler.
    pub fn translated_state(&self) -> (r: Result<String, Error>)
        ensures
            match r {
                Ok(s) => translated_state_spec(self.state@) == Some(s@)
                    && crate::store::terminal_state(s@),
                Err(e) => translated_state_spec(self.state@) is None && e is Generic,
            },
    {
        if str_is(&self.state, "Correct") {
            Ok("correct".to_owned())
        } else if str_is(&self.state, "Incorrect") {
            Ok("incorrect".to_owned())
        } else if str_is(&self.state, "Too hard") {
            Ok("unsure".to_owned())
        } else {
            let mut message = String::new();
            message.append("Incorrect state: ");
            message.append(self.state.as_str());
            Err(Error::Generic(message))
        }
    }
}

impl Clone for WideAnswer {
    /// A clone carries the same fields.
    fn clone(&self) -> (r: Self)
        ensures
            r == *self,
    {
        WideAnswer {
            answer_id: self.answer_id,
            answer_state: self.answer_state.clone(),
            answer_answered_at: self.answer_answered_at,
            answer_consecutive_correct: self.answer_consecutive_correct,
            question_title: self.question_title.clone(),
            question_text: self.question_text.clone(),
            question_link: match &self.question_link {
                Some(s) => Some(s.clone()),
                None => None,
            },
            question_id: self.question_id,
            queue_id: self.queue_id,
        }
    }
}

/// Strictly-before in a queue's history view: more recently answered first.
pub open spec fn recent_lt(a: WideAnswer, b: WideAnswer) -> bool {
    a.answer_answered_at.seconds > b.answer_answered_at.seconds
}

/// `c` placed into `s` before the first row it strictly precedes; with a
/// sorted `s` this is a stable insertion.
pub open spec fn insert_recent(c: WideAnswer, s: Seq<WideAnswer>) -> Seq<WideAnswer>
    decreases s.len(),
{
    if s.len() == 0 {
        seq![c]
    } else if recent_lt(c, s[0]) {
        seq![c] + s
    } else {
        seq![s[0]] + insert_recent(c, s.skip(1))
    }
}

/// The stable insertion sort of a queue's history rows, most recent first.
pub open spec fn sort_recent(s: Seq<WideAnswer>) -> Seq<WideAnswer>
    decreases s.len(),
{
    if s.len() == 0 {
        Seq::empty()
    } else {
        insert_recent(s.last(), sort_recent(s.drop_last()))
    }
}

/// Where the exec insertion finds the first strictly-later row, the spec
/// insertion places the new one.
proof fn lemma_insert_recent_position(c: WideAnswer, s: Seq<WideAnswer>, p: int)
    requires
        0 <= p <= s.len(),
        forall|j: int| 0 <= j < p ==> !recent_lt(c, #[trigger] s[j]),
        p < s.len() ==> recent_lt(c, s[p]),
    ensures
        insert_recent(c, s) == s.insert(p, c),
    decreases p,
{
    if s.len() == 0 {
        assert(insert_recent(c, s) =~= s.insert(0, c));
    } else if p == 0 {
        assert(insert_recent(c, s) =~= s.insert(0, c));
    } else {
        lemma_insert_recent_position(c, s.skip(1), p - 1);
        assert(insert_recent(c, s) =~= seq![s[0]] + s.skip(1).insert(p - 1, c));
        assert(seq![s[0]] + s.skip(1).insert(p - 1, c) =~= s.insert(p, c));
    }
}

/// Inserts a history row into the sorted vector, after any rows answered at
/// the same instant.
fn insert_recent_sorted(v: Vec<WideAnswer>, c: WideAnswer) -> (out: Vec<WideAnswer>)
    ensures
        out@ == insert_recent(c, v@),
{
    let mut v = v;
    let ghost s = v@;
    let mut j: usize = 0;
    while j < v.len()
        invariant
            v@ == s,
            j <= s.len(),
            forall|m: int| 0 <= m < j ==> !recent_lt(c, #[trigger] s[m]),
        ensures
            v@ == s,
            j <= s.len(),
            forall|m: int| 0 <= m < j ==> !recent_lt(c, #[trigger] s[m]),
            j < s.len() ==> recent_lt(c, s[j as int]),
        decreases s.len() - j,
    {
        if c.answer_answered_at.seconds > v[j].answer_answered_at.seconds {
            break ;
        }
        j = j + 1;
    }
    v.insert(j, c);
    proof {
        lemma_insert_recent_position(c, s, j as int);
    }
    v
}

/// The history row shown for an answer joined with its question.
pub open spec fn wide_of(a: Answer, q: Question) -> WideAnswer {
    WideAnswer {
        answer_id: a.id,
        answer_state: a.state,
        answer_answered_at: a.answered_at,
        answer_consecutive_correct: a.consecutive_correct,
        question_title: q.title,
        question_text: q.text.text,
        question_link: q.link,
        question_id: a.question_id,
        queue_id: a.queue_id,
    }
}

/// The first `n` answers of the store joined against their questions,
/// restricted to one queue; an answer whose question is missing is dropped,
/// as an inner join would.
pub open spec fn wide_answers_spec(s: Store, queue_id: i64, n: int) -> Seq<WideAnswer>
    decreases n,
{
    if n <= 0 {
        Seq::empty()
    } else {
        let rest = wide_answers_spec(s, queue_id, n - 1);
        let a = s.answers@[n - 1];
        if a.queue_id == queue_id && crate::store::has_question_by_id(
            s.questions@,
            a.question_id,
        ) {
            let qi = choose|qi: int|
                0 <= qi < s.questions@.len() && (#[trigger] s.questions@[qi]).id == a.question_id;
            rest.push(wide_of(a, s.questions@[qi]))
        } else {
            rest
        }
    }
}

impl Queue {
    /// This queue's most recent attempts, most recent first, at most six,
    /// each joined with its question.
    pub fn recent_answers(&self, store: &Store) -> (r: Result<Vec<WideAnswer>, Error>)
        requires
            store.wf(),
        ensures
            match r {
                Ok(ws) => {
                    let sorted = sort_recent(
                        wide_answers_spec(*store, self.id, store.answers@.len() as int),
                    );
                    ws@ == if sorted.len() <= 6 {
                        sorted
                    } else {
                        sorted.take(6)
                    }
                },
                Err(_) => false,
            },
    {
        let mut joined: Vec<WideAnswer> = Vec::new();
        let mut i: usize = 0;
        while i < store.answers.len()
            invariant
                i <= store.answers@.len(),
                store.wf(),
                joined@ == wide_answers_spec(*store, self.id, i as int),
            decreases store.answers@.len() - i,
        {
            let a = &store.answers[i];
            if a.queue_id == self.id {
                match Question::find_by_id(a.question_id, store) {
                    Ok(q) => {
                        proof {
                            let fi = choose|fi: int|
                                crate::store::first_question_by_id(
                                    store.questions@,
                                    a.question_id,
                                    fi,
                                ) && q == store.questions@[fi];
                            let ci = choose|ci: int|
                                0 <= ci < store.questions@.len() && (#[trigger] store.questions@[ci]).id
                                    == a.question_id;
                            assert(fi == ci) by {
                                assert(store.questions@[fi].id == store.questions@[ci].id);
                                assert(store.ids_unique());
                            }
                        }
                        joined.push(WideAnswer {
                            answer_id: a.id,
                            answer_state: a.state.clone(),
                            answer_answered_at: a.answered_at,
                            answer_consecutive_correct: a.consecutive_correct,
                            question_title: q.title,
                            question_text: q.text.text,
                            question_link: q.link,
                            question_id: a.question_id,
                            queue_id: a.queue_id,
                        });
                    },
                    Err(_) => {},
                }
            }
            i = i + 1;
        }

        let mut sorted: Vec<WideAnswer> = Vec::new();
        let mut k: usize = 0;
        while k < joined.len()
            invariant
                k <= joined@.len(),
                sorted@ == sort_recent(joined@.take(k as int)),
            decreases joined@.len() - k,
        {
            sorted = insert_recent_sorted(sorted, joined[k].clone());
            proof {
                assert(joined@.take(k + 1).drop_last() =~= joined@.take(k as int));
                assert(joined@.take(k + 1).last() == joined@[k as int]);
            }
            k = k + 1;
        }
        proof {
            assert(joined@.take(joined@.len() as int) =~= joined@);
        }

        let mut out: Vec<WideAnswer> = Vec::new();
        let mut m: usize = 0;
        while m < sorted.len() && m < 6
            invariant
                m <= sorted@.len(),
                m <= 6,
                out@ == sorted@.take(m as int),
            decreases sorted@.len() - m,
        {
            proof {
                assert(sorted@.take(m + 1) =~= sorted@.take(m as int).push(sorted@[m as int]));
            }
            out.push(sorted[m].clone());
            m = m + 1;
        }
        proof {
            if sorted@.len() <= 6 {
                assert(sorted@.take(sorted@.len() as int) =~= sorted@);
            }
        }
        Ok(out)
    }
}

/// Which CSS class a recorded state's tag gets.
pub open spec fn tag_class_spec(state: Seq<char>) -> Seq<char> {
    if state == "unsure"@ {
        "is-info"@
    } else if state == "incorrect"@ {
        "is-danger"@
    } else if state == "correct"@ {
        "is-success"@
    } else {
        ""@
    }
}

/// Which label a recorded state's tag gets.
pub open spec fn tag_text_spec(state: Seq<char>) -> Seq<char> {
    if state == "unsure"@ {
        "Too hard"@
    } else if state == "incorrect"@ {
        "Incorrect"@
    } else if state == "correct"@ {
        "Correct"@
    } else if state == "unstarted"@ {
        "Not answered"@
    } else {
        ""@
    }
}

impl WideAnswer {
    /// The CSS class for this answer's state tag.
    pub fn tag_class(&self) -> (r: String)
        ensures
            r@ == tag_class_spec(self.answer_state@),
    {
        if str_is(&self.answer_state, "unsure") {
            "is-info".to_owned()
        } else if str_is(&self.answer_state, "incorrect") {
            "is-danger".to_owned()
        } else if str_is(&self.answer_state, "correct") {
            "is-success".to_owned()
        } else {
            "".to_owned()
        }
    }

    /// The label for this answer's state tag.
    pub fn tag_text(&self) -> (r: String)
        ensures
            r@ == tag_text_spec(self.answer_state@),
    {
        if str_is(&self.answer_state, "unsure") {
            "Too hard".to_owned()
        } else if str_is(&self.answer_state, "incorrect") {
            "Incorrect".to_owned()
        } else if str_is(&self.answer_state, "correct") {
            "Correct".to_owned()
        } else if str_is(&self.answer_state, "unstarted") {
            "Not answered".to_owned()
        } else {
            "".to_owned()
        }
    }

    /// A human-readable phrase for when this answer was recorded.
    pub fn answered_at(&self) -> String {
        self.answer_answered_at.humanize()
    }

    /// The stage this answer's streak dictates.
    pub fn answer_stage(&self) -> (r: i32)
        ensures
            r == stage_spec(self.answer_consecutive_correct as int),
    {
        crate::choosers::Choice::stage_from(self.answer_consecutive_correct)
    }
}

} // verus!
