//! The in-memory progress store: questions, queues, the append-only answer
//! log, and the per-triple `LastAnswer` projection the scheduler reads.  The
//! surrounding application maps these tables to whatever persistence it uses;
//! the record-keeping rules themselves live here, verified.

use vstd::prelude::*;

use crate::choosers::stage_spec;
use crate::questions::Question;
use crate::queues::{Answer, LastAnswer, Queue};
use crate::users::User;

verus! {

/// Upper bound on allocated row identifiers; far below `i64::MAX`, so
/// allocating the next identifier never overflows.
pub const MAX_STORE_ID: i64 = 0x4000_0000_0000_0000;

/// `i` is the position of the first question whose public identifier is
/// `ext`.
pub open spec fn first_question_by_external(qs: Seq<Question>, ext: Seq<char>, i: int) -> bool {
    &&& 0 <= i < qs.len()
    &&& qs[i].external_id@ == ext
    &&& forall|j: int| 0 <= j < i ==> (#[trigger] qs[j]).external_id@ != ext
}

/// Some question carries the public identifier `ext`.
pub open spec fn has_question_by_external(qs: Seq<Question>, ext: Seq<char>) -> bool {
    exists|i: int| 0 <= i < qs.len() && (#[trigger] qs[i]).external_id@ == ext
}

/// `i` is the position of the first question with row identifier `id`.
pub open spec fn first_question_by_id(qs: Seq<Question>, id: i64, i: int) -> bool {
    &&& 0 <= i < qs.len()
    &&& qs[i].id == id
    &&& forall|j: int| 0 <= j < i ==> (#[trigger] qs[j]).id != id
}

/// Some question carries the row identifier `id`.
pub open spec fn has_question_by_id(qs: Seq<Question>, id: i64) -> bool {
    exists|i: int| 0 <= i < qs.len() && (#[trigger] qs[i]).id == id
}

/// `i` is the position of the first queue whose public identifier is `ext`.
pub open spec fn first_queue_by_external(qs: Seq<Queue>, ext: Seq<char>, i: int) -> bool {
    &&& 0 <= i < qs.len()
    &&& qs[i].external_id@ == ext
    &&& forall|j: int| 0 <= j < i ==> (#[trigger] qs[j]).external_id@ != ext
}

/// Some queue carries the public identifier `ext`.
pub open spec fn has_queue_by_external(qs: Seq<Queue>, ext: Seq<char>) -> bool {
    exists|i: int| 0 <= i < qs.len() && (#[trigger] qs[i]).external_id@ == ext
}

/// Whether a queue belongs to the identity pair `(user, starting question)`.
pub open spec fn queue_pair_match(q: Queue, user_id: i64, question_id: i64) -> bool {
    q.user_id == user_id && q.starting_question_id == question_id
}

/// `i` is the position of the first queue with the identity pair.
pub open spec fn first_queue_by_pair(qs: Seq<Queue>, user_id: i64, question_id: i64, i: int) -> bool {
    &&& 0 <= i < qs.len()
    &&& queue_pair_match(qs[i], user_id, question_id)
    &&& forall|j: int| 0 <= j < i ==> !queue_pair_match(#[trigger] qs[j], user_id, question_id)
}

/// Some queue carries the identity pair.
pub open spec fn has_queue_by_pair(qs: Seq<Queue>, user_id: i64, question_id: i64) -> bool {
    exists|i: int| 0 <= i < qs.len() && queue_pair_match(#[trigger] qs[i], user_id, question_id)
}

/// Whether a `LastAnswer` row belongs to the scheduling triple.
pub open spec fn la_triple_match(la: LastAnswer, user_id: i64, queue_id: i64, question_id: i64) -> bool {
    la.user_id == user_id && la.queue_id == queue_id && la.question_id == question_id
}

/// `i` is the position of the first `LastAnswer` row with the triple.
pub open spec fn first_la_by_triple(
    las: Seq<LastAnswer>,
    user_id: i64,
    queue_id: i64,
    question_id: i64,
    i: int,
) -> bool {
    &&& 0 <= i < las.len()
    &&& la_triple_match(las[i], user_id, queue_id, question_id)
    &&& forall|j: int|
        0 <= j < i ==> !la_triple_match(#[trigger] las[j], user_id, queue_id, question_id)
}

/// Some `LastAnswer` row carries the triple.
pub open spec fn has_la_by_triple(
    las: Seq<LastAnswer>,
    user_id: i64,
    queue_id: i64,
    question_id: i64,
) -> bool {
    exists|i: int|
        0 <= i < las.len() && la_triple_match(#[trigger] las[i], user_id, queue_id, question_id)
}

/// `i` is the position of the first `LastAnswer` row with row identifier
/// `id`.
pub open spec fn first_la_by_id(las: Seq<LastAnswer>, id: i64, i: int) -> bool {
    &&& 0 <= i < las.len()
    &&& las[i].id == id
    &&& forall|j: int| 0 <= j < i ==> (#[trigger] las[j]).id != id
}

/// `i` is the position of the first answer with row identifier `id`.
pub open spec fn first_answer_by_id(ans: Seq<Answer>, id: i64, i: int) -> bool {
    &&& 0 <= i < ans.len()
    &&& ans[i].id == id
    &&& forall|j: int| 0 <= j < i ==> (#[trigger] ans[j]).id != id
}

/// `i` is the position of the first answer whose public identifier is `ext`.
pub open spec fn first_answer_by_external(ans: Seq<Answer>, ext: Seq<char>, i: int) -> bool {
    &&& 0 <= i < ans.len()
    &&& ans[i].external_id@ == ext
    &&& forall|j: int| 0 <= j < i ==> (#[trigger] ans[j]).external_id@ != ext
}

/// `i` is the position of the first user with the handle.
pub open spec fn first_user_by_handle(us: Seq<User>, handle: Seq<char>, i: int) -> bool {
    &&& 0 <= i < us.len()
    &&& us[i].handle@ == handle
    &&& forall|j: int| 0 <= j < i ==> (#[trigger] us[j]).handle@ != handle
}

/// Some user carries the handle.
pub open spec fn has_user_by_handle(us: Seq<User>, handle: Seq<char>) -> bool {
    exists|i: int| 0 <= i < us.len() && (#[trigger] us[i]).handle@ == handle
}

/// A terminal outcome string: one of the three states an attempt can end in.
pub open spec fn terminal_state(s: Seq<char>) -> bool {
    s == "correct"@ || s == "incorrect"@ || s == "unsure"@
}

/// The store: every table the library's record-keeping reads or writes, plus
/// the next free row identifier, shared by all tables as one sequence.
pub struct Store {
    pub questions: Vec<Question>,
    pub queues: Vec<Queue>,
    pub answers: Vec<Answer>,
    pub last_answers: Vec<LastAnswer>,
    pub users: Vec<User>,
    pub next_id: i64,
}

impl Store {
    /// Allocated identifiers are positive and below the allocation bound.
    pub open spec fn ids_in_range(self) -> bool {
        &&& 1 <= self.next_id <= MAX_STORE_ID
        &&& forall|i: int|
            0 <= i < self.questions@.len() ==> 1 <= (#[trigger] self.questions@[i]).id
                < self.next_id
        &&& forall|i: int|
            0 <= i < self.queues@.len() ==> 1 <= (#[trigger] self.queues@[i]).id < self.next_id
        &&& forall|i: int|
            0 <= i < self.answers@.len() ==> 1 <= (#[trigger] self.answers@[i]).id < self.next_id
        &&& forall|i: int|
            0 <= i < self.last_answers@.len() ==> 1 <= (#[trigger] self.last_answers@[i]).id
                < self.next_id
        &&& forall|i: int|
            0 <= i < self.users@.len() ==> 1 <= (#[trigger] self.users@[i]).id < self.next_id
    }

    /// Row identifiers are unique within each table.
    pub open spec fn ids_unique(self) -> bool {
        &&& forall|i: int, j: int|
            0 <= i < j < self.questions@.len() ==> (#[trigger] self.questions@[i]).id != (
            #[trigger] self.questions@[j]).id
        &&& forall|i: int, j: int|
            0 <= i < j < self.queues@.len() ==> (#[trigger] self.queues@[i]).id != (
            #[trigger] self.queues@[j]).id
        &&& forall|i: int, j: int|
            0 <= i < j < self.answers@.len() ==> (#[trigger] self.answers@[i]).id != (
            #[trigger] self.answers@[j]).id
        &&& forall|i: int, j: int|
            0 <= i < j < self.last_answers@.len() ==> (#[trigger] self.last_answers@[i]).id != (
            #[trigger] self.last_answers@[j]).id
        &&& forall|i: int, j: int|
            0 <= i < j < self.users@.len() ==> (#[trigger] self.users@[i]).id != (
            #[trigger] self.users@[j]).id
    }

    /// There is at most one `LastAnswer` row per `(user, queue, question)`
    /// triple: the materialized scheduling pointer is unique.
    pub open spec fn last_answers_unique(self) -> bool {
        forall|i: int, j: int|
            0 <= i < j < self.last_answers@.len() ==> !(la_triple_match(
                #[trigger] self.last_answers@[i],
                self.last_answers@[j].user_id,
                self.last_answers@[j].queue_id,
                (#[trigger] self.last_answers@[j]).question_id,
            ))
    }

    /// Every recorded answer is terminal and internally consistent: a
    /// timestamp in range, a non-negative streak, and a stage of exactly
    /// `2^streak`.
    pub open spec fn answers_wf(self) -> bool {
        forall|i: int|
            0 <= i < self.answers@.len() ==> {
                let a = #[trigger] self.answers@[i];
                &&& a.answered_at.wf()
                &&& a.consecutive_correct >= 0
                &&& a.stage == stage_spec(a.consecutive_correct as int)
                &&& terminal_state(a.state@)
            }
    }

    /// Every `LastAnswer` row is internally consistent, like the answers.
    pub open spec fn last_answers_wf(self) -> bool {
        forall|i: int|
            0 <= i < self.last_answers@.len() ==> {
                let la = #[trigger] self.last_answers@[i];
                &&& la.answer_answered_at.wf()
                &&& la.answer_consecutive_correct >= 0
                &&& la.stage == stage_spec(la.answer_consecutive_correct as int)
                &&& terminal_state(la.answer_state@)
            }
    }

    /// Every queue's starting question is a stored question, so a queue's
    /// candidate set is never empty.
    pub open spec fn queues_ref_questions(self) -> bool {
        forall|i: int|
            0 <= i < self.queues@.len() ==> has_question_by_id(
                self.questions@,
                (#[trigger] self.queues@[i]).starting_question_id,
            )
    }

    /// The store's full invariant.
    pub open spec fn wf(self) -> bool {
        &&& self.ids_in_range()
        &&& self.ids_unique()
        &&& self.last_answers_unique()
        &&& self.answers_wf()
        &&& self.last_answers_wf()
        &&& self.queues_ref_questions()
    }

    /// An empty store, ready for its first record.
    pub fn new() -> (r: Self)
        ensures
            r.questions@.len() == 0,
            r.queues@.len() == 0,
            r.answers@.len() == 0,
            r.last_answers@.len() == 0,
            r.users@.len() == 0,
            r.wf(),
    {
        Store {
            questions: Vec::new(),
            queues: Vec::new(),
            answers: Vec::new(),
            last_answers: Vec::new(),
            users: Vec::new(),
            next_id: 1,
        }
    }

    /// Allocates the next row identifier, failing once the identifier space
    /// is exhausted.
    pub fn allocate_id(&mut self) -> (r: Result<i64, crate::error::Error>)
        requires
            old(self).wf(),
        ensures
            match r {
                Ok(id) => {
                    &&& id == old(self).next_id
                    &&& final(self).next_id == old(self).next_id + 1
                    &&& old(self).next_id < MAX_STORE_ID
                },
                Err(e) => *final(self) == *old(self) && old(self).next_id == MAX_STORE_ID
                    && e is Generic,
            },
            final(self).questions == old(self).questions,
            final(self).queues == old(self).queues,
            final(self).answers == old(self).answers,
            final(self).last_answers == old(self).last_answers,
            final(self).users == old(self).users,
            1 <= final(self).next_id <= MAX_STORE_ID,
    {
        if self.next_id == MAX_STORE_ID {
            Err(crate::error::Error::Generic("identifier space exhausted".to_owned()))
        } else {
            let id = self.next_id;
            self.next_id = self.next_id + 1;
            Ok(id)
        }
    }

    /// Appending a question under a freshly allocated identifier keeps the
    /// store well-formed.
    pub proof fn lemma_wf_after_push_question(pre: Store, post: Store, q: Question)
        requires
            pre.wf(),
            pre.next_id < MAX_STORE_ID,
            q.id == pre.next_id,
            post.questions@ == pre.questions@.push(q),
            post.queues == pre.queues,
            post.answers == pre.answers,
            post.last_answers == pre.last_answers,
            post.users == pre.users,
            post.next_id == pre.next_id + 1,
        ensures
            post.wf(),
    {
        assert forall|i: int|
            0 <= i < post.queues@.len() implies has_question_by_id(
            post.questions@,
            (#[trigger] post.queues@[i]).starting_question_id,
        ) by {
            let w = choose|w: int|
                0 <= w < pre.questions@.len() && (#[trigger] pre.questions@[w]).id
                    == pre.queues@[i].starting_question_id;
            assert(post.questions@[w].id == post.queues@[i].starting_question_id);
        }
    }

    /// Appending a queue under a freshly allocated identifier keeps the
    /// store well-formed, provided its starting question is stored.
    pub proof fn lemma_wf_after_push_queue(pre: Store, post: Store, q: Queue)
        requires
            pre.wf(),
            pre.next_id < MAX_STORE_ID,
            q.id == pre.next_id,
            has_question_by_id(pre.questions@, q.starting_question_id),
            post.queues@ == pre.queues@.push(q),
            post.questions == pre.questions,
            post.answers == pre.answers,
            post.last_answers == pre.last_answers,
            post.users == pre.users,
            post.next_id == pre.next_id + 1,
        ensures
            post.wf(),
    {
        assert forall|i: int|
            0 <= i < post.queues@.len() implies has_question_by_id(
            post.questions@,
            (#[trigger] post.queues@[i]).starting_question_id,
        ) by {
            if i < pre.queues@.len() {
                assert(post.queues@[i] == pre.queues@[i]);
            } else {
                assert(post.queues@[i] == q);
            }
        }
    }

    /// Appending a user under a freshly allocated identifier keeps the store
    /// well-formed.
    pub proof fn lemma_wf_after_push_user(pre: Store, post: Store, u: User)
        requires
            pre.wf(),
            pre.next_id < MAX_STORE_ID,
            u.id == pre.next_id,
            post.users@ == pre.users@.push(u),
            post.questions == pre.questions,
            post.queues == pre.queues,
            post.answers == pre.answers,
            post.last_answers == pre.last_answers,
            post.next_id == pre.next_id + 1,
        ensures
            post.wf(),
    {
    }

    /// Appending an internally consistent answer under a freshly allocated
    /// identifier keeps the store well-formed.
    pub proof fn lemma_wf_after_push_answer(pre: Store, post: Store, a: Answer)
        requires
            pre.wf(),
            pre.next_id < MAX_STORE_ID,
            a.id == pre.next_id,
            a.wf_rec(),
            post.answers@ == pre.answers@.push(a),
            post.questions == pre.questions,
            post.queues == pre.queues,
            post.last_answers == pre.last_answers,
            post.users == pre.users,
            post.next_id == pre.next_id + 1,
        ensures
            post.wf(),
    {
        assert forall|i: int|
            0 <= i < post.queues@.len() implies has_question_by_id(
            post.questions@,
            (#[trigger] post.queues@[i]).starting_question_id,
        ) by {
            assert(has_question_by_id(pre.questions@, pre.queues@[i].starting_question_id));
        }
    }

    /// Overwriting an answer in place with an internally consistent row that
    /// keeps its identifier keeps the store well-formed.
    pub proof fn lemma_wf_after_update_answer(pre: Store, post: Store, i: int, a: Answer)
        requires
            pre.wf(),
            0 <= i < pre.answers@.len(),
            a.id == pre.answers@[i].id,
            a.wf_rec(),
            post.answers@ == pre.answers@.update(i, a),
            post.questions == pre.questions,
            post.queues == pre.queues,
            post.last_answers == pre.last_answers,
            post.users == pre.users,
            post.next_id == pre.next_id,
        ensures
            post.wf(),
    {
        assert forall|j: int|
            0 <= j < post.queues@.len() implies has_question_by_id(
            post.questions@,
            (#[trigger] post.queues@[j]).starting_question_id,
        ) by {
            assert(has_question_by_id(pre.questions@, pre.queues@[j].starting_question_id));
        }
    }

    /// Appending a `LastAnswer` row for a triple that has none yet, under a
    /// freshly allocated identifier, keeps the store well-formed.
    pub proof fn lemma_wf_after_push_last_answer(pre: Store, post: Store, la: LastAnswer)
        requires
            pre.wf(),
            pre.next_id < MAX_STORE_ID,
            la.id == pre.next_id,
            la.answer_answered_at.wf(),
            la.answer_consecutive_correct >= 0,
            la.stage == stage_spec(la.answer_consecutive_correct as int),
            terminal_state(la.answer_state@),
            !has_la_by_triple(pre.last_answers@, la.user_id, la.queue_id, la.question_id),
            post.last_answers@ == pre.last_answers@.push(la),
            post.questions == pre.questions,
            post.queues == pre.queues,
            post.answers == pre.answers,
            post.users == pre.users,
            post.next_id == pre.next_id + 1,
        ensures
            post.wf(),
    {
        assert forall|j: int|
            0 <= j < post.queues@.len() implies has_question_by_id(
            post.questions@,
            (#[trigger] post.queues@[j]).starting_question_id,
        ) by {
            assert(has_question_by_id(pre.questions@, pre.queues@[j].starting_question_id));
        }
        assert forall|i: int, j: int|
            0 <= i < j < post.last_answers@.len() implies !(la_triple_match(
            #[trigger] post.last_answers@[i],
            post.last_answers@[j].user_id,
            post.last_answers@[j].queue_id,
            (#[trigger] post.last_answers@[j]).question_id,
        )) by {
            if j == pre.last_answers@.len() {
                assert(post.last_answers@[i] == pre.last_answers@[i]);
                assert(post.last_answers@[j] == la);
            }
        }
    }

    /// Overwriting a `LastAnswer` row in place, keeping its identifier and
    /// triple, with internally consistent outcome fields, keeps the store
    /// well-formed.
    pub proof fn lemma_wf_after_update_last_answer(pre: Store, post: Store, i: int, la: LastAnswer)
        requires
            pre.wf(),
            0 <= i < pre.last_answers@.len(),
            la.id == pre.last_answers@[i].id,
            la.user_id == pre.last_answers@[i].user_id,
            la.queue_id == pre.last_answers@[i].queue_id,
            la.question_id == pre.last_answers@[i].question_id,
            la.answer_answered_at.wf(),
            la.answer_consecutive_correct >= 0,
            la.stage == stage_spec(la.answer_consecutive_correct as int),
            terminal_state(la.answer_state@),
            post.last_answers@ == pre.last_answers@.update(i, la),
            post.questions == pre.questions,
            post.queues == pre.queues,
            post.answers == pre.answers,
            post.users == pre.users,
            post.next_id == pre.next_id,
        ensures
            post.wf(),
    {
        assert forall|j: int|
            0 <= j < post.queues@.len() implies has_question_by_id(
            post.questions@,
            (#[trigger] post.queues@[j]).starting_question_id,
        ) by {
            assert(has_question_by_id(pre.questions@, pre.queues@[j].starting_question_id));
        }
        assert forall|a: int, b: int|
            0 <= a < b < post.last_answers@.len() implies !(la_triple_match(
            #[trigger] post.last_answers@[a],
            post.last_answers@[b].user_id,
            post.last_answers@[b].queue_id,
            (#[trigger] post.last_answers@[b]).question_id,
        )) by {
            assert(post.last_answers@[a].user_id == pre.last_answers@[a].user_id);
            assert(post.last_answers@[a].queue_id == pre.last_answers@[a].queue_id);
            assert(post.last_answers@[a].question_id == pre.last_answers@[a].question_id);
            assert(post.last_answers@[b].user_id == pre.last_answers@[b].user_id);
            assert(post.last_answers@[b].queue_id == pre.last_answers@[b].queue_id);
            assert(post.last_answers@[b].question_id == pre.last_answers@[b].question_id);
            assert(!(la_triple_match(
                pre.last_answers@[a],
                pre.last_answers@[b].user_id,
                pre.last_answers@[b].queue_id,
                pre.last_answers@[b].question_id,
            )));
        }
    }

    /// Stage law, over the stored records: every recorded answer's stage is
    /// two to the power of its streak, for every streak the stage arithmetic
    /// represents exactly (beyond that the exponent saturates at 30).
    pub proof fn lemma_stage_invariant(self, i: int)
        requires
            self.wf(),
            0 <= i < self.answers@.len(),
            self.answers@[i].consecutive_correct <= 30,
        ensures
            self.answers@[i].stage == crate::choosers::pow2(
                self.answers@[i].consecutive_correct as nat,
            ),
    {
        crate::choosers::lemma_stage_law(self.answers@[i].consecutive_correct as int);
    }

    /// LastAnswer uniqueness law: in a well-formed store there is never more
    /// than one `LastAnswer` row for one `(user, queue, question)` triple, so
    /// two positions that both match a triple coincide.
    pub proof fn lemma_last_answer_unique(self, user_id: i64, queue_id: i64, question_id: i64, i: int, j: int)
        requires
            self.wf(),
            0 <= i < self.last_answers@.len(),
            0 <= j < self.last_answers@.len(),
            la_triple_match(self.last_answers@[i], user_id, queue_id, question_id),
            la_triple_match(self.last_answers@[j], user_id, queue_id, question_id),
        ensures
            i == j,
    {
    }
}

} // verus!
