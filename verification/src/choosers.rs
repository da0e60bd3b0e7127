//! The spaced-repetition scheduler: given a snapshot of per-question progress
//! (`Choice` values), a `Strategy` orders the candidates, filters the ones
//! presentable now, and `next_question` picks the best available one or
//! reports when the best unavailable one unlocks.

use vstd::multiset::Multiset;
use vstd::prelude::*;
use vstd::seq_lib::group_seq_properties;

use crate::error::Error;
use crate::types::{str_is, DateTime, MAX_DATE_SECONDS, MIN_DATE_SECONDS};

verus! {

broadcast use group_seq_properties;

/// The last recorded outcome for a question.
#[derive(Debug, PartialEq, Eq, Clone, Copy, Structural)]
pub enum State {
    Correct,
    Incorrect,
    Unknown,
    Unseen,
}

/// The view of an optional stored state string.
pub open spec fn opt_str_view(s: Option<String>) -> Option<Seq<char>> {
    match s {
        Some(t) => Some(t@),
        None => None,
    }
}

impl State {
    /// How a stored state string decodes: the three known spellings map to
    /// their variants; anything else, including an absent string, maps to
    /// `Unknown`, never silently to `Correct`.
    pub open spec fn from_spec(s: Option<Seq<char>>) -> State {
        match s {
            Some(t) => if t == "unseen"@ {
                State::Unseen
            } else if t == "correct"@ {
                State::Correct
            } else if t == "incorrect"@ {
                State::Incorrect
            } else {
                State::Unknown
            },
            None => State::Unknown,
        }
    }

    /// Decodes a stored state string.
    pub fn from(maybe_state: Option<String>) -> (r: Self)
        ensures
            r == State::from_spec(opt_str_view(maybe_state)),
    {
        match maybe_state {
            Some(state) => {
                if str_is(&state, "unseen") {
                    State::Unseen
                } else if str_is(&state, "correct") {
                    State::Correct
                } else if str_is(&state, "incorrect") {
                    State::Incorrect
                } else {
                    State::Unknown
                }
            },
            None => State::Unknown,
        }
    }
}

/// The time unit a deployment schedules in: days in production, minutes for
/// fast fixtures.
#[derive(Debug, PartialEq, Eq, Clone, Copy, Structural)]
pub enum TimeUnit {
    Days,
    Minutes,
}

/// One unit, in seconds.
pub open spec fn unit_seconds_spec(u: TimeUnit) -> int {
    match u {
        TimeUnit::Days => 86400,
        TimeUnit::Minutes => 60,
    }
}

impl TimeUnit {
    /// One unit, in seconds.
    pub fn seconds(self) -> (r: i64)
        ensures
            r == unit_seconds_spec(self),
    {
        match self {
            TimeUnit::Days => 86400,
            TimeUnit::Minutes => 60,
        }
    }
}

/// Clamps a shifted instant back into the representable range.
pub open spec fn clamp_seconds(x: int) -> int {
    if x < MIN_DATE_SECONDS as int {
        MIN_DATE_SECONDS as int
    } else if x > MAX_DATE_SECONDS as int {
        MAX_DATE_SECONDS as int
    } else {
        x
    }
}

/// An injectable source of "now": every time computation inside one
/// scheduling decision reads the same captured instant, so a decision is
/// internally consistent even if wall-clock time advances during evaluation.
#[derive(Debug, Clone, Copy, PartialEq, Eq, Structural)]
pub struct Clock {
    pub now: DateTime,
    pub unit: TimeUnit,
}

impl Clock {
    /// A well-formed clock: its captured instant is in range.
    pub open spec fn wf(self) -> bool {
        self.now.wf()
    }

    /// Captures the current wall-clock instant.
    pub fn new(unit: TimeUnit) -> (r: Self)
        ensures
            r.unit == unit,
            r.wf(),
    {
        Clock { now: DateTime::now(), unit }
    }

    /// A clock fixed at a given instant, for reproducible decisions.
    pub fn at(now: DateTime, unit: TimeUnit) -> (r: Self)
        requires
            now.wf(),
        ensures
            r.now == now,
            r.unit == unit,
            r.wf(),
    {
        Clock { now, unit }
    }

    /// The instant `n` units away from now, clamped to the representable
    /// range.
    pub open spec fn ticks_spec(self, n: int) -> int {
        clamp_seconds(self.now.seconds + n * unit_seconds_spec(self.unit))
    }

    /// The instant `n` units away from now; used by callers and tests to
    /// build fixtures, not by the scheduler itself.
    pub fn ticks(&self, n: i64) -> (r: DateTime)
        requires
            self.wf(),
            -10_000_000 <= n <= 10_000_000,
        ensures
            r.seconds == self.ticks_spec(n as int),
            r.wf(),
    {
        let shifted: i64 = self.now.seconds + n * self.unit.seconds();
        let clamped: i64 = if shifted < MIN_DATE_SECONDS {
            MIN_DATE_SECONDS
        } else if shifted > MAX_DATE_SECONDS {
            MAX_DATE_SECONDS
        } else {
            shifted
        };
        DateTime { seconds: clamped }
    }

    /// The instant against which availability is compared within one
    /// scheduling decision: the captured "now", not a fresh read.
    pub fn threshold(&self) -> (r: DateTime)
        ensures
            r == self.now,
    {
        self.now
    }
}

/// `2^n`.
pub open spec fn pow2(n: nat) -> nat
    decreases n,
{
    if n == 0 {
        1
    } else {
        2 * pow2((n - 1) as nat)
    }
}

/// How a streak length maps to a stage: `2^streak`, with a negative streak
/// treated as zero and the exponent saturated at 30 so the stage always fits
/// an `i32` instead of wrapping on pathologically long streaks.
pub open spec fn stage_spec(cc: int) -> int {
    if cc <= 0 {
        1
    } else if cc >= 30 {
        pow2(30) as int
    } else {
        pow2(cc as nat) as int
    }
}

/// `pow2` grows monotonically.
pub proof fn lemma_pow2_monotonic(i: nat, j: nat)
    requires
        i <= j,
    ensures
        pow2(i) <= pow2(j),
    decreases j,
{
    if i < j {
        lemma_pow2_monotonic(i, (j - 1) as nat);
    }
}

/// `2^30` written out.
pub proof fn lemma_pow2_30()
    ensures
        pow2(30) == 0x4000_0000,
{
    reveal_with_fuel(pow2, 31);
}

/// Stages lie between `1` and `2^30`.
pub proof fn lemma_stage_bounds(cc: int)
    ensures
        1 <= stage_spec(cc) <= 0x4000_0000,
{
    lemma_pow2_30();
    if 0 < cc < 30 {
        lemma_pow2_monotonic(cc as nat, 30);
        lemma_pow2_monotonic(0, cc as nat);
    }
}

/// Stage law: every stage is two to the power of its streak, for every streak
/// the stage arithmetic represents exactly (the exponent saturates at 30).
pub proof fn lemma_stage_law(cc: int)
    requires
        0 <= cc <= 30,
    ensures
        stage_spec(cc) == pow2(cc as nat),
{
}

/// An ephemeral per-question scheduling snapshot, built from the persisted
/// progress records for one scheduling decision.
#[derive(Debug, PartialEq, Eq, Clone, Copy, Structural)]
pub struct Choice {
    pub stage: i32,
    pub answered_at: DateTime,
    pub consecutive_correct: i32,
    pub question_id: i64,
    pub state: State,
}

impl Choice {
    /// A well-formed choice: the timestamp is in range and the stage is
    /// exactly what the streak dictates.
    pub open spec fn wf(self) -> bool {
        &&& self.answered_at.wf()
        &&& self.stage == stage_spec(self.consecutive_correct as int)
    }

    /// Builds a choice, deriving the stage from the streak.
    pub fn new(question_id: i64, answered_at: DateTime, consecutive_correct: i32, state: State) -> (r: Self)
        requires
            answered_at.wf(),
        ensures
            r.question_id == question_id,
            r.answered_at == answered_at,
            r.consecutive_correct == consecutive_correct,
            r.state == state,
            r.stage == stage_spec(consecutive_correct as int),
            r.wf(),
    {
        Choice {
            answered_at,
            consecutive_correct,
            question_id,
            stage: Choice::stage_from(consecutive_correct),
            state,
        }
    }

    /// Computes `2^consecutive_correct`, saturating the exponent at 30.
    pub fn stage_from(consecutive_correct: i32) -> (r: i32)
        ensures
            r == stage_spec(consecutive_correct as int),
            1 <= r <= 0x4000_0000,
    {
        let e: i32 = if consecutive_correct < 0 {
            0
        } else if consecutive_correct > 30 {
            30
        } else {
            consecutive_correct
        };
        proof {
            lemma_pow2_30();
        }
        let mut r: i32 = 1;
        let mut i: i32 = 0;
        while i < e
            invariant
                0 <= i <= e <= 30,
                r == pow2(i as nat),
                pow2(30) == 0x4000_0000,
            decreases e - i,
        {
            proof {
                lemma_pow2_monotonic((i + 1) as nat, 30);
            }
            r = r * 2;
            i = i + 1;
        }
        proof {
            lemma_stage_bounds(consecutive_correct as int);
        }
        r
    }
}

/// One row of the left join of a queue's questions against the progress
/// records; the answer fields are absent for never-attempted questions.
#[derive(Debug, Clone)]
pub struct ChoiceRow {
    pub answer_answered_at: Option<DateTime>,
    pub answer_consecutive_correct: Option<i32>,
    pub answer_state: Option<String>,
    pub question_id: i64,
}

impl ChoiceRow {
    /// A well-formed row: any recorded timestamp is in range.
    pub open spec fn wf(self) -> bool {
        match self.answer_answered_at {
            Some(d) => d.wf(),
            None => true,
        }
    }

    /// How a row becomes a choice under a given clock: absent fields default
    /// to a zero streak, an `Unknown` state, and a timestamp two units in the
    /// past, so a never-attempted question is immediately eligible.
    pub open spec fn to_choice_spec(self, clock: Clock) -> Choice {
        let cc = match self.answer_consecutive_correct {
            Some(c) => c,
            None => 0,
        };
        Choice {
            answered_at: DateTime {
                seconds: match self.answer_answered_at {
                    Some(d) => d.seconds as int,
                    None => clock.ticks_spec(-2),
                } as i64,
            },
            consecutive_correct: cc,
            question_id: self.question_id,
            stage: stage_spec(cc as int) as i32,
            state: State::from_spec(opt_str_view(self.answer_state)),
        }
    }

    /// Builds the choice for this row.
    pub fn to_choice(&self, clock: &Clock) -> (r: Choice)
        requires
            self.wf(),
            clock.wf(),
        ensures
            r == self.to_choice_spec(*clock),
            r.wf(),
    {
        let state = State::from(match &self.answer_state {
            Some(s) => Some(s.clone()),
            None => None,
        });
        let already = clock.ticks(-2);
        let answered_at = match self.answer_answered_at {
            Some(d) => d,
            None => already,
        };
        let consecutive_correct = match self.answer_consecutive_correct {
            Some(c) => c,
            None => 0,
        };
        Choice::new(self.question_id, answered_at, consecutive_correct, state)
    }
}

/// Every element of the sequence is a well-formed choice.
pub open spec fn all_wf(s: Seq<Choice>) -> bool {
    forall|i: int| 0 <= i < s.len() ==> (#[trigger] s[i]).wf()
}

/// The two orders the spaced-repetition policy sorts by.
#[derive(Debug, PartialEq, Eq, Clone, Copy, Structural)]
pub enum OrderKind {
    /// Presentation order: weakest streak first; within one streak, the
    /// longest-waiting question first.
    Presentation,
    /// Grouping order for the defensive dedup: by question id; within one
    /// id, the most recently answered row first.
    Grouping,
}

/// Strictly-before, in presentation order.
pub open spec fn presentation_lt(a: Choice, b: Choice) -> bool {
    ||| a.consecutive_correct < b.consecutive_correct
    ||| (a.consecutive_correct == b.consecutive_correct && a.answered_at.seconds
        < b.answered_at.seconds)
}

/// Strictly-before, in grouping order.
pub open spec fn grouping_lt(a: Choice, b: Choice) -> bool {
    ||| a.question_id < b.question_id
    ||| (a.question_id == b.question_id && a.answered_at.seconds > b.answered_at.seconds)
}

/// The strict order named by an [`OrderKind`].
pub open spec fn order_fn(k: OrderKind) -> spec_fn(Choice, Choice) -> bool {
    match k {
        OrderKind::Presentation => |a: Choice, b: Choice| presentation_lt(a, b),
        OrderKind::Grouping => |a: Choice, b: Choice| grouping_lt(a, b),
    }
}

/// Whether `lt` behaves as a strict weak order whose negation is transitive;
/// both named orders do, being lexicographic orders on integer keys.
pub open spec fn lt_wf(lt: spec_fn(Choice, Choice) -> bool) -> bool {
    &&& forall|a: Choice, b: Choice| #[trigger] lt(a, b) ==> !lt(b, a)
    &&& forall|a: Choice, b: Choice, c: Choice| #[trigger] lt(a, b) && #[trigger] lt(b, c) ==> lt(
        a,
        c,
    )
    &&& forall|a: Choice, b: Choice, c: Choice|
        !(#[trigger] lt(b, a)) && !(#[trigger] lt(c, b)) ==> !lt(c, a)
}

/// Both named orders are well-behaved.
pub proof fn lemma_order_fn_wf(k: OrderKind)
    ensures
        lt_wf(order_fn(k)),
{
}

/// `c` placed into `s` before the first element it strictly precedes; with a
/// sorted `s` this keeps `s` sorted and puts `c` after its equals, which is
/// what a stable insertion does.
pub open spec fn insert_by(lt: spec_fn(Choice, Choice) -> bool, c: Choice, s: Seq<Choice>) -> Seq<
    Choice,
>
    decreases s.len(),
{
    if s.len() == 0 {
        seq![c]
    } else if lt(c, s[0]) {
        seq![c] + s
    } else {
        seq![s[0]] + insert_by(lt, c, s.skip(1))
    }
}

/// The stable insertion sort of `s` under `lt`: each element, left to right,
/// inserted after its equals.
pub open spec fn sort_by_spec(lt: spec_fn(Choice, Choice) -> bool, s: Seq<Choice>) -> Seq<Choice>
    decreases s.len(),
{
    if s.len() == 0 {
        Seq::empty()
    } else {
        insert_by(lt, s.last(), sort_by_spec(lt, s.drop_last()))
    }
}

/// Sorted: no later element strictly precedes an earlier one.
pub open spec fn sorted_by(lt: spec_fn(Choice, Choice) -> bool, s: Seq<Choice>) -> bool {
    forall|i: int, j: int| 0 <= i < j < s.len() ==> !lt(#[trigger] s[j], #[trigger] s[i])
}

pub proof fn lemma_insert_by_len(lt: spec_fn(Choice, Choice) -> bool, c: Choice, s: Seq<Choice>)
    ensures
        insert_by(lt, c, s).len() == s.len() + 1,
    decreases s.len(),
{
    if s.len() > 0 && !lt(c, s[0]) {
        lemma_insert_by_len(lt, c, s.skip(1));
    }
}

pub proof fn lemma_sort_by_len(lt: spec_fn(Choice, Choice) -> bool, s: Seq<Choice>)
    ensures
        sort_by_spec(lt, s).len() == s.len(),
    decreases s.len(),
{
    if s.len() > 0 {
        lemma_sort_by_len(lt, s.drop_last());
        lemma_insert_by_len(lt, s.last(), sort_by_spec(lt, s.drop_last()));
    }
}

pub proof fn lemma_insert_by_multiset(
    lt: spec_fn(Choice, Choice) -> bool,
    c: Choice,
    s: Seq<Choice>,
)
    ensures
        insert_by(lt, c, s).to_multiset() == s.to_multiset().insert(c),
    decreases s.len(),
{
    broadcast use vstd::seq_lib::to_multiset_build;
    broadcast use vstd::seq_lib::group_to_multiset_ensures;

    if s.len() == 0 {
        assert(insert_by(lt, c, s) =~= Seq::empty().push(c));
        assert(Seq::<Choice>::empty().to_multiset() =~= Multiset::empty());
        assert(insert_by(lt, c, s).to_multiset() =~= s.to_multiset().insert(c));
    } else if lt(c, s[0]) {
        assert(insert_by(lt, c, s) =~= seq![c] + s);
        assert(seq![c] + s =~= (seq![c] + s.drop_last()).push(s.last()));
        lemma_insert_by_multiset_prefix(c, s);
    } else {
        lemma_insert_by_multiset(lt, c, s.skip(1));
        assert(insert_by(lt, c, s) =~= (seq![s[0]] + insert_by(lt, c, s.skip(1))));
        lemma_cons_multiset(s[0], insert_by(lt, c, s.skip(1)));
        lemma_cons_multiset(s[0], s.skip(1));
        assert(seq![s[0]] + s.skip(1) =~= s);
        assert(insert_by(lt, c, s).to_multiset() =~= s.to_multiset().insert(c)) by {
            assert(insert_by(lt, c, s).to_multiset() == insert_by(lt, c, s.skip(1)).to_multiset().insert(s[0]));
            assert(insert_by(lt, c, s.skip(1)).to_multiset() == s.skip(1).to_multiset().insert(c));
            assert(s.to_multiset() == s.skip(1).to_multiset().insert(s[0]));
        }
    }
}

/// A sequence's multiset equals its tail's with the head inserted.
proof fn lemma_cons_multiset(x: Choice, s: Seq<Choice>)
    ensures
        (seq![x] + s).to_multiset() == s.to_multiset().insert(x),
    decreases s.len(),
{
    broadcast use vstd::seq_lib::to_multiset_build;
    broadcast use vstd::seq_lib::group_to_multiset_ensures;

    if s.len() == 0 {
        assert(seq![x] + s =~= Seq::empty().push(x));
        assert(Seq::<Choice>::empty().to_multiset() =~= Multiset::empty());
        assert((seq![x] + s).to_multiset() =~= s.to_multiset().insert(x));
    } else {
        assert(seq![x] + s =~= (seq![x] + s.drop_last()).push(s.last()));
        lemma_cons_multiset(x, s.drop_last());
        assert(s =~= s.drop_last().push(s.last()));
        assert((seq![x] + s).to_multiset() =~= s.to_multiset().insert(x)) by {
            assert((seq![x] + s).to_multiset() == (seq![x] + s.drop_last()).to_multiset().insert(
                s.last(),
            ));
            assert((seq![x] + s.drop_last()).to_multiset() == s.drop_last().to_multiset().insert(
                x,
            ));
            assert(s.to_multiset() == s.drop_last().to_multiset().insert(s.last()));
            assert(s.drop_last().to_multiset().insert(x).insert(s.last())
                =~= s.drop_last().to_multiset().insert(s.last()).insert(x));
        }
    }
}

/// Helper for the front-insertion case of [`lemma_insert_by_multiset`].
proof fn lemma_insert_by_multiset_prefix(c: Choice, s: Seq<Choice>)
    requires
        s.len() > 0,
    ensures
        (seq![c] + s).to_multiset() == s.to_multiset().insert(c),
{
    lemma_cons_multiset(c, s);
}

pub proof fn lemma_sort_by_multiset(lt: spec_fn(Choice, Choice) -> bool, s: Seq<Choice>)
    ensures
        sort_by_spec(lt, s).to_multiset() == s.to_multiset(),
    decreases s.len(),
{
    broadcast use vstd::seq_lib::group_to_multiset_ensures;

    if s.len() == 0 {
        assert(sort_by_spec(lt, s) =~= Seq::<Choice>::empty());
    } else {
        lemma_sort_by_multiset(lt, s.drop_last());
        lemma_insert_by_multiset(lt, s.last(), sort_by_spec(lt, s.drop_last()));
        assert(s =~= s.drop_last().push(s.last()));
        assert(s.to_multiset() == s.drop_last().to_multiset().insert(s.last()));
    }
}

pub proof fn lemma_insert_by_sorted(
    lt: spec_fn(Choice, Choice) -> bool,
    c: Choice,
    s: Seq<Choice>,
)
    requires
        lt_wf(lt),
        sorted_by(lt, s),
    ensures
        sorted_by(lt, insert_by(lt, c, s)),
    decreases s.len(),
{
    if s.len() == 0 {
    } else if lt(c, s[0]) {
        let out = seq![c] + s;
        assert forall|i: int, j: int| 0 <= i < j < out.len() implies !lt(out[j], out[i]) by {
            if i == 0 {
                if j == 1 {
                    assert(!lt(out[j], out[i]));
                } else {
                    assert(!lt(s[j - 1], s[0]));
                }
            }
        }
    } else {
        lemma_insert_by_sorted(lt, c, s.skip(1));
        let rest = insert_by(lt, c, s.skip(1));
        let out = seq![s[0]] + rest;
        lemma_insert_by_len(lt, c, s.skip(1));
        lemma_insert_by_elements(lt, c, s.skip(1));
        assert forall|i: int, j: int| 0 <= i < j < out.len() implies !lt(out[j], out[i]) by {
            if i == 0 {
                let x = out[j];
                assert(x == rest[j - 1]);
                if x == c {
                    assert(!lt(c, s[0]));
                } else {
                    let k = choose|k: int| 0 <= k < s.skip(1).len() && s.skip(1)[k] == x;
                    assert(s[k + 1] == x);
                    assert(!lt(x, s[0]));
                }
            }
        }
    }
}

/// Every element of an insertion's result is the inserted element or one of
/// the originals.
pub proof fn lemma_insert_by_elements(
    lt: spec_fn(Choice, Choice) -> bool,
    c: Choice,
    s: Seq<Choice>,
)
    ensures
        forall|i: int|
            0 <= i < insert_by(lt, c, s).len() ==> (#[trigger] insert_by(lt, c, s)[i] == c
                || exists|k: int| 0 <= k < s.len() && s[k] == insert_by(lt, c, s)[i]),
    decreases s.len(),
{
    if s.len() == 0 {
    } else if lt(c, s[0]) {
        assert forall|i: int| 0 <= i < insert_by(lt, c, s).len() implies (#[trigger] insert_by(
            lt,
            c,
            s,
        )[i] == c || exists|k: int| 0 <= k < s.len() && s[k] == insert_by(lt, c, s)[i]) by {
            if i > 0 {
                assert(s[i - 1] == insert_by(lt, c, s)[i]);
            }
        }
    } else {
        lemma_insert_by_elements(lt, c, s.skip(1));
        let rest = insert_by(lt, c, s.skip(1));
        assert forall|i: int| 0 <= i < insert_by(lt, c, s).len() implies (#[trigger] insert_by(
            lt,
            c,
            s,
        )[i] == c || exists|k: int| 0 <= k < s.len() && s[k] == insert_by(lt, c, s)[i]) by {
            if i == 0 {
                assert(s[0] == insert_by(lt, c, s)[0]);
            } else {
                let x = rest[i - 1];
                assert(insert_by(lt, c, s)[i] == x);
                if x != c {
                    let k = choose|k: int| 0 <= k < s.skip(1).len() && s.skip(1)[k] == x;
                    assert(s[k + 1] == x);
                }
            }
        }
    }
}

pub proof fn lemma_sort_by_sorted(lt: spec_fn(Choice, Choice) -> bool, s: Seq<Choice>)
    requires
        lt_wf(lt),
    ensures
        sorted_by(lt, sort_by_spec(lt, s)),
    decreases s.len(),
{
    if s.len() > 0 {
        lemma_sort_by_sorted(lt, s.drop_last());
        lemma_insert_by_sorted(lt, s.last(), sort_by_spec(lt, s.drop_last()));
    }
}

/// Where the exec insertion finds the first strictly-greater element, the
/// spec insertion places the new one.
proof fn lemma_insert_by_position(
    lt: spec_fn(Choice, Choice) -> bool,
    c: Choice,
    s: Seq<Choice>,
    p: int,
)
    requires
        0 <= p <= s.len(),
        forall|j: int| 0 <= j < p ==> !lt(c, #[trigger] s[j]),
        p < s.len() ==> lt(c, s[p]),
    ensures
        insert_by(lt, c, s) == s.insert(p, c),
    decreases p,
{
    if s.len() == 0 {
        assert(insert_by(lt, c, s) =~= s.insert(0, c));
    } else if p == 0 {
        assert(insert_by(lt, c, s) =~= s.insert(0, c));
    } else {
        lemma_insert_by_position(lt, c, s.skip(1), p - 1);
        assert(insert_by(lt, c, s) =~= seq![s[0]] + s.skip(1).insert(p - 1, c));
        assert(seq![s[0]] + s.skip(1).insert(p - 1, c) =~= s.insert(p, c));
    }
}

/// Compares two choices in the order named by `k`.
fn lt_exec(k: OrderKind, a: &Choice, b: &Choice) -> (r: bool)
    ensures
        r == order_fn(k)(*a, *b),
{
    match k {
        OrderKind::Presentation => {
            a.consecutive_correct < b.consecutive_correct || (a.consecutive_correct
                == b.consecutive_correct && a.answered_at.seconds < b.answered_at.seconds)
        },
        OrderKind::Grouping => {
            a.question_id < b.question_id || (a.question_id == b.question_id
                && a.answered_at.seconds > b.answered_at.seconds)
        },
    }
}

/// Inserts `c` into the sorted vector `v`, after any equals.
fn insert_sorted(k: OrderKind, v: Vec<Choice>, c: Choice) -> (out: Vec<Choice>)
    ensures
        out@ == insert_by(order_fn(k), c, v@),
{
    let mut v = v;
    let ghost s = v@;
    let mut j: usize = 0;
    while j < v.len()
        invariant
            v@ == s,
            j <= s.len(),
            forall|m: int| 0 <= m < j ==> !order_fn(k)(c, #[trigger] s[m]),
        ensures
            v@ == s,
            j <= s.len(),
            forall|m: int| 0 <= m < j ==> !order_fn(k)(c, #[trigger] s[m]),
            j < s.len() ==> order_fn(k)(c, s[j as int]),
        decreases s.len() - j,
    {
        if lt_exec(k, &c, &v[j]) {
            break ;
        }
        j = j + 1;
    }
    v.insert(j, c);
    proof {
        lemma_insert_by_position(order_fn(k), c, s, j as int);
    }
    v
}

/// The stable insertion sort of `v` in the order named by `k`.
fn sort_choices(k: OrderKind, v: &Vec<Choice>) -> (r: Vec<Choice>)
    ensures
        r@ == sort_by_spec(order_fn(k), v@),
{
    let mut r: Vec<Choice> = Vec::new();
    let mut i: usize = 0;
    while i < v.len()
        invariant
            i <= v@.len(),
            r@ == sort_by_spec(order_fn(k), v@.take(i as int)),
        decreases v@.len() - i,
    {
        r = insert_sorted(k, r, v[i]);
        proof {
            assert(v@.take(i + 1).drop_last() =~= v@.take(i as int));
            assert(v@.take(i + 1).last() == v@[i as int]);
        }
        i = i + 1;
    }
    proof {
        assert(v@.take(v@.len() as int) =~= v@);
    }
    r
}

/// The first `n` elements of `s` with adjacent repeats of one question id
/// collapsed to the first row of each run.
pub open spec fn dedup_prefix(s: Seq<Choice>, n: int) -> Seq<Choice>
    decreases n,
{
    if n <= 0 {
        Seq::empty()
    } else if n == 1 {
        seq![s[0]]
    } else if s[n - 2].question_id == s[n - 1].question_id {
        dedup_prefix(s, n - 1)
    } else {
        dedup_prefix(s, n - 1).push(s[n - 1])
    }
}

/// `s` with adjacent repeats of one question id collapsed to the first row
/// of each run.
pub open spec fn dedup_adjacent(s: Seq<Choice>) -> Seq<Choice> {
    dedup_prefix(s, s.len() as int)
}

/// Dedup keeps at least one row and never invents one.
pub proof fn lemma_dedup_prefix_len(s: Seq<Choice>, n: int)
    requires
        0 <= n <= s.len(),
    ensures
        dedup_prefix(s, n).len() <= n,
        n >= 1 ==> dedup_prefix(s, n).len() >= 1,
    decreases n,
{
    if n > 1 {
        lemma_dedup_prefix_len(s, n - 1);
    }
}

/// Every deduped row is one of the originals.
pub proof fn lemma_dedup_prefix_elements(s: Seq<Choice>, n: int)
    requires
        n <= s.len(),
    ensures
        forall|i: int|
            0 <= i < dedup_prefix(s, n).len() ==> exists|j: int|
                0 <= j < n && s[j] == #[trigger] dedup_prefix(s, n)[i],
    decreases n,
{
    if n == 1 {
        assert(dedup_prefix(s, n)[0] == s[0]);
    } else if n > 1 {
        lemma_dedup_prefix_elements(s, n - 1);
        if s[n - 2].question_id != s[n - 1].question_id {
            assert forall|i: int| 0 <= i < dedup_prefix(s, n).len() implies exists|j: int|
                0 <= j < n && s[j] == #[trigger] dedup_prefix(s, n)[i] by {
                if i < dedup_prefix(s, n - 1).len() {
                    assert(dedup_prefix(s, n)[i] == dedup_prefix(s, n - 1)[i]);
                } else {
                    assert(dedup_prefix(s, n)[i] == s[n - 1]);
                }
            }
        }
    }
}

/// Collapses adjacent rows that share a question id, keeping the first of
/// each run.
fn dedup_choices(v: &Vec<Choice>) -> (r: Vec<Choice>)
    ensures
        r@ == dedup_adjacent(v@),
{
    let mut r: Vec<Choice> = Vec::new();
    let mut i: usize = 0;
    while i < v.len()
        invariant
            i <= v@.len(),
            r@ == dedup_prefix(v@, i as int),
        decreases v@.len() - i,
    {
        if i == 0 || v[i - 1].question_id != v[i].question_id {
            r.push(v[i]);
        }
        i = i + 1;
    }
    r
}

/// The spaced-repetition presentation order of a snapshot: group rows by
/// question id with the most recent first, keep one row per question, then
/// sort weakest-streak-first with the longest-waiting question winning ties.
pub open spec fn spaced_order(choices: Seq<Choice>) -> Seq<Choice> {
    sort_by_spec(
        order_fn(OrderKind::Presentation),
        dedup_adjacent(sort_by_spec(order_fn(OrderKind::Grouping), choices)),
    )
}

/// The presentation order is empty exactly when the snapshot is, and never
/// longer than it.
pub proof fn lemma_spaced_order_len(choices: Seq<Choice>)
    ensures
        spaced_order(choices).len() <= choices.len(),
        choices.len() > 0 ==> spaced_order(choices).len() >= 1,
{
    let grouped = sort_by_spec(order_fn(OrderKind::Grouping), choices);
    lemma_sort_by_len(order_fn(OrderKind::Grouping), choices);
    lemma_dedup_prefix_len(grouped, grouped.len() as int);
    lemma_sort_by_len(order_fn(OrderKind::Presentation), dedup_adjacent(grouped));
}

/// If a predicate holds of every element of `s`, it holds of every element
/// of any sequence with the same multiset.
proof fn lemma_all_from_multiset(s: Seq<Choice>, t: Seq<Choice>, p: spec_fn(Choice) -> bool)
    requires
        s.to_multiset() == t.to_multiset(),
        forall|i: int| 0 <= i < s.len() ==> p(#[trigger] s[i]),
    ensures
        forall|i: int| 0 <= i < t.len() ==> p(#[trigger] t[i]),
{
    broadcast use vstd::seq_lib::group_to_multiset_ensures;

    assert forall|i: int| 0 <= i < t.len() implies p(#[trigger] t[i]) by {
        assert(t.to_multiset().contains(t[i]));
        assert(s.to_multiset().contains(t[i]));
        assert(s.contains(t[i]));
        let j = choose|j: int| 0 <= j < s.len() && s[j] == t[i];
        assert(p(s[j]));
    }
}

/// Ordering law: the presentation order really is sorted by its key, weakest
/// streak first and, within one streak, the longest-waiting question first.
pub proof fn lemma_spaced_order_sorted(choices: Seq<Choice>)
    ensures
        sorted_by(order_fn(OrderKind::Presentation), spaced_order(choices)),
{
    lemma_order_fn_wf(OrderKind::Presentation);
    lemma_sort_by_sorted(
        order_fn(OrderKind::Presentation),
        dedup_adjacent(sort_by_spec(order_fn(OrderKind::Grouping), choices)),
    );
}

/// Every row of the presentation order is one of the snapshot's rows.
pub proof fn lemma_spaced_order_elements(choices: Seq<Choice>)
    ensures
        forall|i: int|
            0 <= i < spaced_order(choices).len() ==> exists|j: int|
                0 <= j < choices.len() && choices[j] == #[trigger] spaced_order(choices)[i],
{
    broadcast use vstd::seq_lib::group_to_multiset_ensures;

    let glt = order_fn(OrderKind::Grouping);
    let plt = order_fn(OrderKind::Presentation);
    let grouped = sort_by_spec(glt, choices);
    let deduped = dedup_adjacent(grouped);
    let total = spaced_order(choices);
    lemma_sort_by_multiset(glt, choices);
    lemma_sort_by_len(glt, choices);
    lemma_dedup_prefix_elements(grouped, grouped.len() as int);
    lemma_sort_by_multiset(plt, deduped);
    assert forall|i: int| 0 <= i < total.len() implies exists|j: int|
        0 <= j < choices.len() && choices[j] == #[trigger] total[i] by {
        let x = total[i];
        assert(total.to_multiset().contains(x));
        assert(deduped.to_multiset().contains(x));
        assert(deduped.contains(x));
        let di = choose|di: int| 0 <= di < deduped.len() && deduped[di] == x;
        let gi = choose|gi: int| 0 <= gi < grouped.len() && grouped[gi] == deduped[di];
        assert(grouped[gi] == x);
        assert(grouped.to_multiset().contains(x));
        assert(choices.to_multiset().contains(x));
        assert(choices.contains(x));
        let j = choose|j: int| 0 <= j < choices.len() && choices[j] == x;
        assert(0 <= j < choices.len() && choices[j] == total[i]);
    }
}

/// No two rows of the sequence share a question id.
pub open spec fn distinct_question_ids(s: Seq<Choice>) -> bool {
    forall|i: int, j: int|
        0 <= i < j < s.len() ==> (#[trigger] s[i]).question_id != (#[trigger] s[j]).question_id
}

/// Dedup of a sequence whose question ids never decrease yields strictly
/// increasing question ids, ending at the last input row's id.
proof fn lemma_dedup_prefix_distinct(s: Seq<Choice>, n: int)
    requires
        1 <= n <= s.len(),
        forall|i: int, j: int|
            0 <= i < j < s.len() ==> (#[trigger] s[i]).question_id <= (#[trigger] s[j]).question_id,
    ensures
        dedup_prefix(s, n).len() >= 1,
        dedup_prefix(s, n).last().question_id == s[n - 1].question_id,
        forall|i: int, j: int|
            0 <= i < j < dedup_prefix(s, n).len() ==> (#[trigger] dedup_prefix(s, n)[i]).question_id
                < (#[trigger] dedup_prefix(s, n)[j]).question_id,
    decreases n,
{
    if n > 1 {
        lemma_dedup_prefix_distinct(s, n - 1);
        if s[n - 2].question_id != s[n - 1].question_id {
            let rest = dedup_prefix(s, n - 1);
            let out = dedup_prefix(s, n);
            assert(out =~= rest.push(s[n - 1]));
            assert(rest.last().question_id == s[n - 2].question_id);
            assert(s[n - 2].question_id < s[n - 1].question_id);
            assert forall|i: int, j: int|
                0 <= i < j < out.len() implies (#[trigger] out[i]).question_id < (
            #[trigger] out[j]).question_id by {
                if j == out.len() - 1 {
                    if i < rest.len() - 1 {
                        assert(rest[i].question_id < rest.last().question_id);
                    }
                }
            }
        }
    }
}

/// A sequence with the same rows as one with pairwise-distinct question ids
/// has pairwise-distinct question ids itself.
proof fn lemma_multiset_keeps_distinct_qids(s: Seq<Choice>, t: Seq<Choice>)
    requires
        s.to_multiset() == t.to_multiset(),
        distinct_question_ids(s),
    ensures
        distinct_question_ids(t),
{
    broadcast use vstd::seq_lib::group_to_multiset_ensures;
    broadcast use vstd::seq_lib::to_multiset_remove;
    broadcast use vstd::multiset::group_multiset_axioms;

    assert forall|i: int, j: int|
        0 <= i < j < t.len() implies (#[trigger] t[i]).question_id != (
    #[trigger] t[j]).question_id by {
        if t[i].question_id == t[j].question_id {
            if t[i] == t[j] {
                let v = t[i];
                assert(t.remove(i)[j - 1] == t[j]);
                assert(t.remove(i).contains(v));
                assert(t.remove(i).to_multiset() == t.to_multiset().remove(v));
                assert(t.remove(i).to_multiset().count(v) >= 1);
                assert(t.to_multiset().remove(v).count(v) >= 1);
                assert(t.to_multiset().count(v) >= 2);
                assert(s.to_multiset().count(v) >= 2);
                assert(s.contains(v));
                let k1 = choose|k1: int| 0 <= k1 < s.len() && s[k1] == v;
                assert(s.remove(k1).to_multiset() == s.to_multiset().remove(v));
                assert(s.remove(k1).to_multiset().count(v) >= 1);
                assert(s.remove(k1).contains(v));
                let k2 = choose|k2: int| 0 <= k2 < s.remove(k1).len() && s.remove(k1)[k2] == v;
                if k2 < k1 {
                    assert(s[k2] == v);
                    assert(s[k2].question_id == s[k1].question_id);
                } else {
                    assert(s[k2 + 1] == v);
                    assert(s[k2 + 1].question_id == s[k1].question_id);
                }
                assert(false);
            } else {
                assert(t.to_multiset().contains(t[i]));
                assert(s.contains(t[i]));
                assert(t.to_multiset().contains(t[j]));
                assert(s.contains(t[j]));
                let k1 = choose|k1: int| 0 <= k1 < s.len() && s[k1] == t[i];
                let k2 = choose|k2: int| 0 <= k2 < s.len() && s[k2] == t[j];
                assert(k1 != k2);
                assert(s[k1].question_id == s[k2].question_id);
                assert(false);
            }
        }
    }
}

/// Defensive dedup law: however many rows per question the snapshot held,
/// the presentation order holds at most one row per question id.
pub proof fn lemma_spaced_order_distinct_questions(choices: Seq<Choice>)
    ensures
        distinct_question_ids(spaced_order(choices)),
{
    let glt = order_fn(OrderKind::Grouping);
    let plt = order_fn(OrderKind::Presentation);
    let grouped = sort_by_spec(glt, choices);
    let deduped = dedup_adjacent(grouped);
    lemma_order_fn_wf(OrderKind::Grouping);
    lemma_sort_by_sorted(glt, choices);
    assert forall|i: int, j: int|
        0 <= i < j < grouped.len() implies (#[trigger] grouped[i]).question_id <= (
    #[trigger] grouped[j]).question_id by {
        assert(!glt(grouped[j], grouped[i]));
    }
    lemma_sort_by_len(glt, choices);
    if grouped.len() >= 1 {
        lemma_dedup_prefix_distinct(grouped, grouped.len() as int);
    }
    lemma_sort_by_multiset(plt, deduped);
    lemma_multiset_keeps_distinct_qids(deduped, spaced_order(choices));
}

/// When a choice next becomes presentable: its last-answered instant plus
/// stage units.
pub open spec fn avail_at_of(c: Choice, unit: TimeUnit) -> int {
    c.answered_at.seconds + c.stage * unit_seconds_spec(unit)
}

/// Whether a choice is presentable at the given threshold instant.
pub open spec fn available_with(c: Choice, unit: TimeUnit, threshold: int) -> bool {
    avail_at_of(c, unit) <= threshold
}

/// Availability law: a choice is available exactly when the threshold instant
/// has reached `answered_at + stage * unit`, and stepping the threshold
/// across that boundary flips availability.
pub proof fn lemma_availability_law(c: Choice, unit: TimeUnit)
    ensures
        forall|t: int| available_with(c, unit, t) <==> t >= avail_at_of(c, unit),
        available_with(c, unit, avail_at_of(c, unit)),
        !available_with(c, unit, avail_at_of(c, unit) - 1),
{
}

/// The presentation order of two candidates of which `a` strictly precedes
/// `b`, whichever way they arrive.
proof fn lemma_spaced_order_pair(a: Choice, b: Choice)
    requires
        a.question_id != b.question_id,
        presentation_lt(a, b),
    ensures
        spaced_order(seq![a, b]) =~= seq![a, b],
        spaced_order(seq![b, a]) =~= seq![a, b],
{
    reveal_with_fuel(sort_by_spec, 4);
    reveal_with_fuel(insert_by, 4);
    reveal_with_fuel(dedup_prefix, 4);
    let glt = order_fn(OrderKind::Grouping);
    let plt = order_fn(OrderKind::Presentation);
    assert(seq![a, b].drop_last() =~= seq![a]);
    assert(seq![b, a].drop_last() =~= seq![b]);
    assert(seq![a].drop_last() =~= Seq::<Choice>::empty());
    assert(seq![b].drop_last() =~= Seq::<Choice>::empty());
    assert(sort_by_spec(glt, seq![a]) =~= seq![a]);
    assert(sort_by_spec(glt, seq![b]) =~= seq![b]);
    let gab = sort_by_spec(glt, seq![a, b]);
    let gba = sort_by_spec(glt, seq![b, a]);
    assert(gab =~= if grouping_lt(b, a) {
        seq![b, a]
    } else {
        seq![a, b]
    });
    assert(gba =~= if grouping_lt(a, b) {
        seq![a, b]
    } else {
        seq![b, a]
    });
    assert(dedup_adjacent(seq![a, b]) =~= seq![a, b]);
    assert(dedup_adjacent(seq![b, a]) =~= seq![b, a]);
    assert(sort_by_spec(plt, seq![a]) =~= seq![a]);
    assert(sort_by_spec(plt, seq![b]) =~= seq![b]);
    assert(sort_by_spec(plt, seq![a, b]) =~= seq![a, b]);
    assert(sort_by_spec(plt, seq![b, a]) =~= seq![a, b]);
}

/// Never-attempted-first law: a question with no progress record surfaces
/// with a zero streak and the two-units-ago sentinel, so it is available at
/// once, while a question with the same streak answered at the decision
/// instant is not; and the never-attempted one strictly precedes it in
/// presentation order.  With exactly these two candidates the scheduler
/// therefore serves the never-attempted one, available since one unit before
/// the decision instant.  The decision instant must sit at least two units
/// above the representable range's floor, where the sentinel would clamp.
pub proof fn lemma_unseen_question_selected_first(clock: Clock, row: ChoiceRow, seen: Choice)
    requires
        clock.wf(),
        clock.now.seconds - 2 * unit_seconds_spec(clock.unit) >= MIN_DATE_SECONDS as int,
        row.answer_answered_at is None,
        row.answer_consecutive_correct is None,
        row.answer_state is None,
        seen.wf(),
        seen.consecutive_correct == 0,
        seen.answered_at.seconds == clock.now.seconds,
        seen.question_id != row.question_id,
    ensures
        ({
            let u = row.to_choice_spec(clock);
            let th = clock.now.seconds as int;
            &&& u.consecutive_correct == 0
            &&& avail_at_of(u, clock.unit) == th - unit_seconds_spec(clock.unit)
            &&& available_with(u, clock.unit, th)
            &&& !available_with(seen, clock.unit, th)
            &&& presentation_lt(u, seen)
            &&& spaced_order(seq![seen, u]) =~= seq![u, seen]
            &&& spaced_order(seq![u, seen]) =~= seq![u, seen]
            &&& seq![u, seen].filter(|c: Choice| available_with(c, clock.unit, th)) =~= seq![u]
        }),
{
    let u = row.to_choice_spec(clock);
    let th = clock.now.seconds as int;
    assert(u.answered_at.seconds == th - 2 * unit_seconds_spec(clock.unit));
    assert(u.stage == 1);
    assert(seen.stage == 1);
    lemma_spaced_order_pair(u, seen);
    let p = |c: Choice| available_with(c, clock.unit, th);
    broadcast use vstd::prelude::Seq::lemma_filter_push;

    assert(seq![u, seen] =~= Seq::<Choice>::empty().push(u).push(seen));
    reveal(Seq::filter);
    assert(Seq::<Choice>::empty().filter(p) =~= Seq::<Choice>::empty());
    assert(Seq::<Choice>::empty().push(u).filter(p) =~= seq![u]);
    assert(seq![u, seen].filter(p) =~= seq![u]);
}

/// Equal-candidates tie law: when every candidate carries the same streak
/// and the same last-answered instant, the presentation keys are all equal
/// and the order falls back to question-id order from the grouping pass, so
/// the scheduler serves the candidate with the lowest question id.
pub proof fn lemma_equal_candidates_keep_grouping_order(a: Choice, b: Choice, c: Choice)
    requires
        a.consecutive_correct == b.consecutive_correct,
        b.consecutive_correct == c.consecutive_correct,
        a.answered_at == b.answered_at,
        b.answered_at == c.answered_at,
        a.question_id < b.question_id,
        b.question_id < c.question_id,
    ensures
        spaced_order(seq![a, b, c]) =~= seq![a, b, c],
        spaced_order(seq![a, b, c])[0] == a,
{
    reveal_with_fuel(sort_by_spec, 5);
    reveal_with_fuel(insert_by, 5);
    reveal_with_fuel(dedup_prefix, 5);
    let glt = order_fn(OrderKind::Grouping);
    let plt = order_fn(OrderKind::Presentation);
    assert(seq![a, b, c].drop_last() =~= seq![a, b]);
    assert(seq![a, b].drop_last() =~= seq![a]);
    assert(seq![a].drop_last() =~= Seq::<Choice>::empty());
    assert(sort_by_spec(glt, seq![a]) =~= seq![a]);
    assert(insert_by(glt, b, seq![a]) =~= seq![a, b]) by {
        assert(seq![a].skip(1) =~= Seq::<Choice>::empty());
    }
    assert(sort_by_spec(glt, seq![a, b]) =~= seq![a, b]);
    assert(insert_by(glt, c, seq![a, b]) =~= seq![a, b, c]) by {
        assert(seq![a, b].skip(1) =~= seq![b]);
        assert(seq![b].skip(1) =~= Seq::<Choice>::empty());
    }
    assert(sort_by_spec(glt, seq![a, b, c]) =~= seq![a, b, c]);
    assert(dedup_adjacent(seq![a, b, c]) =~= seq![a, b, c]);
    assert(sort_by_spec(plt, seq![a]) =~= seq![a]);
    assert(insert_by(plt, b, seq![a]) =~= seq![a, b]) by {
        assert(seq![a].skip(1) =~= Seq::<Choice>::empty());
    }
    assert(sort_by_spec(plt, seq![a, b]) =~= seq![a, b]);
    assert(insert_by(plt, c, seq![a, b]) =~= seq![a, b, c]) by {
        assert(seq![a, b].skip(1) =~= seq![b]);
        assert(seq![b].skip(1) =~= Seq::<Choice>::empty());
    }
    assert(sort_by_spec(plt, seq![a, b, c]) =~= seq![a, b, c]);
}

/// A sequence filtered by a predicate that holds everywhere is itself.
proof fn lemma_filter_all_true(s: Seq<Choice>, p: spec_fn(Choice) -> bool)
    requires
        forall|i: int| 0 <= i < s.len() ==> p(#[trigger] s[i]),
    ensures
        s.filter(p) == s,
    decreases s.len(),
{
    reveal(Seq::filter);
    if s.len() > 0 {
        lemma_filter_all_true(s.drop_last(), p);
        assert(p(s.last()));
        assert(s.filter(p) =~= s.drop_last().push(s.last()));
        assert(s.drop_last().push(s.last()) =~= s);
    }
}

/// A policy that turns a snapshot of choices into an ordering and an
/// availability filter; `next_question` is the decision procedure shared by
/// every policy.
pub trait Strategy: Sized {
    /// The snapshot this strategy schedules over.
    spec fn choices_view(&self) -> Seq<Choice>;

    /// Which orderings `to_vec` may produce; a deterministic policy pins the
    /// sequence exactly, a randomized one only its contents.
    spec fn order_ok(&self, s: Seq<Choice>) -> bool;

    /// Whether a choice is currently presentable.
    spec fn is_available(&self, c: Choice) -> bool;

    /// The instant, in seconds, this policy reports a choice as presentable.
    spec fn avail_at_secs(&self, c: Choice) -> int;

    /// The policy's well-formedness: its snapshot and clock are in range.
    spec fn wf(&self) -> bool;

    /// The candidates in priority order, available or not.
    fn to_vec(&self) -> (r: Vec<Choice>)
        requires
            self.wf(),
        ensures
            self.order_ok(r@),
            all_wf(r@),
            (r@.len() == 0) == (self.choices_view().len() == 0),
    ;

    /// The subset of `choices` that is currently presentable, in order.
    fn filter_choices(&self, choices: &Vec<Choice>) -> (r: Vec<Choice>)
        requires
            self.wf(),
            all_wf(choices@),
        ensures
            r@ == choices@.filter(|c: Choice| self.is_available(c)),
    ;

    /// When the given choice becomes presentable.
    fn available_at(&self, choice: &Choice) -> (r: DateTime)
        requires
            self.wf(),
            choice.wf(),
        ensures
            r.seconds == self.avail_at_secs(*choice),
    ;

    /// The shared decision procedure.  Selection law: when any candidate is
    /// available, the first available one is returned, never an unavailable
    /// one.  Fallback law: when none is available but candidates exist, no
    /// question is returned and the reported instant is when the first
    /// candidate in priority order unlocks.  An empty candidate set is a
    /// data-integrity fault and yields an error.
    fn next_question(&self) -> (r: Result<(Option<Choice>, DateTime), Error>)
        requires
            self.wf(),
        ensures
            match r {
                Ok(pair) => exists|total: Seq<Choice>|
                    #[trigger] self.order_ok(total) && all_wf(total) && {
                        let avail = total.filter(|c: Choice| self.is_available(c));
                        match pair.0 {
                            Some(c) => avail.len() > 0 && c == avail[0] && self.is_available(c)
                                && pair.1.seconds == self.avail_at_secs(c),
                            None => total.len() > 0 && avail.len() == 0 && pair.1.seconds
                                == self.avail_at_secs(total[0]),
                        }
                    },
                Err(_) => self.choices_view().len() == 0,
            },
    {
        let total = self.to_vec();
        let available = self.filter_choices(&total);
        if available.len() > 0 {
            let choice = available[0];
            proof {
                let p = |c: Choice| self.is_available(c);
                assert(total@.filter(p)[0] == available@[0]);
                total@.lemma_filter_pred(p, 0);
                broadcast use vstd::prelude::Seq::lemma_filter_contains_rev;

                assert(total@.filter(p).contains(choice));
                assert(total@.contains(choice));
                let k = choose|k: int| 0 <= k < total@.len() && total@[k] == choice;
                assert(total@[k].wf());
            }
            let at = self.available_at(&choice);
            Ok((Some(choice), at))
        } else if total.len() > 0 {
            let next_choice = total[0];
            proof {
                assert(total@[0].wf());
            }
            let at = self.available_at(&next_choice);
            Ok((None, at))
        } else {
            Err(Error::Generic("Expected one or more choices".to_owned()))
        }
    }
}

/// Sorting and dedup keep every row well-formed.
pub proof fn lemma_spaced_order_wf(choices: Seq<Choice>)
    requires
        all_wf(choices),
    ensures
        all_wf(spaced_order(choices)),
{
    let glt = order_fn(OrderKind::Grouping);
    let plt = order_fn(OrderKind::Presentation);
    let grouped = sort_by_spec(glt, choices);
    let deduped = dedup_adjacent(grouped);
    lemma_sort_by_multiset(glt, choices);
    lemma_all_from_multiset(choices, grouped, |c: Choice| c.wf());
    lemma_sort_by_len(glt, choices);
    lemma_dedup_prefix_elements(grouped, grouped.len() as int);
    assert forall|i: int| 0 <= i < deduped.len() implies (#[trigger] deduped[i]).wf() by {
        let j = choose|j: int| 0 <= j < grouped.len() && grouped[j] == deduped[i];
        assert(grouped[j].wf());
    }
    lemma_sort_by_multiset(plt, deduped);
    lemma_all_from_multiset(deduped, spaced_order(choices), |c: Choice| c.wf());
}

/// The production policy.  A question is ready again `stage` units after its
/// last attempt; candidates are presented weakest streak first, and within
/// one streak the longest-waiting question first.  A defensive dedup keeps
/// only the most recently answered row should the snapshot ever hold more
/// than one row per question.
pub struct SpacedRepetition {
    pub choices: Vec<Choice>,
    pub clock: Clock,
    pub unit: TimeUnit,
}

impl SpacedRepetition {
    /// Builds the policy over rows fetched from storage, capturing the
    /// current instant as the decision's threshold.
    pub fn from_rows(choices: Vec<ChoiceRow>, unit: TimeUnit) -> (r: Self)
        requires
            forall|i: int| 0 <= i < choices@.len() ==> (#[trigger] choices@[i]).wf(),
        ensures
            r.unit == unit,
            r.clock.unit == unit,
            r.clock.wf(),
            r.choices@.len() == choices@.len(),
            forall|i: int|
                0 <= i < choices@.len() ==> r.choices@[i] == (#[trigger] choices@[i]).to_choice_spec(
                    r.clock,
                ),
            Strategy::wf(&r),
    {
        let clock = Clock::new(unit);
        let mut converted: Vec<Choice> = Vec::new();
        let mut i: usize = 0;
        while i < choices.len()
            invariant
                i <= choices@.len(),
                clock.wf(),
                forall|j: int| 0 <= j < choices@.len() ==> (#[trigger] choices@[j]).wf(),
                converted@.len() == i,
                forall|j: int|
                    0 <= j < i ==> converted@[j] == (#[trigger] choices@[j]).to_choice_spec(clock),
                forall|j: int| 0 <= j < i ==> (#[trigger] converted@[j]).wf(),
            decreases choices@.len() - i,
        {
            let c = choices[i].to_choice(&clock);
            converted.push(c);
            i = i + 1;
        }
        SpacedRepetition::new(converted, clock, unit)
    }

    /// Builds the policy over an explicit snapshot, clock, and unit.
    pub fn new(choices: Vec<Choice>, clock: Clock, unit: TimeUnit) -> (r: Self)
        ensures
            r.choices == choices,
            r.clock == clock,
            r.unit == unit,
    {
        SpacedRepetition { choices, clock, unit }
    }

    /// Whether `choice` is presentable at this decision's threshold.
    pub fn available(&self, choice: &Choice) -> (r: bool)
        requires
            choice.wf(),
        ensures
            r == available_with(*choice, self.unit, self.clock.now.seconds as int),
    {
        let delta: i64 = (choice.stage as i64) * self.unit.seconds();
        choice.answered_at.seconds + delta <= self.clock.now.seconds
    }
}

impl Strategy for SpacedRepetition {
    open spec fn choices_view(&self) -> Seq<Choice> {
        self.choices@
    }

    open spec fn order_ok(&self, s: Seq<Choice>) -> bool {
        s == spaced_order(self.choices@)
    }

    open spec fn is_available(&self, c: Choice) -> bool {
        available_with(c, self.unit, self.clock.now.seconds as int)
    }

    open spec fn avail_at_secs(&self, c: Choice) -> int {
        avail_at_of(c, self.unit)
    }

    open spec fn wf(&self) -> bool {
        self.clock.wf() && all_wf(self.choices@)
    }

    fn to_vec(&self) -> (r: Vec<Choice>) {
        let grouped = sort_choices(OrderKind::Grouping, &self.choices);
        let deduped = dedup_choices(&grouped);
        let r = sort_choices(OrderKind::Presentation, &deduped);
        proof {
            lemma_spaced_order_wf(self.choices@);
            lemma_spaced_order_len(self.choices@);
        }
        r
    }

    fn filter_choices(&self, choices: &Vec<Choice>) -> (r: Vec<Choice>) {
        broadcast use vstd::prelude::Seq::lemma_filter_push;

        let ghost p = |c: Choice| self.is_available(c);
        let mut r: Vec<Choice> = Vec::new();
        let mut i: usize = 0;
        proof {
            assert(choices@.take(0int).filter(p) =~= Seq::empty());
        }
        while i < choices.len()
            invariant
                i <= choices@.len(),
                all_wf(choices@),
                r@ == choices@.take(i as int).filter(p),
                p == (|c: Choice| self.is_available(c)),
            decreases choices@.len() - i,
        {
            proof {
                assert(choices@.take(i + 1) =~= choices@.take(i as int).push(choices@[i as int]));
                choices@.take(i as int).lemma_filter_push(choices@[i as int], p);
            }
            if self.available(&choices[i]) {
                r.push(choices[i]);
            }
            i = i + 1;
        }
        proof {
            assert(choices@.take(choices@.len() as int) =~= choices@);
        }
        r
    }

    fn available_at(&self, choice: &Choice) -> (r: DateTime) {
        let delta: i64 = (choice.stage as i64) * self.unit.seconds();
        DateTime { seconds: choice.answered_at.seconds + delta }
    }
}

/// Relies on `rand::Rng::gen_range` over the thread-local generator: the
/// result is some index below `n`; which one depends on the generator's
/// state, so nothing more is promised.
#[verifier::external_body]
fn rand_below(n: usize) -> (r: usize)
    requires
        n >= 1,
    ensures
        r < n,
{
    rand::Rng::gen_range(&mut rand::thread_rng(), 0..n)
}

/// The baseline policy: every choice is always presentable, in a fresh
/// uniformly shuffled order, each choice exactly once.
pub struct Random {
    pub choices: Vec<Choice>,
    pub clock: Clock,
}

impl Random {
    /// Builds the policy over rows fetched from storage.
    pub fn from_rows(choices: Vec<ChoiceRow>) -> (r: Self)
        requires
            forall|i: int| 0 <= i < choices@.len() ==> (#[trigger] choices@[i]).wf(),
        ensures
            r.clock.unit == TimeUnit::Days,
            r.clock.wf(),
            r.choices@.len() == choices@.len(),
            forall|i: int|
                0 <= i < choices@.len() ==> r.choices@[i] == (#[trigger] choices@[i]).to_choice_spec(
                    r.clock,
                ),
            Strategy::wf(&r),
    {
        let clock = Clock::new(TimeUnit::Days);
        let mut converted: Vec<Choice> = Vec::new();
        let mut i: usize = 0;
        while i < choices.len()
            invariant
                i <= choices@.len(),
                clock.wf(),
                forall|j: int| 0 <= j < choices@.len() ==> (#[trigger] choices@[j]).wf(),
                converted@.len() == i,
                forall|j: int|
                    0 <= j < i ==> converted@[j] == (#[trigger] choices@[j]).to_choice_spec(clock),
                forall|j: int| 0 <= j < i ==> (#[trigger] converted@[j]).wf(),
            decreases choices@.len() - i,
        {
            let c = choices[i].to_choice(&clock);
            converted.push(c);
            i = i + 1;
        }
        Random { choices: converted, clock }
    }

    /// Builds the policy over an explicit snapshot, capturing the current
    /// instant.
    pub fn new(choices: Vec<Choice>) -> (r: Self)
        ensures
            r.choices == choices,
            r.clock.unit == TimeUnit::Days,
            r.clock.wf(),
    {
        Random { choices, clock: Clock::new(TimeUnit::Days) }
    }
}

impl Strategy for Random {
    open spec fn choices_view(&self) -> Seq<Choice> {
        self.choices@
    }

    open spec fn order_ok(&self, s: Seq<Choice>) -> bool {
        s.to_multiset() == self.choices@.to_multiset()
    }

    open spec fn is_available(&self, c: Choice) -> bool {
        true
    }

    open spec fn avail_at_secs(&self, c: Choice) -> int {
        self.clock.now.seconds as int
    }

    open spec fn wf(&self) -> bool {
        self.clock.wf() && all_wf(self.choices@)
    }

    fn to_vec(&self) -> (r: Vec<Choice>) {
        broadcast use vstd::seq_lib::group_to_multiset_ensures;

        let mut src: Vec<Choice> = Vec::new();
        let mut i: usize = 0;
        while i < self.choices.len()
            invariant
                i <= self.choices@.len(),
                src@ == self.choices@.take(i as int),
            decreases self.choices@.len() - i,
        {
            proof {
                assert(self.choices@.take(i + 1) =~= self.choices@.take(i as int).push(
                    self.choices@[i as int],
                ));
            }
            src.push(self.choices[i]);
            i = i + 1;
        }
        proof {
            assert(self.choices@.take(self.choices@.len() as int) =~= self.choices@);
        }
        let ghost all = self.choices@;
        let mut selected: Vec<Choice> = Vec::new();
        proof {
            assert(Seq::<Choice>::empty().to_multiset() =~= Multiset::empty());
            assert(selected@.to_multiset().add(src@.to_multiset()) =~= all.to_multiset());
        }
        while src.len() > 0
            invariant
                selected@.to_multiset().add(src@.to_multiset()) == all.to_multiset(),
                all_wf(selected@),
                all_wf(src@),
                selected@.len() + src@.len() == all.len(),
                all_wf(all),
            decreases src@.len(),
        {
            broadcast use vstd::seq_lib::group_to_multiset_ensures;

            let ghost pre_sel = selected@;
            let ghost pre_src = src@;
            let j = rand_below(src.len());
            let c = src.remove(j);
            selected.push(c);
            proof {
                assert(pre_src[j as int] == c);
                assert(src@ == pre_src.remove(j as int));
                assert(src@.to_multiset() == pre_src.to_multiset().remove(c));
                assert(selected@.to_multiset() == pre_sel.to_multiset().insert(c));
                assert(pre_src.to_multiset().contains(c));
                assert(selected@.to_multiset().add(src@.to_multiset()) =~= pre_sel.to_multiset().add(
                    pre_src.to_multiset(),
                ));
                assert forall|k: int| 0 <= k < src@.len() implies (#[trigger] src@[k]).wf() by {
                    if k < j {
                        assert(src@[k] == pre_src[k]);
                    } else {
                        assert(src@[k] == pre_src[k + 1]);
                    }
                }
            }
        }
        proof {
            assert(src@.to_multiset() =~= Multiset::empty());
            assert(selected@.to_multiset().add(Multiset::empty()) =~= selected@.to_multiset());
            assert(selected@.to_multiset().len() == selected@.len());
            assert(all.to_multiset().len() == all.len());
        }
        selected
    }

    fn filter_choices(&self, choices: &Vec<Choice>) -> (r: Vec<Choice>) {
        let mut r: Vec<Choice> = Vec::new();
        let mut i: usize = 0;
        while i < choices.len()
            invariant
                i <= choices@.len(),
                r@ == choices@.take(i as int),
            decreases choices@.len() - i,
        {
            proof {
                assert(choices@.take(i + 1) =~= choices@.take(i as int).push(choices@[i as int]));
            }
            r.push(choices[i]);
            i = i + 1;
        }
        proof {
            assert(choices@.take(choices@.len() as int) =~= choices@);
            lemma_filter_all_true(choices@, |c: Choice| self.is_available(c));
        }
        r
    }

    fn available_at(&self, choice: &Choice) -> (r: DateTime) {
        self.clock.threshold()
    }
}

} // verus!
