use munje::choosers::{Clock, TimeUnit};
use munje::questions::{CreateQuestion, Question};
use munje::queues::{AnswerQuestion, AnswerQuestionForm, CreateQueue, Queue, WideAnswer};
use munje::store::Store;
use munje::types::DateTime;

fn store_with_question() -> (Store, Question) {
    let mut store = Store::new();
    let question = Question::create(
        CreateQuestion {
            author_id: 1,
            title: "Two sum".to_string(),
            link: "https://example.com/two-sum".to_string(),
            link_logo: None,
        },
        &mut store,
    )
    .unwrap();
    (store, question)
}

fn queue_for(store: &mut Store, question: &Question, user_id: i64) -> Queue {
    Queue::find_or_create(
        CreateQueue {
            description: "practice".to_string(),
            starting_question_external_id: question.external_id.clone(),
            title: "practice".to_string(),
            user_id,
        },
        store,
    )
    .unwrap()
    .record
}

fn answer(store: &mut Store, queue: &Queue, question: &Question, state: &str, clock: &Clock) {
    queue
        .answer_question(
            AnswerQuestion {
                question_external_id: question.external_id.clone(),
                queue_id: queue.id,
                state: state.to_string(),
                user_id: queue.user_id,
            },
            store,
            clock,
        )
        .unwrap();
}

#[test]
fn question_create_builds_text_around_link() {
    let (store, question) = store_with_question();
    assert_eq!(
        "Complete the challenge at [this link](https://example.com/two-sum). \
         When you're done, come back to this question and indicate whether you solved the problem.",
        question.text.text,
    );
    assert_eq!(1, store.questions.len());
    let found = Question::find(&question.external_id, &store).unwrap();
    assert_eq!(question.id, found.id);
    let by_id = Question::find_by_id(question.id, &store).unwrap();
    assert_eq!(question.external_id, by_id.external_id);
}

#[test]
fn find_or_create_queue_is_idempotent() {
    let (mut store, question) = store_with_question();

    let first = Queue::find_or_create(
        CreateQueue {
            description: "practice".to_string(),
            starting_question_external_id: question.external_id.clone(),
            title: "practice".to_string(),
            user_id: 42,
        },
        &mut store,
    )
    .unwrap();
    assert!(first.created);

    let second = Queue::find_or_create(
        CreateQueue {
            description: "practice".to_string(),
            starting_question_external_id: question.external_id.clone(),
            title: "practice".to_string(),
            user_id: 42,
        },
        &mut store,
    )
    .unwrap();
    assert!(!second.created);
    assert_eq!(first.record.id, second.record.id);
    assert_eq!(1, store.queues.len());

    let other_user = Queue::find_or_create(
        CreateQueue {
            description: "practice".to_string(),
            starting_question_external_id: question.external_id.clone(),
            title: "practice".to_string(),
            user_id: 43,
        },
        &mut store,
    )
    .unwrap();
    assert!(other_user.created);
    assert_eq!(2, store.queues.len());
}

#[test]
fn queue_find_by_external_id() {
    let (mut store, question) = store_with_question();
    let queue = queue_for(&mut store, &question, 42);
    let found = Queue::find(&queue.external_id, &store).unwrap();
    assert_eq!(queue.id, found.id);
    assert!(Queue::find("missing", &store).is_err());
}

#[test]
fn one_last_answer_row_per_triple() {
    let (mut store, question) = store_with_question();
    let queue = queue_for(&mut store, &question, 42);
    let clock = Clock::new(TimeUnit::Minutes);

    answer(&mut store, &queue, &question, "correct", &clock);
    answer(&mut store, &queue, &question, "incorrect", &clock);
    answer(&mut store, &queue, &question, "unsure", &clock);
    answer(&mut store, &queue, &question, "correct", &clock);

    let matching = store
        .last_answers
        .iter()
        .filter(|la| {
            la.user_id == queue.user_id
                && la.queue_id == queue.id
                && la.question_id == question.id
        })
        .count();
    assert_eq!(1, matching);
    assert_eq!(4, store.answers.len());
}

#[test]
fn correct_answer_extends_the_streak() {
    let (mut store, question) = store_with_question();
    let queue = queue_for(&mut store, &question, 42);
    let clock = Clock::new(TimeUnit::Minutes);

    answer(&mut store, &queue, &question, "correct", &clock);
    assert_eq!(1, store.last_answers[0].answer_consecutive_correct);
    assert_eq!(2, store.last_answers[0].stage);

    answer(&mut store, &queue, &question, "correct", &clock);
    assert_eq!(2, store.last_answers[0].answer_consecutive_correct);
    assert_eq!(4, store.last_answers[0].stage);
    assert_eq!("correct", store.last_answers[0].answer_state);
}

#[test]
fn incorrect_answer_resets_the_streak() {
    let (mut store, question) = store_with_question();
    let queue = queue_for(&mut store, &question, 42);
    let clock = Clock::new(TimeUnit::Minutes);

    for _ in 0..5 {
        answer(&mut store, &queue, &question, "correct", &clock);
    }
    assert_eq!(5, store.last_answers[0].answer_consecutive_correct);
    assert_eq!(32, store.last_answers[0].stage);

    answer(&mut store, &queue, &question, "incorrect", &clock);
    assert_eq!(0, store.last_answers[0].answer_consecutive_correct);
    assert_eq!(1, store.last_answers[0].stage);
}

#[test]
fn too_hard_answer_resets_the_streak() {
    let (mut store, question) = store_with_question();
    let queue = queue_for(&mut store, &question, 42);
    let clock = Clock::new(TimeUnit::Minutes);

    answer(&mut store, &queue, &question, "correct", &clock);
    answer(&mut store, &queue, &question, "unsure", &clock);
    assert_eq!(0, store.last_answers[0].answer_consecutive_correct);
    assert_eq!(1, store.last_answers[0].stage);
}

#[test]
fn next_question_serves_fresh_question_immediately() {
    let (mut store, question) = store_with_question();
    let queue = queue_for(&mut store, &question, 42);
    let clock = Clock::new(TimeUnit::Minutes);

    let verdict = queue.next_question(&store, &clock).unwrap();
    let served = verdict.question.expect("expected a question to be served");
    assert_eq!(question.id, served.id);
}

#[test]
fn next_question_waits_after_correct_answer() {
    let (mut store, question) = store_with_question();
    let queue = queue_for(&mut store, &question, 42);
    let clock = Clock::new(TimeUnit::Minutes);

    answer(&mut store, &queue, &question, "correct", &clock);
    let verdict = queue.next_question(&store, &clock).unwrap();
    assert!(verdict.question.is_none());
    assert_eq!(clock.ticks(2), verdict.next_available_at);
}

#[test]
fn next_question_on_empty_store_is_an_error() {
    let store = Store::new();
    let queue = Queue {
        created_at: DateTime { seconds: 0 },
        description: None,
        external_id: "q".to_string(),
        id: 1,
        starting_question_id: 1,
        title: "t".to_string(),
        updated_at: DateTime { seconds: 0 },
        user_id: 1,
    };
    let clock = Clock::new(TimeUnit::Minutes);
    assert!(queue.next_question(&store, &clock).is_err());
}

#[test]
fn answers_lists_only_this_queue() {
    let (mut store, question) = store_with_question();
    let queue = queue_for(&mut store, &question, 42);
    let other = queue_for(&mut store, &question, 43);
    let clock = Clock::new(TimeUnit::Minutes);

    answer(&mut store, &queue, &question, "correct", &clock);
    answer(&mut store, &other, &question, "incorrect", &clock);

    let mine = queue.answers(&store).unwrap();
    assert_eq!(1, mine.len());
    assert_eq!("correct", mine[0].state);
    assert_eq!(queue.id, mine[0].queue_id);
}

#[test]
fn answering_unknown_question_changes_nothing() {
    let (mut store, question) = store_with_question();
    let queue = queue_for(&mut store, &question, 42);
    let clock = Clock::new(TimeUnit::Minutes);

    let result = queue.answer_question(
        AnswerQuestion {
            question_external_id: "missing".to_string(),
            queue_id: queue.id,
            state: "correct".to_string(),
            user_id: queue.user_id,
        },
        &mut store,
        &clock,
    );
    assert!(result.is_err());
    assert!(store.answers.is_empty());
    assert!(store.last_answers.is_empty());
}

#[test]
fn translated_state_maps_outcomes() {
    let correct = AnswerQuestionForm { state: "Correct".to_string() };
    assert_eq!("correct", correct.translated_state().unwrap());
    let incorrect = AnswerQuestionForm { state: "Incorrect".to_string() };
    assert_eq!("incorrect", incorrect.translated_state().unwrap());
    let unsure = AnswerQuestionForm { state: "Too hard".to_string() };
    assert_eq!("unsure", unsure.translated_state().unwrap());
    let bogus = AnswerQuestionForm { state: "Shrug".to_string() };
    assert!(bogus.translated_state().is_err());
}

#[test]
fn wide_answer_tags() {
    let wide = WideAnswer {
        answer_id: 1,
        answer_state: "unsure".to_string(),
        answer_answered_at: DateTime { seconds: 0 },
        answer_consecutive_correct: 3,
        question_title: "t".to_string(),
        question_text: "x".to_string(),
        question_link: None,
        question_id: 1,
        queue_id: 1,
    };
    assert_eq!("is-info", wide.tag_class());
    assert_eq!("Too hard", wide.tag_text());
    assert_eq!(8, wide.answer_stage());

    let correct = WideAnswer { answer_state: "correct".to_string(), ..wide };
    assert_eq!("is-success", correct.tag_class());
    assert_eq!("Correct", correct.tag_text());

    let unstarted = WideAnswer { answer_state: "unstarted".to_string(), ..correct };
    assert_eq!("", unstarted.tag_class());
    assert_eq!("Not answered", unstarted.tag_text());
}

#[test]
fn mutation_answer_question_resolves_identifiers() {
    let (mut store, question) = store_with_question();
    let mut form = munje::mutations::RegisterUser::new("gnusto", "password1", "password1");
    assert!(form.validate());
    let user = munje::users::User::register(&form, &mut store).unwrap();
    let queue = queue_for(&mut store, &question, user.id);
    let clock = Clock::new(TimeUnit::Minutes);

    let mutation = munje::mutations::AnswerQuestion {
        handle: "gnusto".to_string(),
        question_external_id: question.external_id.clone(),
        queue_external_id: queue.external_id.clone(),
        state: "correct".to_string(),
    };
    assert!(mutation.validate());
    mutation.call(&mut store, &clock).unwrap();
    assert_eq!(1, store.answers.len());
    assert_eq!(user.id, store.answers[0].user_id);
    assert_eq!(1, store.last_answers[0].answer_consecutive_correct);
}

#[test]
fn recent_answers_lists_most_recent_first_capped_at_six() {
    let (mut store, question) = store_with_question();
    let queue = queue_for(&mut store, &question, 42);
    let clock = Clock::new(TimeUnit::Minutes);

    for _ in 0..8 {
        answer(&mut store, &queue, &question, "correct", &clock);
    }

    let recent = queue.recent_answers(&store).unwrap();
    assert_eq!(6, recent.len());
    for pair in recent.windows(2) {
        assert!(pair[0].answer_answered_at.seconds >= pair[1].answer_answered_at.seconds);
    }
    assert_eq!(queue.id, recent[0].queue_id);
    assert_eq!("Two sum", recent[0].question_title);
}

#[test]
fn find_all_lists_newest_question_first() {
    let (mut store, first) = store_with_question();
    let second = Question::create(
        CreateQuestion {
            author_id: 1,
            title: "Three sum".to_string(),
            link: "https://example.com/three-sum".to_string(),
            link_logo: None,
        },
        &mut store,
    )
    .unwrap();

    let all = Question::find_all(&store).unwrap();
    assert_eq!(2, all.len());
    assert_eq!(second.id, all[0].id);
    assert_eq!(first.id, all[1].id);
}

#[test]
fn answer_find_and_question_lookup() {
    let (mut store, question) = store_with_question();
    let queue = queue_for(&mut store, &question, 42);
    let clock = Clock::new(TimeUnit::Minutes);
    answer(&mut store, &queue, &question, "correct", &clock);

    let recorded = store.answers[0].clone();
    let found = munje::queues::Answer::find(recorded.external_id.clone(), &store).unwrap();
    assert_eq!(recorded.id, found.id);
    let q = found.question(&store).unwrap();
    assert_eq!(question.id, q.id);
    assert!(munje::queues::Answer::find("missing".to_string(), &store).is_err());
}

#[test]
fn user_queues_lists_only_their_own() {
    let (mut store, question) = store_with_question();
    let mine = queue_for(&mut store, &question, 42);
    queue_for(&mut store, &question, 43);

    let me = munje::users::User { id: 42, ..munje::users::User::default() };
    let queues = me.queues(&store).unwrap();
    assert_eq!(1, queues.len());
    assert_eq!(mine.id, queues[0].id);
}

#[test]
fn humanized_instants_render_some_phrase() {
    let (mut store, question) = store_with_question();
    let queue = queue_for(&mut store, &question, 42);
    let clock = Clock::new(TimeUnit::Minutes);
    answer(&mut store, &queue, &question, "correct", &clock);

    let verdict = queue.next_question(&store, &clock).unwrap();
    assert!(!verdict.available_at().is_empty());
    assert!(!DateTime { seconds: 0 }.humanize().is_empty());
}

#[test]
fn last_answer_points_at_the_newest_answer_row() {
    let (mut store, question) = store_with_question();
    let queue = queue_for(&mut store, &question, 42);
    let clock = Clock::new(TimeUnit::Minutes);

    answer(&mut store, &queue, &question, "correct", &clock);
    let first_row_id = store.last_answers[0].id;
    assert_eq!(store.answers.last().unwrap().id, store.last_answers[0].answer_id);

    answer(&mut store, &queue, &question, "incorrect", &clock);
    assert_eq!(store.answers.last().unwrap().id, store.last_answers[0].answer_id);
    assert_eq!(first_row_id, store.last_answers[0].id);
    assert_eq!(1, store.last_answers.len());
}
