use munje::choosers::{Choice, ChoiceRow, Clock, Random, SpacedRepetition, State, Strategy, TimeUnit};
use munje::types::DateTime;

#[allow(non_snake_case)]
fn C(id: i64, consecutive_correct: i32, answered_at: DateTime, state: State) -> Choice {
    Choice::new(id, answered_at, consecutive_correct, state)
}

#[test]
fn random_choice() {
    let clock = Clock::new(TimeUnit::Days);
    let chooser = Random::new(vec![
        C(1, 0, clock.ticks(0), State::Unseen),
        C(2, 0, clock.ticks(0), State::Correct),
        C(3, 0, clock.ticks(0), State::Incorrect),
    ]);
    assert_eq!(1, chooser.to_vec().iter().take(1).len());
}

#[test]
fn next_question() {
    let clock = Clock::new(TimeUnit::Days);
    let chooser = Random::new(vec![
        C(1, 0, clock.ticks(0), State::Unseen),
        C(2, 0, clock.ticks(0), State::Correct),
        C(3, 0, clock.ticks(0), State::Incorrect),
    ]);
    let (question, _) = chooser.next_question().unwrap();
    assert_ne!(None, question);
}

#[test]
fn spaced_repetition() {
    let clock = Clock::new(TimeUnit::Minutes);

    let unseen_row = |id: i64| ChoiceRow {
        question_id: id,
        answer_answered_at: None,
        answer_consecutive_correct: None,
        answer_state: None,
    };

    let cases: Vec<(&str, Vec<Choice>, (Option<usize>, DateTime))> = vec![
        (
            "A simple case",
            vec![
                C(0, 0, clock.ticks(1), State::Unseen),
                C(1, 2, clock.ticks(-1), State::Correct),
                C(2, 0, clock.ticks(-2), State::Incorrect),
            ],
            (Some(2), clock.ticks(-1)),
        ),
        (
            "When a question is not ready to work on yet",
            vec![C(1, 2, clock.ticks(0), State::Correct)],
            (None, clock.ticks(4)),
        ),
        (
            "When there are several questions that are ready to work on",
            vec![
                C(0, 1, clock.ticks(-2), State::Correct),
                C(1, 2, clock.ticks(-3), State::Correct),
                C(2, 3, clock.ticks(-10), State::Correct),
            ],
            (Some(0), clock.ticks(0)),
        ),
        (
            "When there are several questions, none of which is ready to work on",
            vec![
                C(0, 1, clock.ticks(0), State::Correct),
                C(1, 2, clock.ticks(0), State::Correct),
                C(2, 3, clock.ticks(0), State::Correct),
            ],
            (None, clock.ticks(2)),
        ),
        (
            "When there is more than one choice for the same question",
            vec![
                C(0, 1, clock.ticks(0), State::Correct),
                C(0, 0, clock.ticks(-1), State::Incorrect),
                C(0, 0, clock.ticks(-2), State::Incorrect),
            ],
            (None, clock.ticks(2)),
        ),
        (
            "Another case where no questions are ready",
            vec![
                C(0, 1, clock.ticks(0), State::Correct),
                C(1, 1, clock.ticks(-1), State::Correct),
                C(2, 4, clock.ticks(-1), State::Correct),
            ],
            (None, clock.ticks(1)),
        ),
        (
            "A third case where no questions are ready",
            vec![
                C(0, 1, clock.ticks(0), State::Correct),
                C(1, 1, clock.ticks(-1), State::Correct),
                C(2, 4, clock.ticks(-1), State::Correct),
            ],
            (None, clock.ticks(1)),
        ),
        (
            "When there are no answers in the queue yet",
            vec![
                unseen_row(0).to_choice(&clock),
                unseen_row(1).to_choice(&clock),
            ],
            (Some(0), clock.ticks(-1)),
        ),
    ];

    for (name, choices, expected) in cases {
        let chooser = SpacedRepetition::new(choices.clone(), clock.clone(), TimeUnit::Minutes);

        let (choice, available_at) = chooser.next_question().unwrap();
        let expected_choice = match expected.0 {
            Some(index) => Some(choices[index].clone()),
            None => None,
        };

        assert_eq!(expected_choice, choice, "{}", name);
        assert_eq!(expected.1, available_at, "{}", name);
    }
}

#[test]
fn three_equal_unseen_choices_pick_the_first() {
    let clock = Clock::new(TimeUnit::Minutes);
    let choices = vec![
        C(1, 0, clock.ticks(-2), State::Unseen),
        C(2, 0, clock.ticks(-2), State::Unseen),
        C(3, 0, clock.ticks(-2), State::Unseen),
    ];
    for c in &choices {
        assert_eq!(1, c.stage);
    }
    let chooser = SpacedRepetition::new(choices.clone(), clock, TimeUnit::Minutes);
    let (choice, available_at) = chooser.next_question().unwrap();
    assert_eq!(Some(choices[0].clone()), choice);
    assert_eq!(clock.ticks(-1), available_at);
}

#[test]
fn single_choice_not_yet_due_reports_unlock_instant() {
    let clock = Clock::new(TimeUnit::Minutes);
    let choice = C(7, 2, clock.ticks(0), State::Correct);
    assert_eq!(4, choice.stage);
    let chooser = SpacedRepetition::new(vec![choice], clock, TimeUnit::Minutes);
    let (selected, available_at) = chooser.next_question().unwrap();
    assert_eq!(None, selected);
    assert_eq!(clock.ticks(4), available_at);
}

#[test]
fn overdue_choices_pick_weakest_streak() {
    let clock = Clock::new(TimeUnit::Minutes);
    let choices = vec![
        C(0, 1, clock.ticks(-2), State::Correct),
        C(1, 2, clock.ticks(-3), State::Correct),
        C(2, 3, clock.ticks(-10), State::Correct),
    ];
    let chooser = SpacedRepetition::new(choices.clone(), clock, TimeUnit::Minutes);
    let (choice, available_at) = chooser.next_question().unwrap();
    assert_eq!(Some(choices[0].clone()), choice);
    assert_eq!(clock.ticks(0), available_at);
}

#[test]
fn never_attempted_question_is_selected_before_non_overdue_peer() {
    let clock = Clock::new(TimeUnit::Minutes);
    let unseen = ChoiceRow {
        question_id: 10,
        answer_answered_at: None,
        answer_consecutive_correct: None,
        answer_state: None,
    }
    .to_choice(&clock);
    assert_eq!(0, unseen.consecutive_correct);
    let seen = C(11, 0, clock.ticks(0), State::Incorrect);
    let chooser =
        SpacedRepetition::new(vec![seen.clone(), unseen.clone()], clock, TimeUnit::Minutes);
    let (choice, _) = chooser.next_question().unwrap();
    assert_eq!(Some(unseen), choice);
}

#[test]
fn availability_flips_across_the_boundary() {
    let clock = Clock::new(TimeUnit::Minutes);
    let not_due = C(1, 0, clock.ticks(0), State::Incorrect);
    let just_due = C(2, 0, clock.ticks(-1), State::Incorrect);
    let chooser = SpacedRepetition::new(vec![], clock, TimeUnit::Minutes);
    assert!(!chooser.available(&not_due));
    assert!(chooser.available(&just_due));
}

#[test]
fn empty_candidate_set_is_an_error() {
    let clock = Clock::new(TimeUnit::Minutes);
    let chooser = SpacedRepetition::new(vec![], clock, TimeUnit::Minutes);
    assert!(chooser.next_question().is_err());
}

#[test]
fn random_shuffle_keeps_every_choice_once() {
    let clock = Clock::new(TimeUnit::Days);
    let choices = vec![
        C(1, 0, clock.ticks(0), State::Unseen),
        C(2, 1, clock.ticks(-1), State::Correct),
        C(3, 2, clock.ticks(-2), State::Incorrect),
        C(4, 3, clock.ticks(-3), State::Unknown),
    ];
    let chooser = Random::new(choices.clone());
    let mut shuffled = chooser.to_vec();
    assert_eq!(choices.len(), shuffled.len());
    shuffled.sort_by_key(|c| c.question_id);
    assert_eq!(choices, shuffled);
}

#[test]
fn stage_from_doubles_per_correct_answer() {
    assert_eq!(1, Choice::stage_from(-5));
    assert_eq!(1, Choice::stage_from(0));
    assert_eq!(2, Choice::stage_from(1));
    assert_eq!(8, Choice::stage_from(3));
    assert_eq!(1024, Choice::stage_from(10));
    assert_eq!(1 << 30, Choice::stage_from(30));
    assert_eq!(1 << 30, Choice::stage_from(31));
    assert_eq!(1 << 30, Choice::stage_from(2_000_000_000));
}

#[test]
fn state_from_maps_known_spellings() {
    assert_eq!(State::Unseen, State::from(Some("unseen".to_string())));
    assert_eq!(State::Correct, State::from(Some("correct".to_string())));
    assert_eq!(State::Incorrect, State::from(Some("incorrect".to_string())));
    assert_eq!(State::Unknown, State::from(Some("garbled".to_string())));
    assert_eq!(State::Unknown, State::from(Some("Correct".to_string())));
    assert_eq!(State::Unknown, State::from(None));
}

#[test]
fn ticks_counts_in_configured_units() {
    let now = DateTime { seconds: 1_000_000 };
    let minutes = Clock::at(now, TimeUnit::Minutes);
    assert_eq!(1_000_060, minutes.ticks(1).seconds);
    assert_eq!(999_880, minutes.ticks(-2).seconds);
    let days = Clock::at(now, TimeUnit::Days);
    assert_eq!(1_086_400, days.ticks(1).seconds);
    assert_eq!(now, days.threshold());
}
