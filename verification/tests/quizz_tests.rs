use trivia_core::errors::GameError;
use trivia_core::output::{Notification, OutputPipe};
use trivia_core::quizz::{CooldownStep, Question, Quizz, QuizzDefinition, Settings};

fn two_question_quiz() -> QuizzDefinition {
    QuizzDefinition {
        questions: vec![
            Question {
                prompt: b"1+1?".to_vec(),
                answers: vec![b"2".to_vec(), b"two".to_vec()],
                score_value: 5,
            },
            Question {
                prompt: b"2+2?".to_vec(),
                answers: vec![b"4".to_vec()],
                score_value: 5,
            },
        ],
    }
}

#[test]
fn cooldown_step_counts_elapsed_time() {
    let mut step = CooldownStep::new(100);
    assert!(!step.is_over());
    step.tick(40);
    assert!(!step.is_over());
    step.tick(60);
    assert!(step.is_over());
}

#[test]
fn cooldown_step_saturates_instead_of_wrapping() {
    let mut step = CooldownStep::new(u64::MAX);
    step.tick(u64::MAX);
    step.tick(u64::MAX);
    assert!(step.is_over());
    assert_eq!(step.time_elapsed, u64::MAX);
}

#[test]
fn load_rejects_missing_and_empty_definitions() {
    assert!(matches!(Quizz::load(None), Err(GameError::LoadError)));
    assert!(matches!(
        Quizz::load(Some(QuizzDefinition { questions: vec![] })),
        Err(GameError::LoadError)
    ));
    assert!(Quizz::load(Some(two_question_quiz())).is_ok());
}

#[test]
fn quiz_walks_both_questions_then_ends() {
    let s = Settings::default();
    let mut quiz = Quizz::load(Some(two_question_quiz())).unwrap();
    let mut pipe = OutputPipe::new(1, 100);

    let mut prompts: Vec<Vec<u8>> = Vec::new();
    // Two full rounds: cooldown, question, vote, wager, results.
    for _round in 0..2 {
        quiz.tick(s.cooldown_ms, &mut pipe);
        for n in pipe.take_notifications() {
            if let Notification::NewQuestion { prompt } = n {
                prompts.push(prompt);
            }
        }
        quiz.tick(s.question_ms, &mut pipe);
        quiz.tick(s.vote_ms, &mut pipe);
        quiz.tick(s.wager_ms, &mut pipe);
        assert!(!quiz.is_over());
        quiz.tick(s.results_ms, &mut pipe);
    }
    assert!(quiz.is_over());
    assert_eq!(prompts, vec![b"1+1?".to_vec(), b"2+2?".to_vec()]);
    let notes = pipe.take_notifications();
    assert!(notes.iter().any(|n| matches!(n, Notification::QuizEnded)));

    // A finished quiz ignores further time.
    quiz.tick(s.cooldown_ms, &mut pipe);
    assert!(pipe.take_notifications().is_empty());
}

#[test]
fn partial_ticks_accumulate() {
    let s = Settings::default();
    let mut quiz = Quizz::load(Some(two_question_quiz())).unwrap();
    let mut pipe = OutputPipe::new(1, 100);
    quiz.tick(s.cooldown_ms - 1, &mut pipe);
    assert!(pipe.take_notifications().is_empty());
    quiz.tick(1, &mut pipe);
    let notes = pipe.take_notifications();
    assert!(notes.iter().any(|n| matches!(n, Notification::NewQuestion { .. })));
}
