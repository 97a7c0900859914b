use trivia_core::errors::GameError;
use trivia_core::game::Game;
use trivia_core::output::{Notification, OutputPipe, TeamChannel};
use trivia_core::quizz::{GuessOutcome, Question, QuizzDefinition, Settings};
use trivia_core::team::{TeamId, TeamRegistry};

fn make_game() -> Game {
    Game::new(OutputPipe::new(1, 100), TeamRegistry::new())
}

fn one_question_quiz() -> QuizzDefinition {
    QuizzDefinition {
        questions: vec![Question {
            prompt: b"Capital of France?".to_vec(),
            answers: vec![b"Paris".to_vec()],
            score_value: 10,
        }],
    }
}

fn team_score(game: &Game, name: &[u8]) -> Option<i32> {
    game.get_teams()
        .iter()
        .find(|t| t.id.name().as_slice() == name)
        .map(|t| t.score)
}

#[test]
fn full_round_scenario() {
    let s = Settings::default();
    let mut game = make_game();
    game.join_team(1, b"Red").unwrap();
    let teams = game.get_teams();
    assert_eq!(teams.len(), 1);
    assert_eq!(teams[0].players, vec![1]);

    assert!(game.begin(Some(one_question_quiz())).is_ok());
    let notes = game.take_notifications();
    assert!(notes.iter().any(|n| matches!(n, Notification::QuizStarted)));

    // Cooldown elapses: the question is posed.
    game.tick(s.cooldown_ms);
    let notes = game.take_notifications();
    assert!(notes
        .iter()
        .any(|n| matches!(n, Notification::NewQuestion { prompt } if prompt == b"Capital of France?")));

    // A correct guess scores once.
    assert_eq!(game.guess(1, b"paris"), Ok(GuessOutcome::Correct));
    assert_eq!(team_score(&game, b"red"), Some(10));
    let notes = game.take_notifications();
    assert!(notes
        .iter()
        .any(|n| matches!(n, Notification::CorrectGuess { new_score: 10, .. })));

    // The same team guessing again scores nothing more.
    assert_eq!(game.guess(1, b"Paris"), Ok(GuessOutcome::AlreadyAnswered));
    assert_eq!(team_score(&game, b"red"), Some(10));

    // Run out the remaining steps: question, vote, wager, results.
    game.tick(s.question_ms);
    game.tick(s.vote_ms);
    game.tick(s.wager_ms);
    game.tick(s.results_ms);
    let notes = game.take_notifications();
    assert!(notes.iter().any(|n| matches!(n, Notification::VoteStarted)));
    assert!(notes.iter().any(|n| matches!(n, Notification::WagerStarted)));
    assert!(notes.iter().any(|n| matches!(n, Notification::ResultsStarted)));
    assert!(notes.iter().any(|n| matches!(n, Notification::QuizEnded)));

    // The queue is exhausted: back to setup, so a new quiz may begin.
    assert!(game.begin(Some(one_question_quiz())).is_ok());
}

#[test]
fn begin_twice_is_wrong_phase() {
    let s = Settings::default();
    let mut game = make_game();
    game.join_team(1, b"Red").unwrap();
    game.begin(Some(one_question_quiz())).unwrap();
    game.tick(s.cooldown_ms);
    game.take_notifications();

    assert_eq!(game.begin(Some(one_question_quiz())), Err(GameError::WrongPhase));

    // The running quiz is untouched: the posed question still accepts the
    // answer, and no stray notification was produced by the failed begin.
    assert!(game.take_notifications().is_empty());
    assert_eq!(game.guess(1, b"paris"), Ok(GuessOutcome::Correct));
}

#[test]
fn begin_load_failures_mutate_nothing() {
    let mut game = make_game();
    game.join_team(1, b"Red").unwrap();
    game.take_notifications();
    assert_eq!(game.begin(None), Err(GameError::LoadError));
    assert_eq!(
        game.begin(Some(QuizzDefinition { questions: vec![] })),
        Err(GameError::LoadError)
    );
    assert!(game.take_notifications().is_empty());
    // Still in setup: a proper begin works.
    assert!(game.begin(Some(one_question_quiz())).is_ok());
}

#[test]
fn guess_outside_question_phase_changes_no_score() {
    let mut game = make_game();
    game.join_team(1, b"Red").unwrap();

    // No quiz at all.
    assert_eq!(game.guess(1, b"paris"), Err(GameError::WrongPhase));
    assert_eq!(team_score(&game, b"red"), Some(0));

    // Quiz running but still in cooldown.
    game.begin(Some(one_question_quiz())).unwrap();
    assert_eq!(game.guess(1, b"paris"), Err(GameError::WrongPhase));
    assert_eq!(team_score(&game, b"red"), Some(0));
}

#[test]
fn guess_without_team_fails() {
    let s = Settings::default();
    let mut game = make_game();
    game.join_team(1, b"Red").unwrap();
    game.begin(Some(one_question_quiz())).unwrap();
    game.tick(s.cooldown_ms);
    assert_eq!(game.guess(99, b"paris"), Err(GameError::NotOnTeam));
}

#[test]
fn wrong_guess_changes_nothing() {
    let s = Settings::default();
    let mut game = make_game();
    game.join_team(1, b"Red").unwrap();
    game.begin(Some(one_question_quiz())).unwrap();
    game.tick(s.cooldown_ms);
    assert_eq!(game.guess(1, b"London"), Ok(GuessOutcome::Incorrect));
    assert_eq!(team_score(&game, b"red"), Some(0));
    // A wrong guess does not lock the team out.
    assert_eq!(game.guess(1, b" PARIS  "), Ok(GuessOutcome::Correct));
    assert_eq!(team_score(&game, b"red"), Some(10));
}

#[test]
fn team_switch_locked_during_quiz() {
    let mut game = make_game();
    game.join_team(1, b"Red").unwrap();
    game.begin(Some(one_question_quiz())).unwrap();
    assert_eq!(game.join_team(1, b"Blue"), Err(GameError::TeamLocked));
    // A player not yet on a team may still join mid-quiz.
    assert!(game.join_team(2, b"Blue").is_ok());
    assert_eq!(game.get_teams().len(), 2);
}

#[test]
fn pause_notifies_exactly_once() {
    let mut game = make_game();
    game.take_notifications();
    game.pause();
    game.pause();
    let notes = game.take_notifications();
    let paused = notes
        .iter()
        .filter(|n| matches!(n, Notification::GamePaused))
        .count();
    assert_eq!(paused, 1);
    assert_eq!(notes.len(), 1);

    game.unpause();
    game.unpause();
    let notes = game.take_notifications();
    let unpaused = notes
        .iter()
        .filter(|n| matches!(n, Notification::GameUnpaused))
        .count();
    assert_eq!(unpaused, 1);
    assert_eq!(notes.len(), 1);

    // Unpausing a game that was never paused emits nothing.
    game.unpause();
    assert!(game.take_notifications().is_empty());
}

#[test]
fn paused_game_does_not_tick() {
    let s = Settings::default();
    let mut game = make_game();
    game.join_team(1, b"Red").unwrap();
    game.begin(Some(one_question_quiz())).unwrap();
    game.take_notifications();
    game.pause();
    game.take_notifications();
    game.tick(s.cooldown_ms);
    assert!(game.take_notifications().is_empty());
    game.unpause();
    game.take_notifications();
    game.tick(s.cooldown_ms);
    let notes = game.take_notifications();
    assert!(notes.iter().any(|n| matches!(n, Notification::NewQuestion { .. })));
}

#[test]
fn skip_forces_the_next_step() {
    let mut game = make_game();
    assert_eq!(game.skip(), Err(GameError::WrongPhase));
    game.join_team(1, b"Red").unwrap();
    game.begin(Some(one_question_quiz())).unwrap();
    game.take_notifications();
    // Skip out of cooldown without any time passing.
    game.skip().unwrap();
    let notes = game.take_notifications();
    assert!(notes.iter().any(|n| matches!(n, Notification::NewQuestion { .. })));
    assert_eq!(game.guess(1, b"paris"), Ok(GuessOutcome::Correct));
}

#[test]
fn adjust_score_broadcasts_new_total() {
    let mut game = make_game();
    game.join_team(1, b"Red").unwrap();
    game.take_notifications();
    let id = TeamId::TeamName(b"red".to_vec());
    assert!(game.adjust_score(id, 7).is_ok());
    let notes = game.take_notifications();
    assert!(notes
        .iter()
        .any(|n| matches!(n, Notification::ScoreAdjusted { new_score: 7, .. })));
    assert_eq!(team_score(&game, b"red"), Some(7));
}

#[test]
fn adjust_score_missing_team_is_not_found() {
    let mut game = make_game();
    game.take_notifications();
    let id = TeamId::TeamName(b"ghost".to_vec());
    assert_eq!(game.adjust_score(id, 7), Err(GameError::NotFound));
    assert!(game.take_notifications().is_empty());
}

#[test]
fn resets_broadcast() {
    let mut game = make_game();
    game.join_team(1, b"Red").unwrap();
    let id = TeamId::TeamName(b"red".to_vec());
    game.adjust_score(id, 3).unwrap();
    game.take_notifications();
    game.reset_scores();
    assert_eq!(team_score(&game, b"red"), Some(0));
    let notes = game.take_notifications();
    assert!(notes.iter().any(|n| matches!(n, Notification::ScoresReset)));
    game.reset_teams();
    assert!(game.get_teams().is_empty());
    let notes = game.take_notifications();
    assert!(notes.iter().any(|n| matches!(n, Notification::TeamsReset)));
}

#[test]
fn disband_team_removes_members() {
    let mut game = make_game();
    game.join_team(1, b"Red").unwrap();
    game.join_team(2, b"Red").unwrap();
    assert!(game.disband_team(b"red").is_ok());
    assert!(game.get_teams().is_empty());
    assert_eq!(game.disband_team(b"red"), Err(GameError::NotFound));
}

#[test]
fn update_team_channels_is_a_passthrough() {
    let mut game = make_game();
    game.take_notifications();
    game.update_team_channels(vec![TeamChannel {
        team: TeamId::TeamName(b"red".to_vec()),
        channel: 555,
    }]);
    assert!(game.take_notifications().is_empty());
    let routes = game.get_team_channels();
    assert_eq!(routes.len(), 1);
    assert_eq!(routes[0].channel, 555);
    assert_eq!(routes[0].team.name().as_slice(), b"red");
}
