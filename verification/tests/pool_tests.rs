use trivia_core::output::Notification;
use trivia_core::pool::Pool;
use trivia_core::quizz::{Question, QuizzDefinition, Settings};

fn quiz_def() -> QuizzDefinition {
    QuizzDefinition {
        questions: vec![Question {
            prompt: b"Q?".to_vec(),
            answers: vec![b"A".to_vec()],
            score_value: 1,
        }],
    }
}

#[test]
fn pool_creates_one_game_per_community() {
    let mut pool = Pool::new();
    {
        let game = pool.get_game(1, 100);
        game.join_team(10, b"Red").unwrap();
    }
    {
        // Same community, even through another channel: the same game.
        let game = pool.get_game(1, 999);
        assert_eq!(game.get_teams().len(), 1);
    }
    {
        // A different community starts from scratch.
        let game = pool.get_game(2, 100);
        assert!(game.get_teams().is_empty());
    }
}

#[test]
fn pool_ticks_every_game() {
    let s = Settings::default();
    let mut pool = Pool::new();
    pool.get_game(1, 100).begin(Some(quiz_def())).unwrap();
    pool.get_game(2, 200).begin(Some(quiz_def())).unwrap();
    pool.tick(s.cooldown_ms);
    for community in [1u64, 2u64] {
        let notes = pool.get_game(community, 0).take_notifications();
        assert!(notes.iter().any(|n| matches!(n, Notification::NewQuestion { .. })));
    }
}
