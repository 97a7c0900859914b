use trivia_core::errors::GameError;
use trivia_core::team::{TeamId, TeamRegistry};

fn ids(reg: &TeamRegistry) -> Vec<String> {
    reg.get_all()
        .iter()
        .map(|t| String::from_utf8(t.id.name().clone()).unwrap())
        .collect()
}

#[test]
fn sanitize_normalizes_case_and_whitespace() {
    let mut reg = TeamRegistry::new();
    assert!(reg.join(1, b"  red  ").is_ok());
    assert!(reg.join(2, b"Red").is_ok());
    let teams = reg.get_all();
    assert_eq!(teams.len(), 1);
    assert_eq!(teams[0].id.name().as_slice(), b"red");
    assert_eq!(teams[0].players.len(), 2);
    assert!(teams[0].players.contains(&1));
    assert!(teams[0].players.contains(&2));
}

#[test]
fn join_rejects_blank_names() {
    let mut reg = TeamRegistry::new();
    assert_eq!(reg.join(1, b"   "), Err(GameError::InvalidName));
    assert_eq!(reg.join(1, b""), Err(GameError::InvalidName));
    assert_eq!(reg.get_all().len(), 0);
}

#[test]
fn join_switches_teams_and_prunes_empty() {
    let mut reg = TeamRegistry::new();
    reg.join(7, b"Alpha").unwrap();
    reg.join(7, b"Beta").unwrap();
    let teams = reg.get_all();
    assert_eq!(teams.len(), 1);
    assert_eq!(teams[0].id.name().as_slice(), b"beta");
    assert_eq!(teams[0].players, vec![7]);
    assert_eq!(ids(&reg), vec!["beta".to_string()]);
}

#[test]
fn join_keeps_nonempty_vacated_team() {
    let mut reg = TeamRegistry::new();
    reg.join(1, b"Alpha").unwrap();
    reg.join(2, b"Alpha").unwrap();
    reg.join(2, b"Beta").unwrap();
    let names = ids(&reg);
    assert_eq!(names, vec!["alpha".to_string(), "beta".to_string()]);
}

#[test]
fn rejoining_own_team_keeps_score() {
    let mut reg = TeamRegistry::new();
    reg.join(1, b"Alpha").unwrap();
    let id = TeamId::TeamName(b"alpha".to_vec());
    reg.adjust_score(&id, 5).unwrap();
    reg.join(1, b"alpha").unwrap();
    let teams = reg.get_all();
    assert_eq!(teams.len(), 1);
    assert_eq!(teams[0].score, 5);
    assert_eq!(teams[0].players, vec![1]);
}

#[test]
fn disband_removes_all_members() {
    let mut reg = TeamRegistry::new();
    reg.join(1, b"Red").unwrap();
    reg.join(2, b"Red").unwrap();
    reg.join(3, b"Blue").unwrap();
    assert!(reg.disband(b" RED ").is_ok());
    assert!(reg.find_team_of(1).is_none());
    assert!(reg.find_team_of(2).is_none());
    assert!(reg.find_team_of(3).is_some());
    assert_eq!(ids(&reg), vec!["blue".to_string()]);
}

#[test]
fn disband_missing_team_fails() {
    let mut reg = TeamRegistry::new();
    reg.join(1, b"Red").unwrap();
    assert_eq!(reg.disband(b"Blue"), Err(GameError::NotFound));
    assert_eq!(reg.disband(b"  "), Err(GameError::InvalidName));
    assert_eq!(reg.get_all().len(), 1);
}

#[test]
fn adjust_score_missing_team_mutates_nothing() {
    let mut reg = TeamRegistry::new();
    reg.join(1, b"Red").unwrap();
    let before = reg.get_all();
    let id = TeamId::TeamName(b"blue".to_vec());
    assert_eq!(reg.adjust_score(&id, 10), Err(GameError::NotFound));
    let after = reg.get_all();
    assert_eq!(before.len(), after.len());
    assert_eq!(before[0].score, after[0].score);
    assert_eq!(before[0].players, after[0].players);
}

#[test]
fn adjust_score_accumulates_and_reports() {
    let mut reg = TeamRegistry::new();
    reg.join(1, b"Red").unwrap();
    let id = TeamId::TeamName(b"red".to_vec());
    assert_eq!(reg.adjust_score(&id, 10), Ok(10));
    assert_eq!(reg.adjust_score(&id, -4), Ok(6));
    assert_eq!(reg.get_all()[0].score, 6);
}

#[test]
fn adjust_score_clamps_at_limits() {
    let mut reg = TeamRegistry::new();
    reg.join(1, b"Red").unwrap();
    let id = TeamId::TeamName(b"red".to_vec());
    assert_eq!(reg.adjust_score(&id, i32::MAX), Ok(i32::MAX));
    assert_eq!(reg.adjust_score(&id, i32::MAX), Ok(i32::MAX));
    assert_eq!(reg.adjust_score(&id, -1), Ok(i32::MAX - 1));
}

#[test]
fn reset_scores_keeps_membership() {
    let mut reg = TeamRegistry::new();
    reg.join(1, b"Red").unwrap();
    reg.join(2, b"Blue").unwrap();
    let id = TeamId::TeamName(b"red".to_vec());
    reg.adjust_score(&id, 3).unwrap();
    reg.reset_scores();
    let teams = reg.get_all();
    assert_eq!(teams.len(), 2);
    assert!(teams.iter().all(|t| t.score == 0));
    assert!(teams.iter().all(|t| t.players.len() == 1));
}

#[test]
fn reset_all_clears_everything() {
    let mut reg = TeamRegistry::new();
    reg.join(1, b"Red").unwrap();
    reg.join(2, b"Blue").unwrap();
    reg.reset_all();
    assert_eq!(reg.get_all().len(), 0);
    assert!(reg.find_team_of(1).is_none());
}

#[test]
fn leave_all_prunes_empty_team() {
    let mut reg = TeamRegistry::new();
    reg.join(1, b"Red").unwrap();
    reg.join(2, b"Red").unwrap();
    reg.leave_all(1);
    assert!(reg.find_team_of(1).is_none());
    assert_eq!(reg.get_all().len(), 1);
    reg.leave_all(2);
    assert_eq!(reg.get_all().len(), 0);
}
