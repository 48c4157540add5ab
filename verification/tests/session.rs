use codeoid::session::{ForkedFrom, SessionMode, SessionStatus};

#[test]
fn default_mode_is_interactive() {
    assert_eq!(SessionMode::default(), SessionMode::Interactive);
}

#[test]
fn status_and_mode_compare_by_variant() {
    assert_ne!(SessionStatus::Idle, SessionStatus::Working);
    assert_eq!(SessionStatus::WaitingApproval, SessionStatus::WaitingApproval);
    assert_ne!(SessionMode::Guarded, SessionMode::Autonomous);
}

#[test]
fn forked_from_holds_its_fields() {
    let f = ForkedFrom { session_id: "s1".to_string(), name: "main".to_string(), at_turn: 3 };
    let g = f.clone();
    assert_eq!(g.session_id, "s1");
    assert_eq!(g.name, "main");
    assert_eq!(g.at_turn, 3);
}
