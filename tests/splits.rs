use hollowknight_autosplit::splits::{auto_reset_safe, default_splits, split_index, Split, TimerAction};

#[test]
fn default_splits_start_and_end() {
    assert_eq!(default_splits(), vec![Split::StartNewGame, Split::EndingSplit]);
}

#[test]
fn auto_reset_safe_cases() {
    assert!(auto_reset_safe(&[Split::StartNewGame, Split::Lurien, Split::EndingSplit]));
    assert!(auto_reset_safe(&[Split::StartNewGame]));
    assert!(!auto_reset_safe(&[]));
    assert!(!auto_reset_safe(&[Split::StartAnyGame, Split::EndingSplit]));
    assert!(!auto_reset_safe(&[Split::StartNewGame, Split::StartNewGame]));
    assert!(!auto_reset_safe(&[Split::StartNewGame, Split::EndingSplit, Split::Menu]));
}

#[test]
fn split_index_wraps() {
    assert_eq!(split_index(0, 3), (TimerAction::Start, 1));
    assert_eq!(split_index(1, 3), (TimerAction::Split, 2));
    assert_eq!(split_index(2, 3), (TimerAction::Split, 0));
    assert_eq!(split_index(0, 1), (TimerAction::Start, 0));
    assert_eq!(split_index(usize::MAX, usize::MAX), (TimerAction::Split, 0));
}
