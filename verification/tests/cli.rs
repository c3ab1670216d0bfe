use zaino::cli::{default_config_path_components, next_run_action, IndexerOutcome, RunAction};

#[test]
fn config_path_prefers_xdg_config_home() {
    let parts =
        default_config_path_components(Some("/xdg".to_string()), Some("/home/u".to_string()));
    assert_eq!(
        parts,
        Some(vec!["/xdg".to_string(), "zaino".to_string(), "zainod.toml".to_string()])
    );
}

#[test]
fn config_path_falls_back_to_home_config() {
    let parts = default_config_path_components(None, Some("/home/u".to_string()));
    assert_eq!(
        parts,
        Some(vec![
            "/home/u".to_string(),
            ".config".to_string(),
            "zaino".to_string(),
            "zainod.toml".to_string()
        ])
    );
}

#[test]
fn config_path_needs_home_without_xdg() {
    assert_eq!(default_config_path_components(None, None), None);
}

#[test]
fn daemon_restarts_only_on_restart() {
    assert_eq!(next_run_action(IndexerOutcome::Restart), RunAction::Restart);
    assert_eq!(next_run_action(IndexerOutcome::Finished), RunAction::Exit);
    assert_eq!(next_run_action(IndexerOutcome::Failed), RunAction::Exit);
    assert_eq!(next_run_action(IndexerOutcome::StartFailed), RunAction::Exit);
    assert_eq!(next_run_action(IndexerOutcome::EndedEarly), RunAction::Exit);
}
