use kaiten_cli::command::config::{Config as ConfigCommand, ConfigArgs};
use kaiten_cli::models::config::Config;

#[test]
fn update_cli_space_keeps_board() {
    let mut config = Config::from_parts(None, Some(7), None, None, None);
    config.update(Some(5), None, None);
    assert_eq!(config.get_space_id(), Some(5));
    assert_eq!(config.get_board_id(), Some(7));
}

#[test]
fn update_env_fallback_applies_when_cli_absent() {
    let mut config = Config::new();
    config.update(None, None, Some(42));
    assert_eq!(config.get_space_id(), Some(42));
    assert_eq!(config.get_board_id(), Some(42));
}

#[test]
fn update_cli_wins_over_env() {
    let mut config = Config::from_parts(Some(1), Some(2), None, None, None);
    config.update(Some(5), Some(6), Some(42));
    assert_eq!(config.get_space_id(), Some(5));
    assert_eq!(config.get_board_id(), Some(6));
}

#[test]
fn update_without_overrides_keeps_values() {
    let mut config = Config::from_parts(Some(1), Some(2), None, None, None);
    config.update(None, None, None);
    assert_eq!(config.get_space_id(), Some(1));
    assert_eq!(config.get_board_id(), Some(2));
}

#[test]
fn defaults_are_all_absent() {
    let config = Config::new();
    assert_eq!(config.get_space_id(), None);
    assert_eq!(config.get_board_id(), None);
    assert!(config.get_exclude_board_ids().is_none());
    assert!(config.get_exclude_lane_ids().is_none());
    assert!(config.get_exclude_column_ids().is_none());
}

#[test]
fn set_config_values_applies_present_arguments() {
    let mut config = Config::from_parts(Some(1), None, None, None, None);
    let args = ConfigArgs {
        space_id: None,
        board_id: Some(9),
        exclude_board_ids: Some("1,2".to_string()),
        exclude_lane_ids: None,
        exclude_column_ids: Some("3".to_string()),
    };
    ConfigCommand::set_config_values(&mut config, &args);
    assert_eq!(config.get_space_id(), Some(1));
    assert_eq!(config.get_board_id(), Some(9));
    assert_eq!(config.get_exclude_board_ids(), Some(&"1,2".to_string()));
    assert!(config.get_exclude_lane_ids().is_none());
    assert_eq!(config.get_exclude_column_ids(), Some(&"3".to_string()));
}
