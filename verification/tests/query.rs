use kaiten_cli::command::card::{card_path, validate_iso8601, Card, CardCommands, Ls};
use kaiten_cli::command::comment::{Comment, CommentCommands};
use kaiten_cli::command::link::{Link, LinkCommands};
use kaiten_cli::models::config::Config;

#[test]
fn ls_defaults_with_config_space() {
    let mut config = Config::new();
    config.set_space_id(38223);
    let ls = Ls::new();
    let url = ls.get_url(&config);
    assert_eq!(url, "cards?condition=1&states=1,2&space_id=38223");
}

#[test]
fn ls_defaults_without_config() {
    let config = Config::new();
    let ls = Ls::new();
    assert_eq!(ls.get_url(&config), "cards?condition=1&states=1,2");
}

#[test]
fn ls_full_query_order() {
    let mut config = Config::new();
    config.set_space_id(38223);
    config.set_board_id(4);
    config.set_exclude_board_ids("7,8".to_string());
    let mut ls = Ls::new();
    ls.condition = 2;
    ls.limit = Some(50);
    ls.overdue = Some(true);
    ls.query = Some("grafana".to_string());
    let url = ls.get_url(&config);
    assert_eq!(
        url,
        "cards?board_id=4&condition=2&states=1,2&query=grafana&exclude_board_ids=7,8&space_id=38223&limit=50&overdue=true"
    );
}

#[test]
fn ls_empty_states_is_omitted() {
    let config = Config::new();
    let mut ls = Ls::new();
    ls.states = String::new();
    assert_eq!(ls.get_url(&config), "cards?condition=1");
}

#[test]
fn card_command_urls() {
    let config = Config::new();
    let get = Card {
        command: CardCommands::Get { card_id: 123 },
    };
    assert_eq!(get.get_url(&config), "cards/123");
    let mv = Card {
        command: CardCommands::Mv {
            card_id: 9,
            column_id: 1,
            lane_id: 2,
            add_responsible: None,
        },
    };
    assert_eq!(mv.get_url(&config), "cards/9");
    let new = Card {
        command: CardCommands::New {},
    };
    assert_eq!(new.get_url(&config), "");
    assert_eq!(card_path(7), "cards/7");
}

#[test]
fn comment_command_urls() {
    let get = Comment {
        command: CommentCommands::Get {
            card_id: "55".to_string(),
        },
    };
    assert_eq!(get.get_url(), "cards/55/comments");
    let edit = Comment {
        command: CommentCommands::Edit {
            card_id: "55".to_string(),
            comment_id: "9".to_string(),
        },
    };
    assert_eq!(edit.get_url(), "cards/55/comments/9");
}

#[test]
fn link_command_urls() {
    let get = Link {
        command: LinkCommands::Get {
            card_id: "55".to_string(),
        },
    };
    assert_eq!(get.get_url(), "cards/55/external-links");
    let edit = Link {
        command: LinkCommands::Edit {
            card_id: "55".to_string(),
            link_id: "3".to_string(),
        },
    };
    assert_eq!(edit.get_url(), "cards/55/external-links/3");
}

#[test]
fn iso8601_passes_text_through() {
    assert_eq!(
        validate_iso8601("2024-01-02T03:04:05Z"),
        Ok("2024-01-02T03:04:05Z".to_string())
    );
}
