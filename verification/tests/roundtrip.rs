use kaiten_cli::models::board::Board;
use kaiten_cli::models::card_type::CardType;
use kaiten_cli::models::column::{Column, SubColumn};
use kaiten_cli::models::common::Info;
use kaiten_cli::models::config::Config;
use kaiten_cli::models::lane::Lane;
use kaiten_cli::models::space::Space;
use kaiten_cli::models::tag::Tag;
use kaiten_cli::models::user::{Role, User};

fn awkward_info() -> Info {
    let sub = SubColumn::from_parts(11, "Ревью\nwith newline".to_string(), 1, -5);
    let col_a = Column::from_parts(10, String::new(), 1, 10, Some(9), Some(vec![sub]));
    let col_b = Column::from_parts(20, "Queued".to_string(), 1, i64::MIN, None, Some(vec![]));
    let lane = Lane::from_parts(70, "Fast".to_string(), 1, 2, i64::MAX);
    let board1 = Board::from_parts(
        1,
        100,
        "Ops".to_string(),
        Some(vec![col_a, col_b]),
        Some(vec![lane]),
    );
    let board2 = Board::from_parts(2, 200, "Dev".to_string(), None, Some(vec![]));
    let alice = User::new(1, "алиса".to_string(), Role::Responsible);
    let space1 = Space::from_parts(
        100,
        "Platform".to_string(),
        Some(vec![Board::from_parts(1, 100, "Ops".to_string(), None, None)]),
        Some(vec![alice]),
    );
    let space2 = Space::from_parts(200, String::new(), None, None);
    let tags = vec![
        Tag::new(Some(5), "infra".to_string()),
        Tag::new(None, "fresh\n".to_string()),
    ];
    let card_types = vec![CardType::from_parts(3, "Bug".to_string(), "B".to_string(), true)];
    Info::from(vec![space1, space2], vec![board1, board2], tags, card_types)
}

#[test]
fn snapshot_round_trip_is_identity() {
    let info = awkward_info();
    let text = info.to_text();
    let back = Info::from_text(text.as_str()).expect("written snapshot reads back");
    assert_eq!(back, info);
}

#[test]
fn empty_snapshot_round_trips() {
    let info = Info::from(vec![], vec![], vec![], vec![]);
    let text = info.to_text();
    let back = Info::from_text(text.as_str()).expect("empty snapshot reads back");
    assert_eq!(back, info);
}

#[test]
fn snapshot_rejects_garbage() {
    assert!(Info::from_text("not a snapshot").is_none());
    assert!(Info::from_text("").is_none());
}

#[test]
fn snapshot_rejects_trailing_text() {
    let info = Info::from(vec![], vec![], vec![], vec![]);
    let mut text = info.to_text();
    text.push_str("0\n");
    assert!(Info::from_text(text.as_str()).is_none());
}

#[test]
fn config_round_trip_is_identity() {
    let config = Config::from_parts(
        Some(38223),
        None,
        Some("7,8".to_string()),
        None,
        Some(String::new()),
    );
    let text = config.to_text();
    let back = Config::from_text(text.as_str()).expect("written config reads back");
    assert_eq!(back, config);
}

#[test]
fn default_config_round_trips() {
    let config = Config::new();
    let back = Config::from_text(config.to_text().as_str()).expect("defaults read back");
    assert_eq!(back, config);
}

#[test]
fn config_rejects_garbage() {
    assert!(Config::from_text("???").is_none());
}
