use kaiten_cli::models::board::Board;
use kaiten_cli::models::card::{member_url, members_url, resolve_responsible, Card};
use kaiten_cli::models::card_type::CardType;
use kaiten_cli::models::column::Column;
use kaiten_cli::models::common::Info;
use kaiten_cli::models::lane::Lane;
use kaiten_cli::models::space::Space;
use kaiten_cli::models::user::{Role, User};

fn small_info() -> Info {
    let col = Column::from_parts(20, "Target".to_string(), 2, 1, None, None);
    let board = Board::from_parts(2, 200, "Dev".to_string(), Some(vec![col]), None);
    let alice = User::new(1, "alice".to_string(), Role::Unset);
    let space = Space::from_parts(200, "Product".to_string(), None, Some(vec![alice]));
    Info::from(vec![space], vec![board], vec![], vec![])
}

fn blank_card() -> Card {
    Card {
        id: 9,
        title: "Title".to_string(),
        column: Column::new(),
        column_id: 1,
        board_id: 1,
        lane_id: 1,
        lane: Lane::new(),
        blocked: false,
        blocking_card: None,
        block_reason: String::new(),
        properties: None,
        card_type: CardType::new(),
        sort_order: 0,
        members: None,
        tags: None,
        description: None,
        archived: false,
        created: String::new(),
        last_moved_at: String::new(),
        checklists: None,
        parents: None,
        children: None,
    }
}

#[test]
fn move_to_known_column_sets_column_lane_board() {
    let info = small_info();
    let mut card = blank_card();
    let r = card.apply_move(&info, 20, 7);
    assert!(r.is_ok());
    assert_eq!(card.column_id, 20);
    assert_eq!(card.lane_id, 7);
    assert_eq!(card.board_id, 2);
}

#[test]
fn move_to_unknown_column_fails_before_any_change() {
    let info = small_info();
    let mut card = blank_card();
    let before = blank_card();
    let r = card.apply_move(&info, 999, 7);
    let err = r.expect_err("unknown column must fail the move");
    assert_eq!(err.get_column_id(), 999);
    assert_eq!(err.message(), "Not found board_id for column_id: 999");
    assert_eq!(card, before);
}

#[test]
fn edit_applies_present_values() {
    let info = small_info();
    let mut card = blank_card();
    card.apply_edit(
        &info,
        Some("base".to_string()),
        Some(" extra".to_string()),
        Some("New title".to_string()),
        Some(20),
        Some(5),
    );
    assert_eq!(card.description, Some("base extra".to_string()));
    assert_eq!(card.title, "New title");
    assert_eq!(card.column_id, 20);
    assert_eq!(card.board_id, 2);
    assert_eq!(card.lane_id, 5);
}

#[test]
fn edit_with_unknown_column_leaves_board_alone() {
    let info = small_info();
    let mut card = blank_card();
    card.apply_edit(&info, None, None, None, Some(999), None);
    assert_eq!(card.column_id, 999);
    assert_eq!(card.board_id, 1);
}

#[test]
fn edit_append_to_absent_description_starts_empty() {
    let info = small_info();
    let mut card = blank_card();
    card.apply_edit(&info, None, Some("tail".to_string()), None, None, None);
    assert_eq!(card.description, Some("tail".to_string()));
}

#[test]
fn set_description_replaces_or_appends() {
    let mut card = blank_card();
    card.set_description("one".to_string(), false);
    assert_eq!(card.description, Some("one".to_string()));
    card.set_description(" two".to_string(), true);
    assert_eq!(card.description, Some("one two".to_string()));
    card.set_description("fresh".to_string(), false);
    assert_eq!(card.description, Some("fresh".to_string()));
}

#[test]
fn responsible_is_resolved_and_marked() {
    let info = small_info();
    let user = resolve_responsible(&info, "alice").expect("alice resolves");
    assert_eq!(user.get_id(), 1);
    assert!(user.is_responsible());
}

#[test]
fn unknown_responsible_is_skipped() {
    let info = small_info();
    assert!(resolve_responsible(&info, "nobody").is_none());
}

#[test]
fn member_urls_extend_card_url() {
    let base = members_url("cards/9");
    assert_eq!(base, "cards/9/members");
    assert_eq!(member_url(base.as_str(), 1), "cards/9/members/1");
}
