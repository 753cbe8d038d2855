use kaiten_cli::models::board::Board;
use kaiten_cli::models::card_type::CardType;
use kaiten_cli::models::column::{Column, SubColumn};
use kaiten_cli::models::common::{register_board, register_space, Info};
use kaiten_cli::models::lane::Lane;
use kaiten_cli::models::space::Space;
use kaiten_cli::models::tag::Tag;
use kaiten_cli::models::user::{Role, User};

fn sample_info() -> Info {
    let sub = SubColumn::from_parts(11, "Review".to_string(), 1, 5);
    let col_a = Column::from_parts(10, "Doing".to_string(), 1, 10, None, Some(vec![sub]));
    let col_b = Column::from_parts(20, "Queued".to_string(), 1, 5, None, None);
    let lane_a = Lane::from_parts(70, "Fast".to_string(), 1, 1, 2);
    let lane_b = Lane::from_parts(71, "Slow".to_string(), 1, 1, 1);
    let board1 = Board::from_parts(
        1,
        100,
        "Ops".to_string(),
        Some(vec![col_a, col_b]),
        Some(vec![lane_a, lane_b]),
    );
    let col_c = Column::from_parts(30, "Done".to_string(), 2, 1, None, None);
    let board2 = Board::from_parts(2, 200, "Dev".to_string(), Some(vec![col_c]), None);

    let alice = User::new(1, "alice".to_string(), Role::Unset);
    let bob = User::new(2, "bob".to_string(), Role::Unset);
    let space1 = Space::from_parts(100, "Platform".to_string(), None, Some(vec![alice]));
    let space2 = Space::from_parts(200, "Product".to_string(), None, Some(vec![bob]));

    let tags = vec![Tag::new(Some(5), "infra".to_string())];
    let card_types = vec![CardType::from_parts(3, "Bug".to_string(), "B".to_string(), false)];
    Info::from(vec![space1, space2], vec![board1, board2], tags, card_types)
}

#[test]
fn columns_of_one_board_sorted_by_rank() {
    let info = sample_info();
    let cols = info.get_columns(Some(1));
    let ids: Vec<u32> = cols.iter().map(|c| c.get_id()).collect();
    assert_eq!(ids, vec![20, 10]);
}

#[test]
fn columns_of_all_boards_sorted_by_rank() {
    let info = sample_info();
    let cols = info.get_columns(None);
    let ids: Vec<u32> = cols.iter().map(|c| c.get_id()).collect();
    assert_eq!(ids, vec![30, 20, 10]);
}

#[test]
fn columns_of_unknown_board_are_empty() {
    let info = sample_info();
    assert!(info.get_columns(Some(77)).is_empty());
}

#[test]
fn lanes_sorted_by_rank() {
    let info = sample_info();
    let lanes = info.get_lanes(Some(1));
    let ids: Vec<u32> = lanes.iter().map(|l| l.get_id()).collect();
    assert_eq!(ids, vec![71, 70]);
    assert!(info.get_lanes(Some(2)).is_empty());
}

#[test]
fn board_lookup_by_column_id_finds_owner() {
    let info = sample_info();
    assert_eq!(info.get_board_id_by_column_id(10), Some(1));
    assert_eq!(info.get_board_id_by_column_id(30), Some(2));
}

#[test]
fn board_lookup_by_subcolumn_id_finds_owner() {
    let info = sample_info();
    assert_eq!(info.get_board_id_by_column_id(11), Some(1));
}

#[test]
fn board_lookup_misses_unknown_column() {
    let info = sample_info();
    assert_eq!(info.get_board_id_by_column_id(999), None);
}

#[test]
fn space_lookup_by_board_id() {
    let info = sample_info();
    assert_eq!(info.get_space_id_by_board_id(1), Some(100));
    assert_eq!(info.get_space_id_by_board_id(2), Some(200));
    assert_eq!(info.get_space_id_by_board_id(77), None);
}

#[test]
fn user_search_spans_all_spaces() {
    let info = sample_info();
    let user = info.get_user("alice", None).expect("alice somewhere");
    assert_eq!(user.get_id(), 1);
    let user = info.get_user("bob", None).expect("bob somewhere");
    assert_eq!(user.get_id(), 2);
}

#[test]
fn user_search_scoped_to_other_space_misses() {
    let info = sample_info();
    assert!(info.get_user("alice", Some(200)).is_none());
    assert!(info.get_user("bob", Some(200)).is_some());
    assert!(info.get_user("nobody", None).is_none());
}

#[test]
fn users_union_keeps_space_order() {
    let info = sample_info();
    let names: Vec<String> = info
        .get_users(None)
        .iter()
        .map(|u| u.get_username().to_string())
        .collect();
    assert_eq!(names, vec!["alice".to_string(), "bob".to_string()]);
}

#[test]
fn register_board_replaces_same_id() {
    let mut boards: Vec<Board> = Vec::new();
    register_board(
        &mut boards,
        Board::from_parts(1, 100, "Old".to_string(), None, None),
    );
    register_board(
        &mut boards,
        Board::from_parts(2, 100, "Other".to_string(), None, None),
    );
    register_board(
        &mut boards,
        Board::from_parts(1, 100, "New".to_string(), None, None),
    );
    assert_eq!(boards.len(), 2);
    assert_eq!(boards[0].get_title(), "New");
    assert_eq!(boards[1].get_title(), "Other");
}

#[test]
fn register_space_replaces_same_id() {
    let mut spaces: Vec<Space> = Vec::new();
    register_space(
        &mut spaces,
        Space::from_parts(5, "A".to_string(), None, None),
    );
    register_space(
        &mut spaces,
        Space::from_parts(5, "B".to_string(), None, None),
    );
    assert_eq!(spaces.len(), 1);
    assert_eq!(spaces[0].get_title(), "B");
}

#[test]
fn space_columns_follow_its_boards() {
    let col = Column::from_parts(40, "A".to_string(), 9, 1, None, None);
    let board = Board::from_parts(9, 5, "X".to_string(), Some(vec![col]), None);
    let space = Space::from_parts(5, "S".to_string(), Some(vec![board]), None);
    let cols = space.get_columns();
    assert_eq!(cols.len(), 1);
    assert_eq!(cols[0].get_id(), 40);
    let bare = Space::from_parts(6, "T".to_string(), None, None);
    assert!(bare.get_columns().is_empty());
}

#[test]
fn space_board_ids_and_users() {
    let board = Board::from_parts(9, 5, "X".to_string(), None, None);
    let mut space = Space::from_parts(5, "S".to_string(), Some(vec![board]), None);
    assert_eq!(space.get_boards_ids(), vec![9]);
    assert!(space.get_users().is_empty());
    space.set_users(vec![User::new(3, "carol".to_string(), Role::Unset)]);
    assert_eq!(space.get_users().len(), 1);
    assert_eq!(space.get_users()[0].get_username(), "carol");
}
