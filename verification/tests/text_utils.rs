use kaiten_cli::command::init::{
    card_types_url, space_board_url, spaces_url, space_users_url, tags_url, FileExistsError, Init,
    InitAction,
};
use kaiten_cli::models::card::{
    display_description, display_id, display_members, display_tags, sort_cards, Card,
    PropertiesValue, Property,
};
use kaiten_cli::models::card_type::CardType;
use kaiten_cli::models::column::Column;
use kaiten_cli::models::comment::Comment;
use kaiten_cli::models::lane::Lane;
use kaiten_cli::models::link::Link;
use kaiten_cli::models::tag::Tag;
use kaiten_cli::models::user::{Role, User};
use kaiten_cli::text::{fix_brackets, i64_to_string, str_eq, trim, u32_to_string, utf8_len};
use kaiten_cli::timefmt::{format_move_diff, hours_between, move_diff_string};

fn plain_card() -> Card {
    Card {
        id: 1,
        title: "T".to_string(),
        column: Column::new(),
        column_id: 0,
        board_id: 0,
        lane_id: 0,
        lane: Lane::new(),
        blocked: false,
        blocking_card: None,
        block_reason: String::new(),
        properties: None,
        card_type: CardType::new(),
        sort_order: 0,
        members: None,
        tags: None,
        description: None,
        archived: false,
        created: String::new(),
        last_moved_at: String::new(),
        checklists: None,
        parents: None,
        children: None,
    }
}

#[test]
fn number_rendering() {
    assert_eq!(u32_to_string(0), "0");
    assert_eq!(u32_to_string(38223), "38223");
    assert_eq!(i64_to_string(-45), "-45");
    assert_eq!(i64_to_string(i64::MIN), "-9223372036854775808");
}

#[test]
fn string_helpers() {
    assert!(str_eq("abc", "abc"));
    assert!(!str_eq("abc", "abd"));
    assert_eq!(trim("  \thi there\n"), "hi there");
    assert_eq!(fix_brackets("[]a[]"), "[ ]a[ ]");
    assert_eq!(fix_brackets("[x]"), "[x]");
    assert_eq!(utf8_len("aЮ"), 3);
}

#[test]
fn display_helpers() {
    assert_eq!(display_id(&Some(7)), "7");
    assert_eq!(display_id(&None), "");
    assert_eq!(display_description(&Some("d".to_string())), "d");
    assert_eq!(display_description(&None), "");
    let tags = vec![
        Tag::new(Some(1), "a".to_string()),
        Tag::new(None, "b".to_string()),
    ];
    assert_eq!(display_tags(&Some(tags)), "a, b");
    assert_eq!(display_tags(&None), "");
    let members = vec![
        User::new(1, "alice".to_string(), Role::Unset),
        User::new(2, "bob".to_string(), Role::Responsible),
    ];
    assert_eq!(display_members(&Some(members)), "alice,\nbob");
}

#[test]
fn card_string_tags_and_collections() {
    let mut card = plain_card();
    card.tags = Some(vec![
        Tag::new(Some(1), "infra".to_string()),
        Tag::new(Some(2), "ops".to_string()),
    ]);
    assert_eq!(card.get_string_tags(), "infra, ops");
    assert_eq!(card.get_tags().len(), 2);
    assert!(card.get_members().is_empty());
    assert!(card.get_parents().is_empty());
    assert!(card.get_childrens().is_empty());
}

#[test]
fn card_property_filters() {
    let mut card = plain_card();
    card.properties = Some(vec![
        Property {
            key: "id_5".to_string(),
            value: PropertiesValue::S("77".to_string()),
        },
        Property {
            key: "id_6".to_string(),
            value: PropertiesValue::V(vec![1, 2, 3]),
        },
    ]);
    assert!(card.is_property(5));
    assert!(card.is_property(6));
    assert!(!card.is_property(7));
    assert!(card.is_property_value(77));
    assert!(card.is_property_value(2));
    assert!(!card.is_property_value(78));
    let empty = plain_card();
    assert!(!empty.is_property(5));
    assert!(!empty.is_property_value(77));
}

#[test]
fn card_membership() {
    let mut card = plain_card();
    card.members = Some(vec![User::new(1, "alice".to_string(), Role::Unset)]);
    assert!(card.is_member("alice"));
    assert!(!card.is_member("bob"));
}

#[test]
fn cards_sort_by_rank() {
    let mut a = plain_card();
    a.id = 1;
    a.sort_order = 10;
    let mut b = plain_card();
    b.id = 2;
    b.sort_order = -3;
    let sorted = sort_cards(vec![a, b]);
    let ids: Vec<u32> = sorted.iter().map(|c| c.id).collect();
    assert_eq!(ids, vec![2, 1]);
}

#[test]
fn role_codes() {
    assert_eq!(Role::from_code(None), Some(Role::Unset));
    assert_eq!(Role::from_code(Some(1)), Some(Role::Member));
    assert_eq!(Role::from_code(Some(2)), Some(Role::Responsible));
    assert_eq!(Role::from_code(Some(9)), None);
    assert_eq!(Role::Unset.to_code(), 1);
    assert_eq!(Role::Member.to_code(), 1);
    assert_eq!(Role::Responsible.to_code(), 2);
    assert_eq!(Role::default(), Role::Unset);
}

#[test]
fn user_record_behaviour() {
    let mut user = User::new(7, "dora".to_string(), Role::Unset);
    assert_eq!(user.get_id(), 7);
    assert!(user.is_username("dora"));
    assert!(!user.is_username("Dora"));
    assert!(!user.is_responsible());
    user.set_responsible();
    assert!(user.is_responsible());
    let empty = User::default();
    assert_eq!(empty.get_id(), 0);
    assert_eq!(empty.get_username(), "");
}

#[test]
fn comment_and_link_records() {
    let comment = Comment::from_text("hello");
    assert_eq!(comment.get_text(), "hello");
    assert_eq!(comment.get_id(), 0);
    assert!(!comment.get_edited());

    let link = Link::from("https://example.org".to_string(), None);
    assert_eq!(link.get_id(), 0);
    assert_eq!(link.get_url(), &Some("https://example.org".to_string()));
    assert_eq!(Link::display_option_string(&Some("x".to_string())), "x");
    assert_eq!(Link::display_option_string(&None), "");
}

#[test]
fn init_decisions() {
    let show = Init {
        show: true,
        update: false,
    };
    assert_eq!(show.decide(true), InitAction::ShowCached);
    let plain = Init {
        show: false,
        update: false,
    };
    assert_eq!(plain.decide(true), InitAction::RefuseExisting);
    assert_eq!(plain.decide(false), InitAction::Build);
    let update = Init {
        show: false,
        update: true,
    };
    assert_eq!(update.decide(true), InitAction::Build);
}

#[test]
fn init_fetch_urls() {
    assert_eq!(spaces_url(), "spaces");
    assert_eq!(space_users_url(100), "spaces/100/users");
    assert_eq!(space_board_url(100, 7), "spaces/100/boards/7");
    assert_eq!(tags_url(), "tags");
    assert_eq!(card_types_url(), "card-types");
}

#[test]
fn file_exists_error_message() {
    let err = FileExistsError::new("entities.txt".to_string());
    assert_eq!(err.get_file_name(), "entities.txt");
    assert_eq!(
        err.message(),
        "File entities.txt with entities info already exists. Use `kaiten-cli init --show` to view or `kaiten-cli init --update` for download data from API"
    );
}

#[test]
fn hour_difference_formatting() {
    assert_eq!(format_move_diff(5), "5h");
    assert_eq!(format_move_diff(24), "24h");
    assert_eq!(format_move_diff(30), "1d6h");
    assert_eq!(format_move_diff(-3), "-3h");
    assert_eq!(format_move_diff(-999), "-999h");
}

#[test]
fn hour_difference_arithmetic() {
    assert_eq!(hours_between(Some(0), 7200), 2);
    assert_eq!(hours_between(Some(7200), 0), -2);
    assert_eq!(hours_between(Some(0), 5399), 1);
    assert_eq!(hours_between(None, 123), -999);
}

#[test]
fn move_diff_parses_real_dates() {
    let midnight_2026 = 1767225600i64;
    assert_eq!(
        move_diff_string("2026-01-01T00:00:00Z", midnight_2026 + 5 * 3600),
        "5h"
    );
    assert_eq!(
        move_diff_string("2026-01-01T00:00:00Z", midnight_2026 + 30 * 3600),
        "1d6h"
    );
    assert_eq!(move_diff_string("not a date", 0), "-999h");
}
