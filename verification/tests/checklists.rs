use kaiten_cli::models::checklist::Checklist;
use kaiten_cli::models::checklistitem::ChecklistItem;

#[test]
fn test_checklistsitem() {
    let checklistitem = ChecklistItem {
        id: Some(1),
        text: "Some text".to_string(),
        checked: false,
    };
    let check_string = String::from("[ ] Some text");
    assert_eq!(checklistitem.to_string(), check_string);
    let check_item = ChecklistItem::from_string(check_string);
    assert_eq!(checklistitem.text, check_item.text);
    assert_eq!(checklistitem.checked, check_item.checked);
    assert_eq!(check_item.id, None);
}

#[test]
#[should_panic]
fn test_checklistsitem_fail() {
    let _item = ChecklistItem::from_string("Bad string".to_string());
}

#[test]
fn checklist_item_checked_round() {
    let item = ChecklistItem {
        id: None,
        text: "done".to_string(),
        checked: true,
    };
    assert_eq!(item.to_string(), "[x] done");
    let back = ChecklistItem::from_string(item.to_string());
    assert_eq!(back.text, "done");
    assert!(back.checked);
}

#[test]
fn checklist_item_trims_and_fixes_shorthand() {
    let item = ChecklistItem::from_string("  [x] tidy up  ".to_string());
    assert!(item.checked);
    assert_eq!(item.text, "tidy up");

    let short = ChecklistItem::from_string("[]x".to_string());
    assert!(!short.checked);
    assert_eq!(short.text, "");
}

#[test]
fn checklist_to_string_lists_items() {
    let lines = [
        "Новые креды админа лежат в lockbox",
        "Логин в админский аккаунт по новым кредам",
        "У сервиса графаны внешний ip",
        "Из кред обновлен secret grafana",
    ];
    let items: Vec<ChecklistItem> = lines
        .iter()
        .map(|l| ChecklistItem {
            id: None,
            text: l.to_string(),
            checked: false,
        })
        .collect();
    let checklist = Checklist {
        id: Some(1032486),
        name: "Готовность".to_string(),
        items: Some(items),
    };
    let expected = "### Готовность\n\n[ ] Новые креды админа лежат в lockbox\n[ ] Логин в админский аккаунт по новым кредам\n[ ] У сервиса графаны внешний ip\n[ ] Из кред обновлен secret grafana".to_string();
    assert_eq!(checklist.to_string(), expected);
}

#[test]
fn checklist_text_round_trip() {
    let text = "### Готовность\n\n[ ] Новые креды админа лежат в lockbox\n[x] Логин в админский аккаунт по новым кредам".to_string();
    let checklist = Checklist::from_string(text.clone());
    assert_eq!(checklist.name, "Готовность");
    assert_eq!(checklist.id, None);
    let items = checklist.items.as_ref().expect("items parsed");
    assert_eq!(items.len(), 2);
    assert_eq!(items[0].text, "Новые креды админа лежат в lockbox");
    assert!(!items[0].checked);
    assert!(items[1].checked);
    assert_eq!(checklist.to_string(), text);
}

#[test]
fn checklist_without_items_is_heading_only() {
    let checklist = Checklist {
        id: None,
        name: "Empty".to_string(),
        items: None,
    };
    assert_eq!(checklist.to_string(), "### Empty\n\n");
}
