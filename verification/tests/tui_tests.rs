use aip::tui::{
    asset_item, empty_text, ends_with, project_item, prompt_item, sort_items, Effect, Focus, Item, Key, Nav,
    Section,
};

#[test]
fn sidebar_moves_and_wraps() {
    let mut nav = Nav::new();
    assert_eq!(nav.handle_key(Key::Up), Effect::ReloadMain);
    assert_eq!(nav.sidebar, 4);
    assert_eq!(nav.section, Section::Rules);
    assert_eq!(nav.handle_key(Key::Down), Effect::ReloadMain);
    assert_eq!(nav.sidebar, 0);
    assert_eq!(nav.section, Section::Projects);
    assert_eq!(nav.handle_key(Key::Down), Effect::ReloadMain);
    assert_eq!(nav.section, Section::Assets);
    assert_eq!(Section::all().len(), 5);
    assert_eq!(Section::Rules.label(), "⚙️  규칙");
}

#[test]
fn list_moves_and_tabs() {
    let mut nav = Nav::new();
    nav.items_loaded(3);
    assert_eq!(nav.main, Some(0));
    assert_eq!(nav.handle_key(Key::Tab), Effect::Nothing);
    assert_eq!(nav.focus, Focus::Main);
    assert_eq!(nav.handle_key(Key::Up), Effect::ReloadDetail);
    assert_eq!(nav.main, Some(2));
    assert_eq!(nav.handle_key(Key::Down), Effect::ReloadDetail);
    assert_eq!(nav.main, Some(0));
    nav.handle_key(Key::Tab);
    assert_eq!(nav.handle_key(Key::Down), Effect::Nothing);
    nav.handle_key(Key::Tab);
    assert_eq!(nav.focus, Focus::Sidebar);
    assert_eq!(nav.handle_key(Key::Refresh), Effect::ReloadMain);
    assert_eq!(nav.handle_key(Key::Quit), Effect::Quit);
    assert_eq!(nav.handle_key(Key::Other), Effect::Nothing);
    nav.items_loaded(0);
    assert_eq!(nav.main, None);
    nav.handle_key(Key::Tab);
    assert_eq!(nav.handle_key(Key::Down), Effect::Nothing);
}

#[test]
fn items_are_labelled() {
    let a = asset_item("monsters", "dragon");
    assert_eq!(a.id, "monsters/dragon");
    assert_eq!(a.display, "👹 dragon");
    assert_eq!(asset_item("backgrounds", "lava").display, "🏞  lava");
    let p = project_item("castle", &Some("castle".to_string()));
    assert_eq!(p.display, "castle ◀");
    assert_eq!(project_item("castle", &None).display, "castle");
    assert_eq!(prompt_item("hero_sheet.md").map(|i| i.display), Some("📋 hero_sheet.md".to_string()));
    assert_eq!(prompt_item("hero_v001.json").map(|i| i.display), Some("📝 hero_v001.json".to_string()));
    assert!(prompt_item("notes.txt").is_none());
    assert!(ends_with("a.json", ".json"));
    assert!(!ends_with("json", ".json"));
    assert_eq!(empty_text(Section::Assets), "🎨 에셋 항목이 없습니다.");
}

#[test]
fn prompt_items_sorted_by_name() {
    let items: Vec<Item> = ["b_v001.json", "a_sheet.md", "가.json", "B.json"]
        .iter()
        .map(|n| prompt_item(n).unwrap())
        .collect();
    let ids: Vec<String> = sort_items(items).into_iter().map(|i| i.id).collect();
    let mut expected = vec!["b_v001.json".to_string(), "a_sheet.md".to_string(), "가.json".to_string(), "B.json".to_string()];
    expected.sort();
    assert_eq!(ids, expected);
}
