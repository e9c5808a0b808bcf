use aip::prompt::{
    check, is_section_filled, is_version_file, latest_index, missing_sections, new_entry,
    next_version, prepare_save, prompt_file_name, run, sheet_status_lines, sort_by_version,
    history_line, BriefSource, PromptCmd, PromptEntry, PromptPlan, SaveOutcome, MIDJOURNEY_LIMIT,
    SHEET_TEMPLATE,
};
use aip::rules::{Action, MatchDef, Rule, RulesFile};

fn strings(v: &[&str]) -> Vec<String> {
    v.iter().map(|s| s.to_string()).collect()
}

const FULL: &str = "## Style\nanime\n## Composition\ncenter\n## Character Details\nhero\n## Environmental Elements\nforest\n## Action Elements\nrunning\n## Lighting & Atmosphere\ndawn\n## Technical Details\n4k\n";

fn entry(version: u32, memo: Option<&str>) -> PromptEntry {
    new_entry("hero", "t", memo.map(|m| m.to_string()), version, "2024-01-01 10:00".to_string())
}

#[test]
fn length_check_lines() {
    assert_eq!(check("abc"), "✅ Midjourney 프롬프트: 3/1000자 — OK");
    let long = "가".repeat(1003);
    assert_eq!(check(&long), "⚠️  Midjourney 프롬프트: 1003/1000자 — 3자 초과!");
    assert_eq!(check(&"a".repeat(MIDJOURNEY_LIMIT)), "✅ Midjourney 프롬프트: 1000/1000자 — OK");
    assert_eq!(check(&"a".repeat(1001)), "⚠️  Midjourney 프롬프트: 1001/1000자 — 1자 초과!");
    assert_eq!(check(&"가".repeat(400)), "✅ Midjourney 프롬프트: 400/1000자 — OK");
}

#[test]
fn sheet_sections() {
    assert!(missing_sections(SHEET_TEMPLATE).is_empty());
    assert_eq!(missing_sections("## Style\n## Technical Details"), strings(&[
        "## Composition",
        "## Character Details",
        "## Environmental Elements",
        "## Action Elements",
        "## Lighting & Atmosphere",
    ]));
    assert!(!is_section_filled(SHEET_TEMPLATE, "## Style"));
    assert!(is_section_filled(FULL, "## Style"));
    assert!(!is_section_filled(FULL, "## Nope"));
    let lines = sheet_status_lines("## Style\nok\n## Composition\n(todo)\n");
    assert_eq!(lines[0], "  ✅ ## Style");
    assert_eq!(lines[1], "  ⬜ ## Composition");
    assert_eq!(lines.len(), 7);
}

fn error_rules() -> Option<RulesFile> {
    Some(RulesFile {
        rules: vec![Rule {
            id: "time".to_string(),
            description: String::new(),
            severity: "error".to_string(),
            match_def: MatchDef::List {
                keywords: strings(&["running"]),
                exceptions: Vec::new(),
                scope: "all".to_string(),
            },
            actions: vec![Action { kind: "message".to_string(), text: "no".to_string() }],
        }],
    })
}

#[test]
fn save_gates_in_order() {
    assert!(matches!(prepare_save(&Some(String::new()), "x", &None), SaveOutcome::NoStylePrefix));
    match prepare_save(&Some("dark".to_string()), "## Style", &None) {
        SaveOutcome::MissingSections(m) => assert_eq!(m.len(), 6),
        _ => panic!("sections should be missing"),
    }
    match prepare_save(&None, FULL, &error_rules()) {
        SaveOutcome::RuleErrors(v) => assert_eq!(v.errors, strings(&["[time] no — 감지: [running]"])),
        _ => panic!("rules should refuse"),
    }
    match prepare_save(&Some("dark".to_string()), FULL, &None) {
        SaveOutcome::Accepted(v) => assert!(v.errors.is_empty()),
        _ => panic!("should be accepted"),
    }
}

#[test]
fn versions_and_file_names() {
    let names = strings(&["hero_v001.json", "hero_sheet.md", "hero_v002.json", "heroine_v001.json", "villain_v001.json"]);
    assert_eq!(next_version(&names, "hero"), Some(3));
    assert_eq!(next_version(&Vec::new(), "hero"), Some(1));
    assert_eq!(prompt_file_name("hero", 1), "hero_v001.json");
    assert_eq!(prompt_file_name("hero", 12), "hero_v012.json");
    assert_eq!(prompt_file_name("hero", 1234), "hero_v1234.json");
    assert!(is_version_file("hero_v001.json", "hero"));
    assert!(!is_version_file("hero_sheet.md", "hero"));
    assert!(!is_version_file("villain_v001.json", "hero"));
}

#[test]
fn new_version_follows_the_highest() {
    let names = strings(&["t_v001.json", "t_v003.json"]);
    assert_eq!(next_version(&names, "t"), Some(4));
    assert!(!names.contains(&prompt_file_name("t", 4)));
    let names = strings(&["t_v001.json", "t_v002.json", "t_v003.json"]);
    assert_eq!(next_version(&names, "t"), Some(4));
    assert_eq!(next_version(&strings(&["t_v4294967294.json"]), "t"), Some(u32::MAX));
    assert_eq!(next_version(&strings(&["t_v4294967295.json"]), "t"), None);
    assert_eq!(next_version(&strings(&["t_v99999999999999999999.json"]), "t"), None);
}

#[test]
fn versions_of_another_target_are_not_counted() {
    assert!(!is_version_file("hero_villain_v009.json", "hero"));
    assert!(is_version_file("hero_villain_v009.json", "hero_villain"));
    assert!(!is_version_file("hero_v.json", "hero"));
    assert!(!is_version_file("hero_v01a.json", "hero"));
    assert!(!is_version_file("hero_v001.json.bak", "hero"));
    let names = strings(&["hero_v001.json", "hero_villain_v009.json", "hero_vX.json"]);
    assert_eq!(next_version(&names, "hero"), Some(2));
}

#[test]
fn entries_count_characters() {
    let e = new_entry("hero", "가나다", None, 1, "now".to_string());
    assert_eq!(e.char_count, 3);
    assert!(e.within_limit);
    let e = new_entry("hero", &"가".repeat(1000), None, 1, "now".to_string());
    assert!(e.within_limit);
    let e = new_entry("hero", &"a".repeat(1001), None, 1, "now".to_string());
    assert!(!e.within_limit);
}

#[test]
fn latest_and_history() {
    let v = vec![entry(2, None), entry(3, Some("a")), entry(1, None), entry(3, Some("b"))];
    assert_eq!(latest_index(&v), Some(1));
    assert_eq!(latest_index(&Vec::new()), None);
    let sorted = sort_by_version(v);
    let order: Vec<(u32, Option<String>)> = sorted.iter().map(|e| (e.version, e.memo.clone())).collect();
    assert_eq!(order, vec![(1, None), (2, None), (3, Some("a".to_string())), (3, Some("b".to_string()))]);
    assert_eq!(history_line(&sorted[2]), "  ✅ v3 | 1자 — a | 2024-01-01 10:00");
    let long = new_entry("hero", &"a".repeat(6001), None, 4, "t".to_string());
    assert_eq!(history_line(&long), "  ⚠️ v4 | 6001자 | t");
}

#[test]
fn prompt_commands_become_plans() {
    match run(PromptCmd::Check { text: "abc".to_string() }) {
        PromptPlan::Print(line) => assert_eq!(line, "✅ Midjourney 프롬프트: 3/1000자 — OK"),
        _ => panic!(),
    }
    match run(PromptCmd::Brief { target: "h".to_string(), file: Some("f".to_string()), text: Some("t".to_string()) }) {
        PromptPlan::Brief { source: BriefSource::File(f), .. } => assert_eq!(f, "f"),
        _ => panic!(),
    }
    match run(PromptCmd::Brief { target: "h".to_string(), file: None, text: Some("t".to_string()) }) {
        PromptPlan::Brief { source: BriefSource::Text(t), .. } => assert_eq!(t, "t"),
        _ => panic!(),
    }
    assert!(matches!(
        run(PromptCmd::Brief { target: "h".to_string(), file: None, text: None }),
        PromptPlan::Brief { source: BriefSource::View, .. }
    ));
    assert!(matches!(run(PromptCmd::Sheet { target: "h".to_string() }), PromptPlan::Sheet { .. }));
}
