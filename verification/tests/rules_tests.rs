use aip::rules::{
    collect_messages, default_scope, extract_section, get_search_text, push_by_severity,
    validate_prompt_rules, validation_lines, Action, MatchDef, RangeCheck, Rule, RulesFile,
    SectionDef, ValidationResult,
};

fn act(kind: &str, text: &str) -> Action {
    Action { kind: kind.to_string(), text: text.to_string() }
}

fn rule(id: &str, severity: &str, match_def: MatchDef, actions: Vec<Action>) -> Rule {
    Rule {
        id: id.to_string(),
        description: String::new(),
        severity: severity.to_string(),
        match_def,
        actions,
    }
}

fn strings(v: &[&str]) -> Vec<String> {
    v.iter().map(|s| s.to_string()).collect()
}

const SHEET: &str = "## Style\n dark fantasy anime \n## Composition\nhero center, castle behind\n## Character Details\n(placeholder)\n## Environmental Elements\ncastle on a cliff\n## Action Elements\nstanding\n## Lighting & Atmosphere\nmoonlight\n## Technical Details\n--s 2000 --ar 16:9\n";

#[test]
fn sections_are_cut_and_trimmed() {
    assert_eq!(extract_section(SHEET, "## Style").as_deref(), Some("dark fantasy anime"));
    assert_eq!(extract_section(SHEET, "## Character Details").as_deref(), Some("(placeholder)"));
    assert_eq!(extract_section(SHEET, "## Missing"), None);
    assert_eq!(extract_section("x ## Style a ## Style b", "## Style").as_deref(), Some("a"));
    assert_eq!(extract_section("abc", "").as_deref(), Some("a"));
    assert_eq!(extract_section("", "").as_deref(), Some(""));
}

#[test]
fn search_text_by_scope() {
    assert_eq!(default_scope(), "all");
    assert_eq!(get_search_text("AbC", "all"), "abc");
    assert_eq!(get_search_text(SHEET, "section:Action Elements"), "standing");
    assert_eq!(get_search_text(SHEET, "section:Nothing"), "");
    assert_eq!(get_search_text("XY", "whatever"), "xy");
}

#[test]
fn messages_join_message_and_suggest_texts() {
    let actions = vec![act("block", "x"), act("message", "시간 흐름"), act("suggest", "avp 사용")];
    assert_eq!(collect_messages(&actions), "시간 흐름 avp 사용");
    assert_eq!(collect_messages(&Vec::new()), "");
}

#[test]
fn severity_routes_reports() {
    let mut r = ValidationResult::new();
    push_by_severity(&mut r, "error", "e1", &vec![act("suggest", "use avp")]);
    push_by_severity(&mut r, "warn", "w1", &Vec::new());
    push_by_severity(&mut r, "info", "i1", &Vec::new());
    push_by_severity(&mut r, "other", "o1", &Vec::new());
    assert_eq!(r.errors, strings(&["e1"]));
    assert_eq!(r.warnings, strings(&["w1", "ℹ️  i1", "o1"]));
    assert!(r.suggest_video);
    let mut q = ValidationResult::new();
    push_by_severity(&mut q, "error", "e", &vec![act("message", "avp")]);
    assert!(!q.suggest_video);
}

#[test]
fn missing_rules_give_one_warning() {
    let r = validate_prompt_rules(&None, "anything");
    assert!(r.errors.is_empty());
    assert_eq!(r.warnings, strings(&["규칙 파일 로드 실패 — 검증 건너뜀"]));
}

#[test]
fn keyword_list_rule() {
    let list = |exceptions: &[&str]| MatchDef::List {
        keywords: strings(&["Then", "after"]),
        exceptions: strings(exceptions),
        scope: "all".to_string(),
    };
    let file = RulesFile {
        rules: vec![rule("time", "error", list(&[]), vec![act("message", "시간 흐름 금지"), act("suggest", "avp")])],
    };
    let r = validate_prompt_rules(&Some(file), "He runs, then jumps AFTER the fall");
    assert_eq!(r.errors, strings(&["[time] 시간 흐름 금지 avp — 감지: [Then, after]"]));
    assert!(r.suggest_video);
    let file = RulesFile { rules: vec![rule("time", "error", list(&["fall"]), Vec::new())] };
    let r = validate_prompt_rules(&Some(file), "then the fall");
    assert!(r.errors.is_empty() && r.warnings.is_empty());
}

#[test]
fn section_check_rule() {
    let secs = vec![
        SectionDef { marker: "## Style".to_string(), min_length: 30 },
        SectionDef { marker: "## Character Details".to_string(), min_length: 1 },
        SectionDef { marker: "## Extra".to_string(), min_length: 1 },
        SectionDef { marker: "## Composition".to_string(), min_length: 5 },
    ];
    let file = RulesFile { rules: vec![rule("sec", "warn", MatchDef::SectionCheck { sections: secs }, Vec::new())] };
    let r = validate_prompt_rules(&Some(file), SHEET);
    assert_eq!(
        r.warnings,
        strings(&[
            "[sec] 섹션 짧음: ## Style (18자 < 30자)",
            "[sec] 섹션 비어있음: ## Character Details",
            "[sec] 섹션 누락: ## Extra",
        ])
    );
}

#[test]
fn section_length_counts_bytes() {
    let secs = vec![SectionDef { marker: "## Style".to_string(), min_length: 7 }];
    let file = RulesFile { rules: vec![rule("s", "warn", MatchDef::SectionCheck { sections: secs }, Vec::new())] };
    let r = validate_prompt_rules(&Some(file), "## Style\n가나");
    assert_eq!(r.warnings, strings(&["[s] 섹션 짧음: ## Style (6자 < 7자)"]));
}

#[test]
fn duplicate_rule() {
    let text = "## Style\nCastle castle dark\n## Composition\nthe castle, dark sky\n## Lighting & Atmosphere\nthe dark\n";
    let file = RulesFile {
        rules: vec![rule(
            "dup",
            "info",
            MatchDef::Duplicate { min_word_length: 4, threshold: 2, ignore: strings(&["the"]) },
            vec![act("message", "중복")],
        )],
    };
    let r = validate_prompt_rules(&Some(file), text);
    assert_eq!(
        r.warnings,
        strings(&["ℹ️  [dup] 중복 — 'castle' → Style, Composition; 'dark' → Style, Composition, Lighting & Atmosphere"])
    );
}

#[test]
fn regex_rule_checks_values_and_ranges() {
    let file = RulesFile {
        rules: vec![
            rule(
                "stylize",
                "warn",
                MatchDef::Regex {
                    pattern: r"--s (\d+)".to_string(),
                    allowed_values: Vec::new(),
                    range: Some(RangeCheck { min: 0, max: 1000 }),
                    default: Some(100),
                    scope: "all".to_string(),
                },
                Vec::new(),
            ),
            rule(
                "ar",
                "warn",
                MatchDef::Regex {
                    pattern: r"--ar (\S+)".to_string(),
                    allowed_values: strings(&["1:1", "4:3"]),
                    range: None,
                    default: None,
                    scope: "all".to_string(),
                },
                vec![act("message", "비율 확인")],
            ),
            rule(
                "broken",
                "error",
                MatchDef::Regex {
                    pattern: "(".to_string(),
                    allowed_values: strings(&["x"]),
                    range: None,
                    default: None,
                    scope: "all".to_string(),
                },
                Vec::new(),
            ),
        ],
    };
    let r = validate_prompt_rules(&Some(file), SHEET);
    assert!(r.errors.is_empty());
    assert_eq!(
        r.warnings,
        strings(&["[stylize] 범위 초과: 2000 (허용: 0~1000, 기본값: 100)", "[ar] 비율 확인 (값: 16:9)"])
    );
}

#[test]
fn lines_of_a_result() {
    assert_eq!(validation_lines(&ValidationResult::new()), strings(&["✅ 검증 통과"]));
    let mut r = ValidationResult::new();
    push_by_severity(&mut r, "error", "bad", &vec![act("suggest", "avp")]);
    push_by_severity(&mut r, "warn", "meh", &Vec::new());
    assert_eq!(
        validation_lines(&r),
        strings(&[
            "  ❌ bad",
            "  ⚠️  meh",
            "",
            "  💡 이 프롬프트는 영상에 더 적합합니다. `avp`로 타임라인을 분할하세요.",
        ])
    );
}

#[test]
fn rules_without_errors_give_no_errors() {
    let empty = validate_prompt_rules(&Some(RulesFile { rules: Vec::new() }), SHEET);
    assert!(empty.errors.is_empty() && empty.warnings.is_empty() && !empty.suggest_video);
    let list = MatchDef::List { keywords: strings(&["castle", "hero"]), exceptions: Vec::new(), scope: "all".to_string() };
    let sections = MatchDef::SectionCheck {
        sections: vec![SectionDef { marker: "## Nope".to_string(), min_length: 1 }],
    };
    let file = RulesFile {
        rules: vec![
            rule("a", "info", list, vec![act("suggest", "avp")]),
            rule("b", "warn", sections, vec![act("suggest", "avp")]),
        ],
    };
    let r = validate_prompt_rules(&Some(file), SHEET);
    assert!(r.errors.is_empty());
    assert!(!r.suggest_video);
    assert_eq!(r.warnings, strings(&["ℹ️  [a] avp — 감지: [castle, hero]", "[b] 섹션 누락: ## Nope"]));
}
