use aip::git::{creation_outcome, history_line, remote_url, repo_name, RepoCreation};
use aip::project::{sort_names, asset_count_line, new_project, prefix_line, project_line, set_style_prefix};
use aip::skill::{change_mark, diff_prefix, push_outcome, run, skill_log_line, PushOutcome, SkillCmd, SkillPlan};

#[test]
fn history_lines() {
    assert_eq!(history_line(0, &Some("  init \n".to_string())), "  01-01 00:00 init");
    assert_eq!(history_line(86_400 + 3_660, &None), "  01-02 01:01 (no message)");
    assert_eq!(history_line(i64::MAX, &Some("x".to_string())), "   x");
    assert_eq!(
        skill_log_line("0123456789abcdef", 1_700_000_000, &Some("skill: 업데이트\n".to_string())),
        "  0123456 2023-11-14 22:13 skill: 업데이트"
    );
}

#[test]
fn remote_names() {
    assert_eq!(repo_name("aip-", "castle"), "aip-castle");
    assert_eq!(remote_url("someone", "aip-castle"), "https://github.com/someone/aip-castle.git");
    assert!(matches!(creation_outcome(true, ""), RepoCreation::Created));
    assert!(matches!(creation_outcome(false, "GraphQL: Name already exists on this account"), RepoCreation::AlreadyExists));
    assert!(matches!(creation_outcome(false, "  denied \n"), RepoCreation::Failed(m) if m == "denied"));
}

#[test]
fn skill_commands() {
    match run(SkillCmd::Push { message: None }) {
        SkillPlan::Push { message } => assert_eq!(message, "skill: 스킬 파일 업데이트"),
        _ => panic!(),
    }
    assert!(matches!(run(SkillCmd::Push { message: Some("m".into()) }), SkillPlan::Push { message } if message == "m"));
    assert!(matches!(run(SkillCmd::Log { count: 10 }), SkillPlan::Log { count: 10 }));
    assert_eq!(change_mark(true, true, false), "추가");
    assert_eq!(change_mark(false, true, true), "수정");
    assert_eq!(change_mark(false, false, true), "삭제");
    assert_eq!(change_mark(false, false, false), "변경");
    assert!(matches!(push_outcome(true, "x"), PushOutcome::Pushed));
    assert!(matches!(push_outcome(false, "Everything up-to-date"), PushOutcome::UpToDate));
    assert!(matches!(push_outcome(false, " rejected\n"), PushOutcome::Failed(m) if m == "rejected"));
    assert_eq!(diff_prefix('+'), "\x1b[32m+");
    assert_eq!(diff_prefix('-'), "\x1b[31m-");
    assert_eq!(diff_prefix(' '), " ");
}

#[test]
fn project_metadata() {
    let mut p = new_project("castle".into(), None, Some("포스터".into()), "now".into());
    assert_eq!(p.style, "미정");
    assert_eq!(p.project_type, "포스터");
    assert_eq!(p.style_prefix, "");
    assert_eq!(prefix_line(&p.style_prefix), "⚠️  스타일 접두사 미설정");
    set_style_prefix(&mut p, "dark fantasy".into());
    assert_eq!(p.style_prefix, "dark fantasy");
    assert_eq!(prefix_line(&p.style_prefix), "🎨 스타일 접두사: dark fantasy");
    assert_eq!(project_line("castle", &p, &Some("castle".into())), "  castle — 포스터 / 미정 ◀ current");
    assert_eq!(project_line("castle", &p, &None), "  castle — 포스터 / 미정");
    assert_eq!(asset_count_line("캐릭터", 2), "  ✅ 캐릭터 — 2개");
    assert_eq!(asset_count_line("배경", 0), "  ⬜ 배경 — 0개");
}

#[test]
fn project_names_in_order() {
    let names: Vec<String> = ["캐릭터", "beta", "Alpha", "alpha", "beta"].iter().map(|s| s.to_string()).collect();
    let mut expected = names.clone();
    expected.sort();
    assert_eq!(sort_names(names), expected);
    assert_eq!(sort_names(Vec::new()), Vec::<String>::new());
}
