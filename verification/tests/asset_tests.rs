use aip::asset::{
    has_extension,
    advance_stage, can_confirm, confirm_source, ext_from_url, image_file_name, list_line,
    mark_confirmed, meta_file_name, new_asset, run, shelves, stage_lines, stage_mark, type_label,
    type_to_dir, AdvanceOutcome, AssetCmd, AssetError, AssetPlan, AssetStage, ImageSource,
};

fn meta(stage: AssetStage, concept: Option<&str>, keywords: Option<&str>) -> aip::asset::AssetMeta {
    let mut m = new_asset(
        "hero".to_string(),
        "character".to_string(),
        None,
        concept.map(|s| s.to_string()),
        keywords.map(|s| s.to_string()),
        "2024-01-01 10:00".to_string(),
    );
    m.stage = stage;
    m
}

#[test]
fn stages_in_order() {
    let all = [AssetStage::Concept, AssetStage::PromptReady, AssetStage::Generated, AssetStage::Confirmed];
    for (i, s) in all.iter().enumerate() {
        assert_eq!(s.index() as usize, i + 1);
        match s.next() {
            Some(n) => assert_eq!(n.index(), s.index() + 1),
            None => assert_eq!(*s, AssetStage::Confirmed),
        }
    }
    assert_eq!(AssetStage::default(), AssetStage::Concept);
    assert_eq!(AssetStage::Generated.label(), "이미지 생성");
    assert_eq!(AssetStage::Concept.label(), "컨셉 정리");
}

#[test]
fn kinds_and_folders() {
    assert_eq!(type_to_dir("character"), Some("characters"));
    assert_eq!(type_to_dir("object"), Some("objects"));
    assert_eq!(type_to_dir("weapon"), None);
    assert_eq!(type_label("monster"), "몬스터");
    assert_eq!(type_label("weapon"), "weapon");
    let s = shelves();
    assert_eq!(s.len(), 4);
    assert_eq!(s[2].dir, "backgrounds");
    assert_eq!(s[2].label, "배경");
}

#[test]
fn url_extensions() {
    assert_eq!(ext_from_url("https://cdn.x/a/b.JPG?size=2"), "jpg");
    assert_eq!(ext_from_url("https://cdn.x/pic.webp"), "webp");
    assert_eq!(ext_from_url("https://cdn.x/pic.bmp"), "png");
    assert_eq!(ext_from_url("noext"), "png");
    assert_eq!(ext_from_url("a.Jpeg"), "jpeg");
    assert_eq!(ext_from_url("https://cdn.x/pic.PNG"), "png");
    assert_eq!(ext_from_url("https://cdn.x/pic.GIF?x=1"), "gif");
    assert_eq!(ext_from_url("https://cdn.x/pic.WebP"), "webp");
}

#[test]
fn image_names() {
    let local = ImageSource::Local("shots/pic.WEBP".to_string());
    assert_eq!(image_file_name("hero", &local), "hero.WEBP");
    let bare = ImageSource::Local("shots/pic".to_string());
    assert_eq!(image_file_name("hero", &bare), "hero.png");
    let remote = ImageSource::Remote("http://x/y.GIF".to_string());
    assert_eq!(image_file_name("hero", &remote), "hero.gif");
    assert_eq!(meta_file_name("hero"), "hero.json");
}

#[test]
fn advancing() {
    assert!(matches!(advance_stage(&meta(AssetStage::Concept, None, None)), AdvanceOutcome::NeedsConcept));
    assert!(matches!(
        advance_stage(&meta(AssetStage::Concept, None, Some("blonde"))),
        AdvanceOutcome::Moved { from: AssetStage::Concept, to: AssetStage::PromptReady }
    ));
    assert!(matches!(
        advance_stage(&meta(AssetStage::PromptReady, None, None)),
        AdvanceOutcome::Moved { from: AssetStage::PromptReady, to: AssetStage::Generated }
    ));
    assert!(matches!(advance_stage(&meta(AssetStage::Confirmed, Some("c"), None)), AdvanceOutcome::AlreadyConfirmed));
}

#[test]
fn confirming() {
    assert!(can_confirm(AssetStage::Generated));
    assert!(!can_confirm(AssetStage::PromptReady));
    assert!(!can_confirm(AssetStage::Confirmed));
    let mut m = meta(AssetStage::Generated, Some("c"), None);
    mark_confirmed(&mut m, "hero.png".to_string());
    assert_eq!(m.stage, AssetStage::Confirmed);
    assert_eq!(m.image.as_deref(), Some("hero.png"));
    assert!(matches!(advance_stage(&m), AdvanceOutcome::AlreadyConfirmed));
    assert!(matches!(confirm_source(Some("a".into()), Some("b".into())), Some(ImageSource::Local(_))));
    assert!(matches!(confirm_source(None, Some("b".into())), Some(ImageSource::Remote(_))));
    assert!(confirm_source(None, None).is_none());
}

#[test]
fn pipeline_lines() {
    assert_eq!(stage_mark(AssetStage::Concept, AssetStage::Generated), "✅");
    assert_eq!(stage_mark(AssetStage::Generated, AssetStage::Generated), "👉");
    assert_eq!(stage_mark(AssetStage::Confirmed, AssetStage::Generated), "⬜");
    assert_eq!(stage_lines(AssetStage::PromptReady), vec![
        "  ✅ [1/4] 컨셉 정리".to_string(),
        "  👉 [2/4] 프롬프트 생성".to_string(),
        "  ⬜ [3/4] 이미지 생성".to_string(),
        "  ⬜ [4/4] 확정".to_string(),
    ]);
    let mut m = meta(AssetStage::Generated, None, None);
    assert_eq!(list_line(&m), "     hero | [3/4] 이미지 생성");
    m.image = Some("hero.png".to_string());
    assert_eq!(list_line(&m), "  🖼 hero | [3/4] 이미지 생성");
}

#[test]
fn asset_commands_become_plans() {
    let add = AssetCmd::Add {
        kind: "monster".to_string(),
        name: "dragon".to_string(),
        image: None,
        url: Some("http://x/d.png".to_string()),
        concept: None,
        keywords: Some("red".to_string()),
    };
    match run(add) {
        Ok(AssetPlan::Add { dir, source: Some(ImageSource::Remote(u)), .. }) => {
            assert_eq!(dir, "monsters");
            assert_eq!(u, "http://x/d.png");
        }
        _ => panic!(),
    }
    let bad = AssetCmd::Add { kind: "weapon".into(), name: "x".into(), image: None, url: None, concept: None, keywords: None };
    assert!(matches!(run(bad), Err(AssetError::UnknownType(k)) if k == "weapon"));
    match run(AssetCmd::List { kind: Some("background".into()) }) {
        Ok(AssetPlan::List(v)) => {
            assert_eq!(v.len(), 1);
            assert_eq!(v[0].dir, "backgrounds");
            assert_eq!(v[0].label, "배경");
        }
        _ => panic!(),
    }
    assert!(matches!(run(AssetCmd::List { kind: None }), Ok(AssetPlan::List(v)) if v.len() == 4));
    assert!(matches!(
        run(AssetCmd::Confirm { name: "x".into(), image: None, url: None }),
        Err(AssetError::NoImageGiven)
    ));
    assert!(matches!(run(AssetCmd::Advance { name: "x".into() }), Ok(AssetPlan::Advance { .. })));
}

#[test]
fn file_extensions() {
    assert!(has_extension("hero.json", "json"));
    assert!(!has_extension("hero.json.bak", "json"));
    assert!(!has_extension(".json", "json"));
    assert!(!has_extension("hero", "json"));
    assert!(has_extension("notes.md", "md"));
    assert!(!has_extension("hero.JSON", "json"));
}
