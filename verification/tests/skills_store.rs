use rhinolabs_core::CreateSkillInput;
use rhinolabs_core::ErrorKind;
use rhinolabs_core::SkillCategory;
use rhinolabs_core::Skills;
use rhinolabs_core::SkillsConfig;
use rhinolabs_core::UpdateSkillInput;

fn demo_store() -> Skills {
    Skills::new(String::from("/home/user/.rhinolabs/skills"))
}

fn doc(name: &str, description: &str, body: &str) -> String {
    Skills::generate_skill_file(name, description, body)
}

#[test]
fn test_get_category() {
    assert_eq!(Skills::get_category("rhinolabs-standards"), SkillCategory::Corporate);
    assert_eq!(Skills::get_category("react-patterns"), SkillCategory::Frontend);
    assert_eq!(Skills::get_category("playwright"), SkillCategory::Testing);
    assert_eq!(Skills::get_category("ai-sdk-core"), SkillCategory::AiSdk);
    assert_eq!(Skills::get_category("skill-creator"), SkillCategory::Utilities);
    assert_eq!(Skills::get_category("unknown-skill"), SkillCategory::Custom);
}

#[test]
fn test_generate_skill_file() {
    let content = Skills::generate_skill_file("My Skill", "Description", "# Content");

    assert!(content.starts_with("---"));
    assert!(content.contains("name: My Skill"));
    assert!(content.contains("description: Description"));
    assert!(content.contains("# Content"));
}

#[test]
fn test_skills_config_default() {
    let config = SkillsConfig::default();

    assert!(config.disabled.is_empty());
    assert!(config.custom.is_empty());
}

#[test]
fn test_parse_skill_file() {
    let content = r#"---
name: test-skill
description: A test skill for testing
---

# Test Skill

This is the content.
"#;

    let result = Skills::parse_skill_file(content);
    assert!(result.is_ok());

    let (frontmatter, markdown) = result.unwrap();
    assert_eq!(frontmatter.name, "test-skill");
    assert!(frontmatter.description.contains("test skill"));
    assert!(markdown.contains("# Test Skill"));
}

#[test]
fn test_parse_skill_file_round_trip() {
    let generated = Skills::generate_skill_file("my-name", "my description", "body text\nline 2");
    let (fm, body) = Skills::parse_skill_file(&generated).unwrap();
    assert_eq!(fm.name, "my-name");
    assert_eq!(fm.description, "my description");
    assert_eq!(body, "body text\nline 2");
}

#[test]
fn test_parse_skill_file_missing_frontmatter() {
    let err = Skills::parse_skill_file("no delimiters here").unwrap_err();
    assert_eq!(err.kind(), ErrorKind::MalformedDocument);
}

#[test]
fn test_parse_skill_file_unterminated_frontmatter() {
    let err = Skills::parse_skill_file("---\nname: a\ndescription: b").unwrap_err();
    assert_eq!(err.kind(), ErrorKind::MalformedDocument);
}

#[test]
fn test_parse_skill_file_missing_field() {
    let err = Skills::parse_skill_file("---\nname: a\n---\n\nbody").unwrap_err();
    assert_eq!(err.kind(), ErrorKind::MalformedDocument);
}

#[test]
fn test_skills_dir_and_config_path() {
    assert_eq!(Skills::skills_dir("/home/user"), "/home/user/.rhinolabs/skills");
    assert_eq!(Skills::config_path("/home/user"), "/home/user/.rhinolabs/.skills-config.json");
}

#[test]
fn test_get_absent_skill() {
    let store = demo_store();
    assert!(store.get("nope").unwrap().is_none());
}

#[test]
fn test_get_loaded_skill() {
    let mut store = demo_store();
    store.insert_entry(
        String::from("react-patterns"),
        doc("React Patterns", "Best practices", "# React"),
        None,
    );
    let sk = store.get("react-patterns").unwrap().unwrap();
    assert_eq!(sk.id, "react-patterns");
    assert_eq!(sk.name, "React Patterns");
    assert_eq!(sk.description, "Best practices");
    assert_eq!(sk.content, "# React");
    assert_eq!(sk.category, SkillCategory::Frontend);
    assert!(sk.enabled);
    assert!(!sk.is_custom);
    assert!(sk.created_at.is_none());
    assert_eq!(sk.path, "/home/user/.rhinolabs/skills/react-patterns/SKILL.md");
}

#[test]
fn test_get_malformed_skill() {
    let mut store = demo_store();
    store.insert_entry(String::from("broken"), String::from("not a document"), None);
    let err = store.get("broken").unwrap_err();
    assert_eq!(err.kind(), ErrorKind::MalformedDocument);
}

#[test]
fn test_create_then_get() {
    let mut store = demo_store();
    let input = CreateSkillInput {
        id: String::from("my-skill"),
        name: String::from("My Skill"),
        description: String::from("Mine"),
        category: SkillCategory::Custom,
        content: String::from("# Mine"),
    };
    let sk = store.create(input, Some(String::from("2024-01-01T00:00:00Z"))).unwrap();
    assert!(sk.is_custom);
    assert_eq!(sk.category, SkillCategory::Custom);
    assert_eq!(sk.created_at.as_deref(), Some("2024-01-01T00:00:00Z"));

    let got = store.get("my-skill").unwrap().unwrap();
    assert_eq!(got.name, "My Skill");
    assert!(got.is_custom);
}

#[test]
fn test_create_existing_fails() {
    let mut store = demo_store();
    store.insert_entry(String::from("taken"), doc("Taken", "d", "b"), None);
    let input = CreateSkillInput {
        id: String::from("taken"),
        name: String::from("Another"),
        description: String::from("d"),
        category: SkillCategory::Custom,
        content: String::from("b"),
    };
    let err = store.create(input, None).unwrap_err();
    assert_eq!(err.kind(), ErrorKind::AlreadyExists);

    // independent of sidecar state: even with the id registered custom
    let mut store2 = demo_store();
    store2.insert_entry(String::from("taken"), doc("Taken", "d", "b"), None);
    let mut cfg = SkillsConfig::default();
    cfg.custom.push(String::from("taken"));
    store2.set_config(cfg);
    let input2 = CreateSkillInput {
        id: String::from("taken"),
        name: String::from("Another"),
        description: String::from("d"),
        category: SkillCategory::Custom,
        content: String::from("b"),
    };
    assert_eq!(store2.create(input2, None).unwrap_err().kind(), ErrorKind::AlreadyExists);
}

#[test]
fn test_toggle_round_trip_restores_enabled() {
    let mut store = demo_store();
    store.insert_entry(String::from("playwright"), doc("Playwright", "d", "b"), None);
    store.toggle("playwright", false).unwrap();
    assert!(!store.get("playwright").unwrap().unwrap().enabled);
    store.toggle("playwright", true).unwrap();
    assert!(store.get("playwright").unwrap().unwrap().enabled);
}

#[test]
fn test_toggle_is_idempotent() {
    let mut store = demo_store();
    store.insert_entry(String::from("zod-4"), doc("Zod", "d", "b"), None);
    store.toggle("zod-4", false).unwrap();
    store.toggle("zod-4", false).unwrap();
    assert_eq!(store.config.disabled.len(), 1);
    store.toggle("zod-4", true).unwrap();
    store.toggle("zod-4", true).unwrap();
    assert!(store.config.disabled.is_empty());
}

#[test]
fn test_toggle_missing_skill() {
    let mut store = demo_store();
    let err = store.toggle("ghost", false).unwrap_err();
    assert_eq!(err.kind(), ErrorKind::NotFound);
}

#[test]
fn test_delete_custom_skill_then_get_absent() {
    let mut store = demo_store();
    let input = CreateSkillInput {
        id: String::from("mine"),
        name: String::from("Mine"),
        description: String::from("d"),
        category: SkillCategory::Custom,
        content: String::from("b"),
    };
    store.create(input, None).unwrap();
    store.toggle("mine", false).unwrap();
    store.delete("mine").unwrap();
    assert!(store.get("mine").unwrap().is_none());
    assert!(store.config.custom.is_empty());
    assert!(store.config.disabled.is_empty());
}

#[test]
fn test_delete_builtin_denied() {
    let mut store = demo_store();
    store.insert_entry(String::from("react-patterns"), doc("React", "d", "b"), None);
    let err = store.delete("react-patterns").unwrap_err();
    assert_eq!(err.kind(), ErrorKind::PermissionDenied);

    // still denied when disabled
    store.toggle("react-patterns", false).unwrap();
    let err2 = store.delete("react-patterns").unwrap_err();
    assert_eq!(err2.kind(), ErrorKind::PermissionDenied);
}

#[test]
fn test_delete_registered_without_folder() {
    let mut store = demo_store();
    let mut cfg = SkillsConfig::default();
    cfg.custom.push(String::from("phantom"));
    store.set_config(cfg);
    let err = store.delete("phantom").unwrap_err();
    assert_eq!(err.kind(), ErrorKind::NotFound);
}

#[test]
fn test_update_fields_individually() {
    let mut store = demo_store();
    store.insert_entry(String::from("s"), doc("Old", "old desc", "old body"), None);
    store
        .update(
            "s",
            UpdateSkillInput {
                name: Some(String::from("New")),
                description: None,
                content: None,
                enabled: None,
            },
        )
        .unwrap();
    let sk = store.get("s").unwrap().unwrap();
    assert_eq!(sk.name, "New");
    assert_eq!(sk.description, "old desc");
    assert_eq!(sk.content, "old body");
}

#[test]
fn test_update_routes_enabled_through_toggle() {
    let mut store = demo_store();
    store.insert_entry(String::from("s"), doc("N", "d", "b"), None);
    store
        .update(
            "s",
            UpdateSkillInput {
                name: None,
                description: None,
                content: None,
                enabled: Some(false),
            },
        )
        .unwrap();
    assert!(!store.get("s").unwrap().unwrap().enabled);
}

#[test]
fn test_update_missing_skill() {
    let mut store = demo_store();
    let err = store
        .update(
            "ghost",
            UpdateSkillInput { name: None, description: None, content: None, enabled: None },
        )
        .unwrap_err();
    assert_eq!(err.kind(), ErrorKind::NotFound);
}

#[test]
fn test_list_sorts_by_category_then_name() {
    let mut store = demo_store();
    store.insert_entry(String::from("zz-custom"), doc("Zeta", "d", "b"), None);
    store.insert_entry(String::from("playwright"), doc("Playwright", "d", "b"), None);
    store.insert_entry(String::from("react-patterns"), doc("React", "d", "b"), None);
    store.insert_entry(String::from("rhinolabs-standards"), doc("Standards", "d", "b"), None);
    store.insert_entry(String::from("aa-custom"), doc("Alpha", "d", "b"), None);
    let listed = store.list();
    let names: Vec<&str> = listed.iter().map(|s| s.name.as_str()).collect();
    assert_eq!(names, vec!["Standards", "React", "Playwright", "Alpha", "Zeta"]);
}

#[test]
fn test_list_skips_malformed_documents() {
    let mut store = demo_store();
    store.insert_entry(String::from("good"), doc("Good", "d", "b"), None);
    store.insert_entry(String::from("bad"), String::from("garbage"), None);
    let listed = store.list();
    assert_eq!(listed.len(), 1);
    assert_eq!(listed[0].id, "good");
}

#[test]
fn test_list_empty_store() {
    let store = demo_store();
    assert!(store.list().is_empty());
}
