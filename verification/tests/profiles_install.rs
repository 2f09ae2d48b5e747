use rhinolabs_core::ErrorKind;
use rhinolabs_core::Profile;
use rhinolabs_core::Profiles;
use rhinolabs_core::ProfileType;
use rhinolabs_core::ScaffoldState;
use rhinolabs_core::Skills;

fn profile(id: &str, ptype: ProfileType, skills: Vec<&str>) -> Profile {
    Profile {
        id: String::from(id),
        name: String::from(id),
        description: String::new(),
        profile_type: ptype,
        skills: skills.into_iter().map(String::from).collect(),
        created_at: String::from("2024-01-01"),
        updated_at: String::from("2024-01-02"),
    }
}

fn store_with(ids: Vec<&str>) -> Skills {
    let mut store = Skills::new(String::from("/home/user/.rhinolabs/skills"));
    for id in ids {
        store.insert_entry(
            String::from(id),
            Skills::generate_skill_file(id, "a description", "some body"),
            None,
        );
    }
    store
}

const EMPTY_TARGET: ScaffoldState = ScaffoldState {
    has_plugin_manifest: false,
    has_skills_dir: false,
    has_instructions: false,
};

#[test]
fn test_install_partitions_skills() {
    let mut reg = Profiles::new();
    reg.create(profile("p", ProfileType::Project, vec!["a", "b"])).unwrap();
    let store = store_with(vec!["a"]);
    let (res, _plan) = reg
        .install(&store, "p", None, "/home/user", "/work/proj", &EMPTY_TARGET)
        .unwrap();
    assert_eq!(res.skills_installed, vec![String::from("a")]);
    assert_eq!(res.skills_failed.len(), 1);
    assert_eq!(res.skills_failed[0].skill_id, "b");
    assert!(!res.skills_failed[0].error.is_empty());
    // every id in exactly one list
    assert_eq!(res.skills_installed.len() + res.skills_failed.len(), 2);
}

#[test]
fn test_install_missing_profile() {
    let reg = Profiles::new();
    let store = store_with(vec![]);
    let err = reg.install(&store, "ghost", None, "/h", "/w", &EMPTY_TARGET).unwrap_err();
    assert_eq!(err.kind(), ErrorKind::NotFound);
}

#[test]
fn test_install_project_defaults_to_cwd() {
    let mut reg = Profiles::new();
    reg.create(profile("p", ProfileType::Project, vec!["a"])).unwrap();
    let store = store_with(vec!["a"]);
    let (res, plan) = reg.install(&store, "p", None, "/home/user", "/work/proj", &EMPTY_TARGET).unwrap();
    assert_eq!(res.target_path, "/work/proj");
    assert!(!plan.path_ignored);
    // all three scaffold artifacts are created once
    assert!(plan.create_plugin_manifest);
    assert!(plan.create_skills_dir);
    assert!(plan.create_instructions);
    assert_eq!(plan.writes.len(), 1);
}

#[test]
fn test_install_project_uses_supplied_path() {
    let mut reg = Profiles::new();
    reg.create(profile("p", ProfileType::Project, vec!["a"])).unwrap();
    let store = store_with(vec!["a"]);
    let (res, _) = reg
        .install(&store, "p", Some(String::from("/elsewhere")), "/home/user", "/work/proj", &EMPTY_TARGET)
        .unwrap();
    assert_eq!(res.target_path, "/elsewhere");
}

#[test]
fn test_install_user_ignores_path() {
    let mut reg = Profiles::new();
    reg.create(profile("u", ProfileType::User, vec!["a"])).unwrap();
    let store = store_with(vec!["a"]);
    let (res, plan) = reg
        .install(&store, "u", Some(String::from("/elsewhere")), "/home/user", "/work/proj", &EMPTY_TARGET)
        .unwrap();
    assert_eq!(res.target_path, "/home/user/.rhinolabs");
    assert!(plan.path_ignored);
    // user installs never create the project scaffold
    assert!(!plan.create_plugin_manifest);
    assert!(!plan.create_skills_dir);
    assert!(!plan.create_instructions);
}

#[test]
fn test_install_empty_profile_touches_nothing() {
    let mut reg = Profiles::new();
    reg.create(profile("p", ProfileType::Project, vec![])).unwrap();
    let store = store_with(vec![]);
    let (res, plan) = reg.install(&store, "p", None, "/home/user", "/work/proj", &EMPTY_TARGET).unwrap();
    assert!(plan.empty_profile);
    assert!(res.skills_installed.is_empty());
    assert!(res.skills_failed.is_empty());
    assert!(plan.writes.is_empty());
    assert!(!plan.create_plugin_manifest);
    assert!(!plan.create_skills_dir);
    assert!(!plan.create_instructions);
}

#[test]
fn test_scaffold_created_once_update_rewrites_skills() {
    let mut reg = Profiles::new();
    reg.create(profile("p", ProfileType::Project, vec!["a", "b"])).unwrap();
    let store = store_with(vec!["a", "b"]);

    // first install against a bare target creates all three artifacts
    let (_, plan1) = reg.install(&store, "p", None, "/home/user", "/work/proj", &EMPTY_TARGET).unwrap();
    assert!(plan1.create_plugin_manifest);

    // a second install against the now-populated target recreates nothing
    let populated = ScaffoldState {
        has_plugin_manifest: true,
        has_skills_dir: true,
        has_instructions: true,
    };
    let (_, plan2) = reg.install(&store, "p", None, "/home/user", "/work/proj", &populated).unwrap();
    assert!(!plan2.create_plugin_manifest);
    assert!(!plan2.create_skills_dir);
    assert!(!plan2.create_instructions);

    // update never touches the scaffold but rewrites every skill document
    let (res3, plan3) = reg.update_installed(&store, "p", None, "/home/user", "/work/proj").unwrap();
    assert!(!plan3.create_plugin_manifest);
    assert!(!plan3.create_skills_dir);
    assert!(!plan3.create_instructions);
    assert_eq!(plan3.writes.len(), 2);
    assert_eq!(res3.skills_installed.len(), 2);
}

#[test]
fn test_install_writes_generated_documents() {
    let mut reg = Profiles::new();
    reg.create(profile("p", ProfileType::Project, vec!["a"])).unwrap();
    let store = store_with(vec!["a"]);
    let (_, plan) = reg.install(&store, "p", None, "/home/user", "/work/proj", &EMPTY_TARGET).unwrap();
    assert_eq!(plan.writes.len(), 1);
    assert_eq!(plan.writes[0].skill_id, "a");
    assert!(plan.writes[0].document.contains("name: a"));
    assert!(plan.writes[0].document.contains("some body"));
}

#[test]
fn test_uninstall_missing_path() {
    let err = Profiles::uninstall(false, true, true).unwrap_err();
    assert_eq!(err.kind(), ErrorKind::NotFound);
}

#[test]
fn test_uninstall_no_artifacts_is_noop() {
    let plan = Profiles::uninstall(true, false, false).unwrap();
    assert!(plan.nothing_to_do);
    assert!(!plan.remove_skills_dir);
    assert!(!plan.remove_plugin_dir);
    assert!(!plan.remove_instructions);
}

#[test]
fn test_uninstall_removes_exactly_generated_artifacts() {
    let plan = Profiles::uninstall(true, true, false).unwrap();
    assert!(!plan.nothing_to_do);
    assert!(plan.remove_skills_dir);
    assert!(!plan.remove_plugin_dir);
    assert!(plan.remove_instructions);

    let plan2 = Profiles::uninstall(true, true, true).unwrap();
    assert!(plan2.remove_skills_dir);
    assert!(plan2.remove_plugin_dir);
    assert!(plan2.remove_instructions);
}

#[test]
fn test_registry_get_and_list() {
    let mut reg = Profiles::new();
    reg.create(profile("one", ProfileType::User, vec!["x"])).unwrap();
    reg.create(profile("two", ProfileType::Project, vec![])).unwrap();
    assert_eq!(reg.list().len(), 2);
    assert_eq!(reg.get("one").unwrap().skills, vec![String::from("x")]);
    assert!(reg.get("three").is_none());
    let err = reg.create(profile("one", ProfileType::User, vec![])).unwrap_err();
    assert_eq!(err.kind(), ErrorKind::AlreadyExists);
}

#[test]
fn test_default_user_profile() {
    let mut reg = Profiles::new();
    reg.create(profile("u", ProfileType::User, vec![])).unwrap();
    reg.create(profile("p", ProfileType::Project, vec![])).unwrap();
    assert!(reg.get_default_user_profile().is_none());
    let err = reg.set_default("p").unwrap_err();
    assert_eq!(err.kind(), ErrorKind::Configuration);
    assert_eq!(reg.set_default("ghost").unwrap_err().kind(), ErrorKind::NotFound);
    reg.set_default("u").unwrap();
    let d = reg.get_default_user_profile().unwrap();
    assert_eq!(d.id, "u");
    assert_eq!(d.profile_type, ProfileType::User);
}
