use std::path::PathBuf;

use avi_core::cli::centered_header;
use avi_core::library::{is_script_name, AviScriptLibraryManager};
use avi_core::response::Response;
use avi_core::skills::{is_valid_skill_folder, SkillFolder, SkillRoutes};

fn strings(items: &[&str]) -> Vec<String> {
    items.iter().map(|s| s.to_string()).collect()
}

#[test]
fn response_needs_an_id_and_a_language() {
    let mut response = Response::new("greeting".to_string());
    assert!(!response.is_valid());
    assert_eq!(response.first_text("en"), None);
    response.set_language("en".to_string(), strings(&["hello", "hi"]));
    response.set_language("pt".to_string(), vec![]);
    assert!(response.is_valid());
    assert_eq!(response.first_text("en"), Some("hello".to_string()));
    assert_eq!(response.first_text("pt"), None);
    assert_eq!(response.first_text("fr"), None);
    response.set_language("en".to_string(), strings(&["hey"]));
    assert_eq!(response.first_text("en"), Some("hey".to_string()));
    let mut nameless = Response::new(String::new());
    nameless.set_language("en".to_string(), strings(&["hello"]));
    assert!(!nameless.is_valid());
    assert_eq!(nameless.first_text("en"), None);
}

#[test]
fn library_keeps_scripts_in_order_of_registration() {
    let mut manager = AviScriptLibraryManager::new(PathBuf::from("lib"));
    assert!(manager.embedded_scripts().is_empty());
    manager.register_script("a.avi", "one");
    manager.register_script("b.avi", "two");
    manager.register_script("a.avi", "three");
    assert_eq!(
        manager.embedded_scripts(),
        vec![("a.avi".to_string(), "three"), ("b.avi".to_string(), "two")]
    );
    manager.register_scripts(&[("c.avi", "four"), ("b.avi", "five"), ("c.avi", "six")]);
    assert_eq!(
        manager.embedded_scripts(),
        vec![
            ("a.avi".to_string(), "three"),
            ("b.avi".to_string(), "five"),
            ("c.avi".to_string(), "six"),
        ]
    );
    manager.register_scripts(&[]);
    assert_eq!(manager.embedded_scripts().len(), 3);
}

#[test]
fn library_paths() {
    let manager = AviScriptLibraryManager::new(PathBuf::from("lib"));
    assert_eq!(manager.library_dir(), &PathBuf::from("lib"));
    assert_eq!(
        manager.get_script_path("config.avi"),
        PathBuf::from("lib").join("config.avi")
    );
}

#[test]
fn script_is_written_when_forced_missing_or_changed() {
    assert!(AviScriptLibraryManager::needs_update(true, Some("same"), "same"));
    assert!(AviScriptLibraryManager::needs_update(true, None, "same"));
    assert!(AviScriptLibraryManager::needs_update(false, None, "same"));
    assert!(AviScriptLibraryManager::needs_update(false, Some("other"), "same"));
    assert!(AviScriptLibraryManager::needs_update(false, Some(""), "same"));
    assert!(!AviScriptLibraryManager::needs_update(false, Some("same"), "same"));
    assert!(!AviScriptLibraryManager::needs_update(false, Some(""), ""));
}

#[test]
fn script_names_end_in_rhai() {
    assert!(is_script_name("config.rhai"));
    assert!(is_script_name(".rhai"));
    assert!(is_script_name("a.b.rhai"));
    assert!(!is_script_name("config.avi"));
    assert!(!is_script_name("rhai"));
    assert!(!is_script_name("config.rhai.bak"));
    assert!(!is_script_name("config.RHAI"));
    assert!(!is_script_name(""));
}

fn skill_folder() -> SkillFolder {
    SkillFolder {
        is_dir: true,
        dirs: strings(&["assets", "config", "intents", "responses"]),
        files: strings(&[
            "README.md",
            "skill.avi",
            "metadata.avi",
            "config/default.json",
            "config/runtime.json",
        ]),
        intent_extensions: vec![None, Some("txt".to_string()), Some("intent".to_string())],
    }
}

#[test]
fn complete_folder_is_a_skill() {
    assert!(is_valid_skill_folder(&skill_folder()));
}

#[test]
fn folder_that_is_no_directory_is_no_skill() {
    let mut folder = skill_folder();
    folder.is_dir = false;
    assert!(!is_valid_skill_folder(&folder));
}

#[test]
fn folder_without_a_required_entry_is_no_skill() {
    for missing in ["config", "intents", "responses"] {
        let mut folder = skill_folder();
        folder.dirs.retain(|d| d != missing);
        assert!(!is_valid_skill_folder(&folder), "{missing}");
    }
    for missing in [
        "skill.avi",
        "metadata.avi",
        "config/default.json",
        "config/runtime.json",
    ] {
        let mut folder = skill_folder();
        folder.files.retain(|f| f != missing);
        assert!(!is_valid_skill_folder(&folder), "{missing}");
    }
}

#[test]
fn folder_without_an_intent_is_no_skill() {
    let mut folder = skill_folder();
    folder.intent_extensions = vec![None, Some("txt".to_string()), Some("Intent".to_string())];
    assert!(!is_valid_skill_folder(&folder));
    folder.intent_extensions = vec![];
    assert!(!is_valid_skill_folder(&folder));
}

#[test]
fn intents_are_routed_to_the_skill_that_was_added_last() {
    let mut routes = SkillRoutes::new();
    assert_eq!(routes.skill_for("greet"), None);
    assert_eq!(routes.add_skill(&strings(&["greet", "bye"])), 0);
    assert_eq!(routes.add_skill(&vec![]), 1);
    assert_eq!(routes.add_skill(&strings(&["bye", "thanks"])), 2);
    assert_eq!(routes.skill_for("greet"), Some(0));
    assert_eq!(routes.skill_for("bye"), Some(2));
    assert_eq!(routes.skill_for("thanks"), Some(2));
    assert_eq!(routes.skill_for("Greet"), None);
    assert_eq!(routes.skill_for(""), None);
}

#[test]
fn header_is_centred() {
    assert_eq!(centered_header("Avi Core", 20), "===== Avi Core =====");
    assert_eq!(centered_header("Avi Core", 21), "===== Avi Core ======");
    assert_eq!(centered_header("Avi Core", 10), " Avi Core ");
    assert_eq!(centered_header("", 8), "========");
    assert_eq!(centered_header("", 2), "==");
    assert_eq!(centered_header("x", 40).len(), 40);
    assert_eq!(centered_header("é", 8), "== é ==");
}

#[test]
fn scripts_to_write() {
    let mut manager = AviScriptLibraryManager::new(PathBuf::from("lib"));
    manager.register_scripts(&[("a.avi", "one"), ("b.avi", "two"), ("c.avi", "three")]);
    let installed = vec![Some("one".to_string()), None, Some("old".to_string())];
    assert_eq!(manager.install_scripts(&installed), strings(&["b.avi", "c.avi"]));
    assert_eq!(manager.update_scripts(false, &installed), strings(&["b.avi", "c.avi"]));
    assert_eq!(
        manager.update_scripts(true, &installed),
        strings(&["a.avi", "b.avi", "c.avi"])
    );
    let same = vec![
        Some("one".to_string()),
        Some("two".to_string()),
        Some("three".to_string()),
    ];
    assert!(manager.install_scripts(&same).is_empty());
    let empty = AviScriptLibraryManager::new(PathBuf::from("lib"));
    assert!(empty.update_scripts(true, &vec![]).is_empty());
    assert!(manager.update_scripts(true, &vec![None]).is_empty());
    assert!(manager.install_scripts(&vec![None, None, None, None]).is_empty());
    manager.register_script("a.avi", "new");
    assert_eq!(manager.install_scripts(&same), strings(&["a.avi"]));
}

#[test]
fn scripts_among_the_files() {
    assert_eq!(
        AviScriptLibraryManager::list_available_scripts(&strings(&[
            "b.rhai", "notes.txt", "a.rhai", "rhai", "c.rhai.bak", ".rhai"
        ])),
        strings(&["b.rhai", "a.rhai", ".rhai"])
    );
    assert!(AviScriptLibraryManager::list_available_scripts(&vec![]).is_empty());
}
