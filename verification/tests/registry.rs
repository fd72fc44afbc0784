use desktop_launcher::application::{Application, ApplicationBody};
use desktop_launcher::registry::Registry;

fn app(name: &str, program: &str) -> Application {
    Application::new(
        String::from(name),
        format!("/apps/{}.desktop", program),
        vec![String::from(program)],
        false,
    )
}

fn sorted(mut names: Vec<String>) -> Vec<String> {
    names.sort();
    names
}

#[test]
fn new_registry_is_empty() {
    let registry = Registry::new();
    assert_eq!(registry.len(), 0);
    assert!(registry.names().is_empty());
    assert_eq!(registry.get("Editor"), None);
}

#[test]
fn insert_registers_under_the_name() {
    let mut registry = Registry::new();
    registry.insert(app("Editor", "edit"));
    assert_eq!(registry.len(), 1);
    assert_eq!(registry.get("Editor"), Some(&app("Editor", "edit").body));
    assert_eq!(registry.get("editor"), None);
    assert_eq!(registry.get(""), None);
}

#[test]
fn insert_replaces_an_application_of_the_same_name() {
    let mut registry = Registry::new();
    registry.insert(app("Editor", "edit"));
    registry.insert(app("Browser", "browse"));
    registry.insert(app("Editor", "vim"));
    assert_eq!(registry.len(), 2);
    assert_eq!(registry.get("Editor"), Some(&app("Editor", "vim").body));
    assert_eq!(registry.get("Browser"), Some(&app("Browser", "browse").body));
}

#[test]
fn names_lists_every_name_once() {
    let mut registry = Registry::new();
    registry.insert(app("Zed", "zed"));
    registry.insert(app("Atom", "atom"));
    registry.insert(app("Zed", "zeditor"));
    registry.insert(app("vim", "vim"));
    assert_eq!(sorted(registry.names()), vec!["Atom", "Zed", "vim"]);
}

#[test]
fn extend_registers_in_order() {
    let mut registry = Registry::new();
    registry.insert(app("Editor", "edit"));
    registry.extend(vec![app("Mail", "mail"), app("Editor", "vim"), app("Mail", "mutt")]);
    assert_eq!(registry.len(), 2);
    assert_eq!(registry.get("Editor"), Some(&app("Editor", "vim").body));
    assert_eq!(registry.get("Mail"), Some(&app("Mail", "mutt").body));
}

#[test]
fn distinct_names_give_one_entry_each() {
    let apps: Vec<Application> =
        ["a", "b", "c", "d", "e"].iter().map(|name| app(name, name)).collect();
    let registry = Registry::build(vec![Some(apps)]);
    assert_eq!(registry.len(), 5);
    for name in ["a", "b", "c", "d", "e"] {
        assert_eq!(registry.get(name), Some(&app(name, name).body));
    }
}

#[test]
fn later_directory_overrides_earlier() {
    let body_a = || {
        ApplicationBody::new(
            String::from("/usr/share/applications/editor.desktop"),
            vec![String::from("system-editor")],
            false,
        )
    };
    let body_b = || {
        ApplicationBody::new(
            String::from("/home/u/.local/share/applications/editor.desktop"),
            vec![String::from("my-editor"), String::from("--fast")],
            true,
        )
    };
    let a = vec![Application { name: String::from("Editor"), body: body_a() }];
    let b = vec![Application { name: String::from("Editor"), body: body_b() }];
    let registry = Registry::build(vec![Some(a), Some(b)]);
    assert_eq!(registry.len(), 1);
    assert_eq!(registry.get("Editor"), Some(&body_b()));

    let a = vec![Application { name: String::from("Editor"), body: body_a() }];
    let b = vec![Application { name: String::from("Editor"), body: body_b() }];
    let reversed = Registry::build(vec![Some(b), Some(a)]);
    assert_eq!(reversed.get("Editor"), Some(&body_a()));
}

#[test]
fn earlier_directory_keeps_what_is_not_overridden() {
    let system = vec![app("Editor", "edit"), app("Browser", "browse")];
    let user = vec![app("Editor", "vim"), app("Mail", "mutt")];
    let registry = Registry::build(vec![Some(system), Some(user)]);
    assert_eq!(registry.len(), 3);
    assert_eq!(registry.get("Editor"), Some(&app("Editor", "vim").body));
    assert_eq!(registry.get("Browser"), Some(&app("Browser", "browse").body));
    assert_eq!(registry.get("Mail"), Some(&app("Mail", "mutt").body));
}

#[test]
fn unreadable_directory_contributes_nothing() {
    let registry = Registry::build(vec![None, Some(vec![app("Editor", "edit")]), None]);
    assert_eq!(registry.len(), 1);
    assert_eq!(registry.get("Editor"), Some(&app("Editor", "edit").body));
}

#[test]
fn registry_is_empty_when_every_directory_fails() {
    let registry = Registry::build(vec![None, None]);
    assert_eq!(registry.len(), 0);
    assert!(registry.names().is_empty());
    assert_eq!(Registry::build(Vec::new()).len(), 0);
}

#[test]
fn building_twice_gives_the_same_registry() {
    let directories = || {
        vec![
            Some(vec![app("Editor", "edit"), app("Browser", "browse")]),
            None,
            Some(vec![app("Editor", "vim")]),
        ]
    };
    let first = Registry::build(directories());
    let second = Registry::build(directories());
    assert_eq!(sorted(first.names()), sorted(second.names()));
    for name in first.names() {
        assert_eq!(first.get(&name), second.get(&name));
    }
}

#[test]
fn order_within_a_directory_does_not_matter() {
    let first = Registry::build(vec![
        Some(vec![app("a", "a"), app("b", "b"), app("c", "c")]),
        Some(vec![app("b", "other"), app("d", "d")]),
    ]);
    let second = Registry::build(vec![
        Some(vec![app("c", "c"), app("a", "a"), app("b", "b")]),
        Some(vec![app("d", "d"), app("b", "other")]),
    ]);
    assert_eq!(sorted(first.names()), vec!["a", "b", "c", "d"]);
    assert_eq!(sorted(second.names()), vec!["a", "b", "c", "d"]);
    for name in ["a", "b", "c", "d"] {
        assert_eq!(first.get(name), second.get(name));
    }
    assert_eq!(first.get("b"), Some(&app("b", "other").body));
}
