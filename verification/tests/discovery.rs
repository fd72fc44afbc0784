use desktop_launcher::application::Application;
use desktop_launcher::discovery::{
    get_desktop_apps, is_desktop_file, looks_like_desktop_file, search_directories,
    user_applications_dir, DescriptorFile, Resolved,
};
use desktop_launcher::outcome::Failure;
use desktop_launcher::registry::Registry;

fn file(path: &str, contents: &str) -> DescriptorFile {
    DescriptorFile { path: String::from(path), contents: contents.as_bytes().to_vec() }
}

fn descriptor(name: &str, program: &str) -> String {
    format!("[Desktop Entry]\nType=Application\nName={}\nExec={} %U\n", name, program)
}

fn resolved(location: &str, is_file: bool) -> Option<Resolved> {
    Some(Resolved { location: String::from(location), is_file })
}

#[test]
fn names_ending_in_desktop_look_like_descriptors() {
    assert!(looks_like_desktop_file("/usr/share/applications/firefox.desktop"));
    assert!(looks_like_desktop_file("/tmp/mydesktop"));
    assert!(looks_like_desktop_file("desktop"));
}

#[test]
fn other_names_do_not_look_like_descriptors() {
    assert!(!looks_like_desktop_file("/usr/share/applications/firefox.desktop.bak"));
    assert!(!looks_like_desktop_file("/usr/share/applications/firefox.Desktop"));
    assert!(!looks_like_desktop_file("/usr/share/applications/mimeinfo.cache"));
    assert!(!looks_like_desktop_file("/tmp/desk/top"));
    assert!(!looks_like_desktop_file(""));
}

#[test]
fn candidate_is_the_resolved_location() {
    assert_eq!(
        is_desktop_file("/apps/link.desktop", resolved("/opt/real/app.desktop", true)),
        Some(String::from("/opt/real/app.desktop"))
    );
    assert_eq!(
        is_desktop_file("/apps/mydesktop", resolved("/apps/mydesktop", true)),
        Some(String::from("/apps/mydesktop"))
    );
}

#[test]
fn entry_is_dropped_unless_it_is_a_resolved_file_named_like_a_descriptor() {
    assert_eq!(is_desktop_file("/apps/notes.txt", resolved("/apps/notes.txt", true)), None);
    assert_eq!(is_desktop_file("/apps/dir.desktop", resolved("/apps/dir.desktop", false)), None);
    assert_eq!(is_desktop_file("/apps/dangling.desktop", None), None);
    assert_eq!(is_desktop_file("/apps/notes.txt", resolved("/apps/real.desktop", true)), None);
}

#[test]
fn get_desktop_apps_collects_what_the_files_declare() {
    let apps = get_desktop_apps(vec![
        file("/apps/b.desktop", &descriptor("Browser", "browse")),
        file("/apps/broken.desktop", "[Desktop Entry\n"),
        file("/apps/e.desktop", &descriptor("Editor", "edit")),
        file("/apps/hidden.desktop", &format!("{}NoDisplay=true\n", descriptor("Hidden", "hide"))),
    ]);
    assert_eq!(
        apps,
        vec![
            Application::new(
                String::from("Browser"),
                String::from("/apps/b.desktop"),
                vec![String::from("browse")],
                false
            ),
            Application::new(
                String::from("Editor"),
                String::from("/apps/e.desktop"),
                vec![String::from("edit")],
                false
            ),
        ]
    );
}

#[test]
fn get_desktop_apps_of_no_files_is_empty() {
    assert!(get_desktop_apps(Vec::new()).is_empty());
}

#[test]
fn directory_of_distinct_descriptors_fills_the_registry_one_for_one() {
    let names = ["Alpha", "Beta", "Gamma", "Delta"];
    let files = names
        .iter()
        .map(|name| file(&format!("/apps/{}.desktop", name), &descriptor(name, "run")))
        .collect();
    let registry = Registry::build(vec![Some(get_desktop_apps(files))]);
    assert_eq!(registry.len(), names.len());
}

#[test]
fn user_directory_lies_below_home() {
    assert_eq!(user_applications_dir("/home/u"), "/home/u/.local/share/applications");
    assert_eq!(user_applications_dir("/home/u/"), "/home/u/.local/share/applications");
    assert_eq!(user_applications_dir("/"), "/.local/share/applications");
    assert_eq!(user_applications_dir(""), ".local/share/applications");
}

#[test]
fn user_directory_agrees_with_path_joining() {
    for home in ["/home/u", "/home/u/", "/", "", "relative", "/a//"] {
        let mut joined = std::path::PathBuf::new();
        joined.push(home);
        joined.push(".local");
        joined.push("share");
        joined.push("applications");
        assert_eq!(user_applications_dir(home), joined.to_str().unwrap());
    }
}

#[test]
fn default_directories_are_system_then_user() {
    assert_eq!(
        search_directories(None, Some("/home/u")),
        Ok(vec![
            String::from("/usr/share/applications"),
            String::from("/home/u/.local/share/applications"),
        ])
    );
}

#[test]
fn explicit_directories_replace_the_defaults() {
    let explicit = vec![String::from("/opt/apps"), String::from("./local")];
    assert_eq!(search_directories(Some(explicit.clone()), Some("/home/u")), Ok(explicit.clone()));
    assert_eq!(search_directories(Some(explicit.clone()), None), Ok(explicit));
}

#[test]
fn defaults_need_the_home_directory() {
    assert_eq!(search_directories(None, None), Err(Failure::HomeUnset));
}
