use desktop_launcher::application::{parse_bool, parse_terminal, Application, ApplicationBody};
use desktop_launcher::entry::{read_fields, DesktopFields};

fn text(value: &str) -> Option<String> {
    Some(String::from(value))
}

fn words(values: &[&str]) -> Vec<String> {
    values.iter().map(|value| String::from(*value)).collect()
}

/// The fields of a visible application called Editor that runs `edit`.
fn editor() -> DesktopFields {
    DesktopFields {
        no_display: None,
        entry_type: text("Application"),
        name: text("Editor"),
        exec_line: text("edit %F"),
        terminal: None,
    }
}

#[test]
fn body_new_keeps_its_arguments() {
    let body = ApplicationBody::new(String::from("/a/b.desktop"), words(&["prog", "-x"]), true);
    assert_eq!(body.path, "/a/b.desktop");
    assert_eq!(body.command, vec!["prog", "-x"]);
    assert!(body.term);
}

#[test]
fn application_new_keeps_its_arguments() {
    let app = Application::new(
        String::from("Prog"),
        String::from("/a/b.desktop"),
        words(&["prog"]),
        false,
    );
    assert_eq!(app.name, "Prog");
    assert_eq!(
        app.body,
        ApplicationBody { path: String::from("/a/b.desktop"), command: words(&["prog"]), term: false }
    );
}

#[test]
fn exec_from_str_drops_placeholders() {
    assert_eq!(
        Application::exec_from_str("firefox %u --new-window"),
        vec!["firefox", "--new-window"]
    );
}

#[test]
fn exec_from_str_trims_and_splits() {
    assert_eq!(Application::exec_from_str("  vim   %F  "), vec!["vim"]);
    assert_eq!(
        Application::exec_from_str("env\tLANG=C  prog --flag\n"),
        vec!["env", "LANG=C", "prog", "--flag"]
    );
}

#[test]
fn exec_from_str_keeps_percent_signs_inside_tokens() {
    assert_eq!(Application::exec_from_str("printf 100%done a%u"), vec!["printf", "100%done", "a%u"]);
}

#[test]
fn exec_from_str_drops_every_token_that_begins_with_a_percent_sign() {
    assert_eq!(Application::exec_from_str("%% prog %anything % %k"), vec!["prog"]);
}

#[test]
fn exec_from_str_may_leave_nothing() {
    assert!(Application::exec_from_str("%u").is_empty());
    assert!(Application::exec_from_str("   ").is_empty());
    assert!(Application::exec_from_str("").is_empty());
}

#[test]
fn parse_bool_accepts_two_spellings() {
    assert_eq!(parse_bool("true"), Some(true));
    assert_eq!(parse_bool("false"), Some(false));
}

#[test]
fn parse_bool_rejects_everything_else() {
    assert_eq!(parse_bool("True"), None);
    assert_eq!(parse_bool("yes"), None);
    assert_eq!(parse_bool("1"), None);
    assert_eq!(parse_bool(""), None);
    assert_eq!(parse_bool(" true"), None);
}

#[test]
fn terminal_defaults_to_false() {
    assert_eq!(parse_terminal(&None), Some(false));
}

#[test]
fn terminal_is_read_in_any_letter_case() {
    assert_eq!(parse_terminal(&text("true")), Some(true));
    assert_eq!(parse_terminal(&text("TRUE")), Some(true));
    assert_eq!(parse_terminal(&text("True")), Some(true));
    assert_eq!(parse_terminal(&text("false")), Some(false));
    assert_eq!(parse_terminal(&text("FALSE")), Some(false));
}

#[test]
fn terminal_that_is_no_truth_value_is_malformed() {
    assert_eq!(parse_terminal(&text("yes")), None);
    assert_eq!(parse_terminal(&text("")), None);
    assert_eq!(parse_terminal(&text("true ")), None);
}

#[test]
fn from_fields_builds_an_application() {
    let app = Application::from_fields("/apps/editor.desktop", editor()).unwrap();
    assert_eq!(
        app,
        Application {
            name: String::from("Editor"),
            body: ApplicationBody {
                path: String::from("/apps/editor.desktop"),
                command: words(&["edit"]),
                term: false,
            },
        }
    );
}

#[test]
fn from_fields_reads_the_terminal_flag() {
    let fields = DesktopFields { terminal: text("True"), ..editor() };
    assert!(Application::from_fields("/apps/editor.desktop", fields).unwrap().body.term);
}

#[test]
fn hidden_descriptor_is_skipped() {
    let fields = DesktopFields { no_display: text("true"), ..editor() };
    assert_eq!(Application::from_fields("/apps/editor.desktop", fields), None);
}

#[test]
fn only_the_exact_word_true_hides_a_descriptor() {
    for value in ["false", "True", "TRUE", "1", ""] {
        let fields = DesktopFields { no_display: text(value), ..editor() };
        assert!(Application::from_fields("/apps/editor.desktop", fields).is_some());
    }
}

#[test]
fn descriptor_of_another_type_is_skipped() {
    for value in ["Link", "Directory", "application", ""] {
        let fields = DesktopFields { entry_type: text(value), ..editor() };
        assert_eq!(Application::from_fields("/apps/editor.desktop", fields), None);
    }
    let fields = DesktopFields { entry_type: None, ..editor() };
    assert_eq!(Application::from_fields("/apps/editor.desktop", fields), None);
}

#[test]
fn descriptor_without_name_is_skipped() {
    let fields = DesktopFields { name: None, ..editor() };
    assert_eq!(Application::from_fields("/apps/editor.desktop", fields), None);
}

#[test]
fn descriptor_without_exec_is_skipped() {
    let fields = DesktopFields { exec_line: None, ..editor() };
    assert_eq!(Application::from_fields("/apps/editor.desktop", fields), None);
}

#[test]
fn descriptor_with_malformed_terminal_is_skipped() {
    let fields = DesktopFields { terminal: text("yes"), ..editor() };
    assert_eq!(Application::from_fields("/apps/editor.desktop", fields), None);
}

#[test]
fn descriptor_whose_command_is_all_placeholders_is_kept() {
    let fields = DesktopFields { exec_line: text("%u"), ..editor() };
    let app = Application::from_fields("/apps/editor.desktop", fields).unwrap();
    assert!(app.body.command.is_empty());
}

#[test]
fn read_fields_extracts_the_desktop_entry_section() {
    let contents = b"[Desktop Entry]\nType=Application\nName=Firefox\nName[de]=Feuerfuchs\nExec=firefox %u\nNoDisplay=false\nIcon=firefox\n\n[Desktop Action new-window]\nName=New Window\nExec=firefox --new-window\nTerminal=true\n";
    assert_eq!(
        read_fields(contents),
        Some(DesktopFields {
            no_display: text("false"),
            entry_type: text("Application"),
            name: text("Firefox"),
            exec_line: text("firefox %u"),
            terminal: None,
        })
    );
}

#[test]
fn read_fields_ignores_other_sections() {
    let contents = b"[Unit]\nName=Elsewhere\nExec=elsewhere\nType=Application\n";
    assert_eq!(
        read_fields(contents),
        Some(DesktopFields {
            no_display: None,
            entry_type: None,
            name: None,
            exec_line: None,
            terminal: None,
        })
    );
}

#[test]
fn read_fields_fails_on_malformed_contents() {
    assert_eq!(read_fields(b"[Desktop Entry\nName=Broken\n"), None);
    assert_eq!(read_fields(b"[Desktop Entry]\nName=Broken\nno equals sign here\n"), None);
    assert_eq!(read_fields(b"[Desktop Entry]\nName=\xff\xfe\n"), None);
}

#[test]
fn from_file_reads_a_descriptor() {
    let contents =
        b"[Desktop Entry]\nType=Application\nName=Firefox\nExec=firefox %u\nTerminal=false\n";
    let app = Application::from_file("/usr/share/applications/firefox.desktop", contents).unwrap();
    assert_eq!(app.name, "Firefox");
    assert_eq!(app.body.path, "/usr/share/applications/firefox.desktop");
    assert_eq!(app.body.command, vec!["firefox"]);
    assert!(!app.body.term);
}

#[test]
fn from_file_reads_a_terminal_application() {
    let contents = b"# a comment\n[Desktop Entry]\nName=htop\nType=Application\nExec=htop\nTerminal=TRUE\n";
    let app = Application::from_file("/apps/htop.desktop", contents).unwrap();
    assert_eq!(app.name, "htop");
    assert_eq!(app.body.command, vec!["htop"]);
    assert!(app.body.term);
}

#[test]
fn from_file_skips_what_does_not_parse() {
    assert_eq!(Application::from_file("/apps/broken.desktop", b"[Desktop Entry\n"), None);
    assert_eq!(Application::from_file("/apps/text.desktop", b"just some text"), None);
}

#[test]
fn from_file_skips_hidden_and_foreign_descriptors() {
    let hidden = b"[Desktop Entry]\nType=Application\nName=Hidden\nExec=hidden\nNoDisplay=true\n";
    assert_eq!(Application::from_file("/apps/hidden.desktop", hidden), None);
    let link = b"[Desktop Entry]\nType=Link\nName=Site\nExec=open\nURL=http://example.org\n";
    assert_eq!(Application::from_file("/apps/site.desktop", link), None);
    let nameless = b"[Desktop Entry]\nType=Application\nExec=prog\n";
    assert_eq!(Application::from_file("/apps/nameless.desktop", nameless), None);
    let idle = b"[Desktop Entry]\nType=Application\nName=Idle\n";
    assert_eq!(Application::from_file("/apps/idle.desktop", idle), None);
    let odd = b"[Desktop Entry]\nType=Application\nName=Odd\nExec=odd\nTerminal=yes\n";
    assert_eq!(Application::from_file("/apps/odd.desktop", odd), None);
}
