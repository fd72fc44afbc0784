use desktop_launcher::chooser::{menu_command, menu_input, read_selection, Selection};
use desktop_launcher::registry::Registry;
use desktop_launcher::application::Application;

fn names(values: &[&str]) -> Vec<String> {
    values.iter().map(|value| String::from(*value)).collect()
}

#[test]
fn menu_input_sorts_by_code_point() {
    assert_eq!(menu_input(names(&["Zed", "Atom", "vim"])), "Atom\nZed\nvim\n");
}

#[test]
fn menu_input_does_not_depend_on_the_order_given() {
    let expected = "Atom\nZed\nvim\n";
    assert_eq!(menu_input(names(&["Atom", "Zed", "vim"])), expected);
    assert_eq!(menu_input(names(&["vim", "Zed", "Atom"])), expected);
    assert_eq!(menu_input(names(&["Zed", "vim", "Atom"])), expected);
}

#[test]
fn menu_input_of_no_names_is_empty() {
    assert_eq!(menu_input(Vec::new()), "");
}

#[test]
fn menu_input_ends_every_line() {
    assert_eq!(menu_input(names(&["Only"])), "Only\n");
    assert_eq!(menu_input(names(&["b c", "a"])), "a\nb c\n");
}

#[test]
fn menu_input_puts_a_prefix_before_the_longer_name() {
    assert_eq!(menu_input(names(&["abc", "ab", "a", ""])), "\na\nab\nabc\n");
}

#[test]
fn menu_input_orders_beyond_ascii_by_code_point() {
    assert_eq!(menu_input(names(&["éclair", "zebra", "Zebra", "apple"])), "Zebra\napple\nzebra\néclair\n");
}

#[test]
fn menu_input_lists_a_registry() {
    let mut registry = Registry::new();
    for name in ["Zed", "Atom", "vim", "Atom"] {
        registry.insert(Application::new(
            String::from(name),
            String::from("/apps/x.desktop"),
            vec![String::from("x")],
            false,
        ));
    }
    assert_eq!(menu_input(registry.names()), "Atom\nZed\nvim\n");
}

#[test]
fn menu_command_splits_the_invocation() {
    assert_eq!(menu_command("dmenu -i  -l 10"), vec!["dmenu", "-i", "-l", "10"]);
    assert_eq!(menu_command("rofi"), vec!["rofi"]);
}

#[test]
fn menu_command_of_blank_invocation_is_empty() {
    assert!(menu_command("").is_empty());
    assert!(menu_command("  \t").is_empty());
}

#[test]
fn selection_is_the_trimmed_output() {
    assert_eq!(read_selection(true, b"Firefox\n"), Selection::Chosen(String::from("Firefox")));
    assert_eq!(
        read_selection(true, b"  Visual Studio Code \r\n"),
        Selection::Chosen(String::from("Visual Studio Code"))
    );
    assert_eq!(
        read_selection(true, "Caf\u{e9}\n".as_bytes()),
        Selection::Chosen(String::from("Caf\u{e9}"))
    );
}

#[test]
fn empty_output_cancels() {
    assert_eq!(read_selection(true, b""), Selection::Cancelled);
}

#[test]
fn blank_output_cancels() {
    assert_eq!(read_selection(true, b"\n"), Selection::Cancelled);
    assert_eq!(read_selection(true, b"  \t \r\n"), Selection::Cancelled);
}

#[test]
fn failed_chooser_cancels() {
    assert_eq!(read_selection(false, b"Firefox\n"), Selection::Cancelled);
    assert_eq!(read_selection(false, b""), Selection::Cancelled);
    assert_eq!(read_selection(false, b"\xff\xfe"), Selection::Cancelled);
}

#[test]
fn output_that_is_not_utf8_is_undecodable() {
    assert_eq!(read_selection(true, b"\xff\xfe"), Selection::Undecodable);
    assert_eq!(read_selection(true, b"Firefox\xc3\n"), Selection::Undecodable);
    assert_eq!(read_selection(true, b"\xed\xa0\x80"), Selection::Undecodable);
}
