//! Reading the fields of a desktop entry that the launcher consults.
//!
//! The key/value text format itself is parsed by the `freedesktop_entry_parser`
//! crate; this module states what the library relies on and extracts the five
//! attributes of the `Desktop Entry` section that decide whether and how an
//! application is offered.

use freedesktop_entry_parser::Entry;
use vstd::prelude::*;

verus! {

/// A parsed entry file of `freedesktop_entry_parser`.  Nothing of its inside
/// is known here; what it holds goes by the name [`entry_values`].
#[verifier::external_type_specification]
#[verifier::external_body]
pub struct ExEntry(Entry);

/// The plain attribute values of a parsed entry, keyed by section title and
/// attribute name.  Values given for a parameter (`Name[de]=...`) are not part
/// of it.
pub uninterp spec fn entry_values(entry: Entry) -> Map<(Seq<char>, Seq<char>), Seq<char>>;

/// The attribute values that `Entry::parse` reads out of a byte buffer, or
/// `None` where it reports a parse error.
pub uninterp spec fn parsed_values(bytes: Seq<u8>) -> Option<
    Map<(Seq<char>, Seq<char>), Seq<char>>,
>;

/// Taken on trust of `Entry::parse`: whether it succeeds, and what the entry
/// holds if it does, depends on the bytes alone.  The outcome goes by the name
/// [`parsed_values`]; nothing is claimed about which bytes parse to what.  A
/// parse error becomes `None`.
#[verifier::external_body]
fn parse_entry(bytes: &[u8]) -> (r: Option<Entry>)
    ensures
        match r {
            Some(entry) => parsed_values(bytes@) == Some(entry_values(entry)),
            None => parsed_values(bytes@) is None,
        },
{
    Entry::parse(bytes).ok()
}

/// Taken on trust of `Entry::section(..).attr(..)`: it looks up the plain
/// value of an attribute in a section and gives `None` where the entry holds
/// no such value.
#[verifier::external_body]
fn entry_attr<'a>(entry: &'a Entry, section: &str, name: &str) -> (r: Option<&'a str>)
    ensures
        r.deep_view() == lookup(entry_values(*entry), (section@, name@)),
{
    entry.section(section).attr(name)
}

/// The attributes of a desktop entry that the launcher consults, each absent
/// or present with its raw text.
#[derive(Debug, PartialEq, Eq)]
pub struct DesktopFields {
    /// `NoDisplay`: set to `true` by entries that menus must not show.
    pub no_display: Option<String>,
    /// `Type`: the kind of entry.
    pub entry_type: Option<String>,
    /// `Name`: the display name.
    pub name: Option<String>,
    /// `Exec`: the command line.
    pub exec_line: Option<String>,
    /// `Terminal`: whether the program needs a terminal.
    pub terminal: Option<String>,
}

/// The mathematical content of [`DesktopFields`].
pub struct DesktopFieldsView {
    pub no_display: Option<Seq<char>>,
    pub entry_type: Option<Seq<char>>,
    pub name: Option<Seq<char>>,
    pub exec_line: Option<Seq<char>>,
    pub terminal: Option<Seq<char>>,
}

impl View for DesktopFields {
    type V = DesktopFieldsView;

    open spec fn view(&self) -> DesktopFieldsView {
        DesktopFieldsView {
            no_display: self.no_display.deep_view(),
            entry_type: self.entry_type.deep_view(),
            name: self.name.deep_view(),
            exec_line: self.exec_line.deep_view(),
            terminal: self.terminal.deep_view(),
        }
    }
}

impl DeepView for DesktopFields {
    type V = DesktopFieldsView;

    open spec fn deep_view(&self) -> DesktopFieldsView {
        self@
    }
}

/// The value of `key` among `values`, if it has one.
pub open spec fn lookup(
    values: Map<(Seq<char>, Seq<char>), Seq<char>>,
    key: (Seq<char>, Seq<char>),
) -> Option<Seq<char>> {
    if values.contains_key(key) {
        Some(values[key])
    } else {
        None
    }
}

/// The consulted fields among the attribute values of an entry: those of the
/// section `Desktop Entry`.
pub open spec fn desktop_fields(
    values: Map<(Seq<char>, Seq<char>), Seq<char>>,
) -> DesktopFieldsView {
    DesktopFieldsView {
        no_display: lookup(values, ("Desktop Entry"@, "NoDisplay"@)),
        entry_type: lookup(values, ("Desktop Entry"@, "Type"@)),
        name: lookup(values, ("Desktop Entry"@, "Name"@)),
        exec_line: lookup(values, ("Desktop Entry"@, "Exec"@)),
        terminal: lookup(values, ("Desktop Entry"@, "Terminal"@)),
    }
}

/// The consulted fields of the entry that `bytes` holds, or `None` where the
/// bytes are not a well-formed entry file.
pub open spec fn parsed_fields(bytes: Seq<u8>) -> Option<DesktopFieldsView> {
    match parsed_values(bytes) {
        Some(values) => Some(desktop_fields(values)),
        None => None,
    }
}

/// The plain value of attribute `name` in the section `Desktop Entry`.
fn desktop_attr(entry: &Entry, name: &str) -> (r: Option<String>)
    ensures
        r.deep_view() == lookup(entry_values(*entry), ("Desktop Entry"@, name@)),
{
    match entry_attr(entry, "Desktop Entry", name) {
        Some(value) => Some(value.to_owned()),
        None => None,
    }
}

/// Parses the contents of a descriptor file and extracts the consulted fields.
/// Any parse error yields `None`.
pub fn read_fields(contents: &[u8]) -> (r: Option<DesktopFields>)
    ensures
        r.deep_view() == parsed_fields(contents@),
{
    match parse_entry(contents) {
        Some(entry) => Some(
            DesktopFields {
                no_display: desktop_attr(&entry, "NoDisplay"),
                entry_type: desktop_attr(&entry, "Type"),
                name: desktop_attr(&entry, "Name"),
                exec_line: desktop_attr(&entry, "Exec"),
                terminal: desktop_attr(&entry, "Terminal"),
            },
        ),
        None => None,
    }
}

} // verus!
