//! Applications as the launcher knows them, and how one is read out of a
//! desktop entry.

use crate::entry::{parsed_fields, read_fields, DesktopFields, DesktopFieldsView};
use crate::text::{
    lemma_words, lemma_words_of_trimmed, lowercased, same_text, split_whitespace, trim, trimmed,
    white_space, words,
};
use vstd::prelude::*;

verus! {

/// How to start an application.
#[derive(Debug, PartialEq, Eq)]
pub struct ApplicationBody {
    /// Location of the descriptor the application was read from.
    pub path: String,
    /// Program name followed by its arguments, placeholders already removed.
    pub command: Vec<String>,
    /// Whether the program has to run inside a terminal emulator.
    pub term: bool,
}

/// An application offered to the user under its display name.
#[derive(Debug, PartialEq, Eq)]
pub struct Application {
    /// Display name; the key under which the application is registered.
    pub name: String,
    /// How to start it.
    pub body: ApplicationBody,
}

/// The mathematical content of an [`ApplicationBody`].
pub struct BodyView {
    pub path: Seq<char>,
    pub command: Seq<Seq<char>>,
    pub term: bool,
}

/// The mathematical content of an [`Application`].
pub struct ApplicationView {
    pub name: Seq<char>,
    pub body: BodyView,
}

impl View for ApplicationBody {
    type V = BodyView;

    open spec fn view(&self) -> BodyView {
        BodyView { path: self.path@, command: self.command.deep_view(), term: self.term }
    }
}

impl DeepView for ApplicationBody {
    type V = BodyView;

    open spec fn deep_view(&self) -> BodyView {
        self@
    }
}

impl View for Application {
    type V = ApplicationView;

    open spec fn view(&self) -> ApplicationView {
        ApplicationView { name: self.name@, body: self.body@ }
    }
}

impl DeepView for Application {
    type V = ApplicationView;

    open spec fn deep_view(&self) -> ApplicationView {
        self@
    }
}

/// Whether a token of a command line is a field code such as `%u` or `%F`,
/// which stands for something a menu would fill in.
pub open spec fn is_placeholder(token: Seq<char>) -> bool {
    token.len() > 0 && token[0] == '%'
}

/// The command of an `Exec` line: its words after trimming, without the
/// placeholders, in their order.
pub open spec fn exec_tokens(exec_line: Seq<char>) -> Seq<Seq<char>> {
    words(trimmed(exec_line)).filter(|token: Seq<char>| !is_placeholder(token))
}

/// The truth value that a text spells out: only `true` and `false` do.
pub open spec fn bool_of(text: Seq<char>) -> Option<bool> {
    if text == "true"@ {
        Some(true)
    } else if text == "false"@ {
        Some(false)
    } else {
        None
    }
}

/// The terminal flag that a `Terminal` attribute stands for: `false` where it
/// is absent, else what its lowercase form spells out, if anything.
pub open spec fn terminal_of(value: Option<Seq<char>>) -> Option<bool> {
    match value {
        None => Some(false),
        Some(text) => bool_of(lowercased(text)),
    }
}

/// The application that a descriptor at `path` with the given fields
/// declares, or `None` where the descriptor is to be skipped.
pub open spec fn application_of(path: Seq<char>, fields: DesktopFieldsView) -> Option<
    ApplicationView,
> {
    if fields.no_display == Some("true"@) {
        None
    } else if fields.entry_type != Some("Application"@) {
        None
    } else {
        match (terminal_of(fields.terminal), fields.name, fields.exec_line) {
            (Some(term), Some(name), Some(exec_line)) => Some(
                ApplicationView {
                    name,
                    body: BodyView { path, command: exec_tokens(exec_line), term },
                },
            ),
            _ => None,
        }
    }
}

/// The application that a descriptor file at `path` with the given contents
/// declares, or `None` where the file is to be skipped.
pub open spec fn application_in(path: Seq<char>, contents: Seq<u8>) -> Option<ApplicationView> {
    match parsed_fields(contents) {
        Some(fields) => application_of(path, fields),
        None => None,
    }
}

/// Reads a truth value that is spelled `true` or `false`.
pub fn parse_bool(text: &str) -> (r: Option<bool>)
    ensures
        r == bool_of(text@),
{
    if same_text(text, "true") {
        Some(true)
    } else if same_text(text, "false") {
        Some(false)
    } else {
        None
    }
}

/// Reads the `Terminal` attribute of a descriptor, in any letter case.  An
/// absent attribute means `false`; one that spells no truth value is
/// malformed and gives `None`.
pub fn parse_terminal(value: &Option<String>) -> (r: Option<bool>)
    ensures
        r == terminal_of(value.deep_view()),
{
    match value {
        None => Some(false),
        Some(text) => {
            let lowered = text.as_str().to_lowercase();
            parse_bool(lowered.as_str())
        },
    }
}

/// Whether a token begins with `%`.
fn is_field_code(token: &str) -> (r: bool)
    ensures
        r == is_placeholder(token@),
{
    !token.is_empty() && token.get_char(0) == '%'
}

/// Whether an attribute is present with exactly the expected text.
fn is_text(value: &Option<String>, expected: &str) -> (r: bool)
    ensures
        r == (value.deep_view() == Some(expected@)),
{
    match value {
        Some(text) => same_text(text.as_str(), expected),
        None => false,
    }
}

impl ApplicationBody {
    /// Puts a launch description together.
    pub fn new(path: String, command: Vec<String>, term: bool) -> (body: ApplicationBody)
        ensures
            body == (ApplicationBody { path, command, term }),
    {
        ApplicationBody { path, command, term }
    }
}

impl Application {
    /// Puts an application together from its name and launch description.
    pub fn new(name: String, path: String, command: Vec<String>, term: bool) -> (app: Application)
        ensures
            app == (Application { name, body: ApplicationBody { path, command, term } }),
    {
        Application { name, body: ApplicationBody::new(path, command, term) }
    }

    /// Turns an `Exec` line into a command: trims it, splits it at whitespace
    /// and drops every placeholder token.  Nothing is substituted for the
    /// placeholders, and the command may come out empty.
    pub fn exec_from_str(execstr: &str) -> (command: Vec<String>)
        ensures
            command.deep_view() == exec_tokens(execstr@),
    {
        let tokens = split_whitespace(trim(execstr));
        let ghost all = tokens.deep_view();
        let ghost kept = |token: Seq<char>| !is_placeholder(token);
        let mut command: Vec<String> = Vec::new();
        for token in it: tokens
            invariant
                it.seq() == tokens@,
                all == tokens.deep_view(),
                kept == |token: Seq<char>| !is_placeholder(token),
                command.deep_view() == all.take(it.index()).filter(kept),
        {
            proof {
                reveal(Seq::filter);
                assert(all.take(it.index() + 1).drop_last() =~= all.take(it.index()));
            }
            if !is_field_code(token.as_str()) {
                command.push(token);
            }
        }
        proof {
            assert(all.take(all.len() as int) =~= all);
        }
        command
    }

    /// Builds the application that a descriptor at `path` with the given
    /// fields declares.  Descriptors that are hidden, of another type, without
    /// a name or a command line, or with a malformed terminal flag give `None`.
    pub fn from_fields(path: &str, fields: DesktopFields) -> (r: Option<Application>)
        ensures
            r.deep_view() == application_of(path@, fields@),
    {
        if is_text(&fields.no_display, "true") || !is_text(&fields.entry_type, "Application") {
            return None;
        }
        let term = match parse_terminal(&fields.terminal) {
            Some(term) => term,
            None => {
                return None;
            },
        };
        match (fields.name, fields.exec_line) {
            (Some(name), Some(exec_line)) => Some(
                Application::new(
                    name,
                    path.to_owned(),
                    Application::exec_from_str(exec_line.as_str()),
                    term,
                ),
            ),
            _ => None,
        }
    }

    /// Reads the application that a descriptor file declares, from the file's
    /// resolved location and its contents.  A file that does not parse, or
    /// whose entry is to be skipped, gives `None`.
    pub fn from_file(path: &str, contents: &[u8]) -> (r: Option<Application>)
        ensures
            r.deep_view() == application_in(path@, contents@),
    {
        match read_fields(contents) {
            Some(fields) => Application::from_fields(path, fields),
            None => None,
        }
    }
}

/// The command of an `Exec` line consists of words of the line, trimmed or
/// not: every token has at least one character, does not begin with `%` and
/// holds no whitespace.
pub proof fn lemma_exec_tokens(exec_line: Seq<char>)
    ensures
        exec_tokens(exec_line) == words(exec_line).filter(
            |token: Seq<char>| !is_placeholder(token),
        ),
        forall|k: int|
            0 <= k < exec_tokens(exec_line).len() ==> {
                let token = #[trigger] exec_tokens(exec_line)[k];
                &&& words(exec_line).contains(token)
                &&& token.len() > 0
                &&& token[0] != '%'
                &&& forall|i: int| 0 <= i < token.len() ==> !white_space(#[trigger] token[i])
            },
{
    let kept = |token: Seq<char>| !is_placeholder(token);
    let all = words(exec_line);
    lemma_words_of_trimmed(exec_line);
    lemma_words(exec_line);
    assert forall|k: int| 0 <= k < all.filter(kept).len() implies {
        let token = #[trigger] all.filter(kept)[k];
        &&& all.contains(token)
        &&& token.len() > 0
        &&& token[0] != '%'
        &&& forall|i: int| 0 <= i < token.len() ==> !white_space(#[trigger] token[i])
    } by {
        let token = all.filter(kept)[k];
        all.lemma_filter_pred(kept, k);
        all.lemma_filter_contains_rev(kept, token);
        let j = choose|j: int| 0 <= j < all.len() && all[j] == token;
        assert(words(exec_line)[j] == token);
    }
}

/// A descriptor is skipped whenever it asks not to be displayed, is not of
/// type `Application`, lacks a name or a command line, or has a malformed
/// terminal flag, whatever its other fields hold.
pub proof fn lemma_skipped_descriptors(path: Seq<char>, fields: DesktopFieldsView)
    ensures
        fields.no_display == Some("true"@) ==> application_of(path, fields) is None,
        fields.entry_type != Some("Application"@) ==> application_of(path, fields) is None,
        fields.name is None ==> application_of(path, fields) is None,
        fields.exec_line is None ==> application_of(path, fields) is None,
        terminal_of(fields.terminal) is None ==> application_of(path, fields) is None,
{
}

/// A descriptor that is visible, of type `Application`, and has a name, a
/// command line and a well-formed terminal flag declares an application under
/// that name.
pub proof fn lemma_accepted_descriptors(path: Seq<char>, fields: DesktopFieldsView)
    requires
        fields.no_display != Some("true"@),
        fields.entry_type == Some("Application"@),
        fields.name is Some,
        fields.exec_line is Some,
        terminal_of(fields.terminal) is Some,
    ensures
        application_of(path, fields) is Some,
        application_of(path, fields)->0.name == fields.name->0,
        application_of(path, fields)->0.body.path == path,
        application_of(path, fields)->0.body.term == terminal_of(fields.terminal)->0,
        application_of(path, fields)->0.body.command == exec_tokens(fields.exec_line->0),
{
}

} // verus!
