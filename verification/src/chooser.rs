//! Talking to the chooser: the command line it is started with, the text
//! written to its input and the meaning of what it answers.

use crate::order::{
    lemma_sorted_names_of_rearrangement, lemma_sorted_names_unique, sorted_names, text_order,
};
use crate::text::{lemma_trimmed_empty, split_whitespace, trim, trimmed, white_space, words};
use itertools::Itertools;
use vstd::prelude::*;
use vstd::relations::sorted_by;
use vstd::string::StringExecFns;
use vstd::utf8::{decode_utf8, valid_utf8};

verus! {

/// What the chooser's answer means.
#[derive(Debug, PartialEq, Eq)]
pub enum Selection {
    /// The user chose nothing: the chooser failed or answered with blanks.
    Cancelled,
    /// The user chose the application of this name.
    Chosen(String),
    /// The chooser's output is not valid UTF-8.
    Undecodable,
}

/// The mathematical content of a [`Selection`].
pub enum SelectionView {
    Cancelled,
    Chosen(Seq<char>),
    Undecodable,
}

impl View for Selection {
    type V = SelectionView;

    open spec fn view(&self) -> SelectionView {
        match self {
            Selection::Cancelled => SelectionView::Cancelled,
            Selection::Chosen(name) => SelectionView::Chosen(name@),
            Selection::Undecodable => SelectionView::Undecodable,
        }
    }
}

/// Two sequences taken in turns, starting with `first`, until both have run
/// out; once one has run out, the rest of the other follows.
pub open spec fn interleaved<T>(first: Seq<T>, second: Seq<T>) -> Seq<T>
    decreases first.len() + second.len(),
{
    if first.len() == 0 {
        second
    } else {
        seq![first[0]] + interleaved(second, first.drop_first())
    }
}

/// The pieces written one after the other.
spec fn concat(pieces: Seq<Seq<char>>) -> Seq<char>
    decreases pieces.len(),
{
    if pieces.len() == 0 {
        Seq::empty()
    } else {
        pieces[0] + concat(pieces.drop_first())
    }
}

/// The names written one per line, each followed by a line feed.
pub open spec fn lines(names: Seq<Seq<char>>) -> Seq<char>
    decreases names.len(),
{
    if names.len() == 0 {
        Seq::empty()
    } else {
        names[0] + "\n"@ + lines(names.drop_first())
    }
}

/// The text offered to the chooser for a collection of names: the names in
/// ascending order, one per line.
pub open spec fn menu_text(names: Seq<Seq<char>>) -> Seq<char> {
    lines(sorted_names(names))
}

/// The meaning of a chooser run that ended with the given status and wrote
/// `output`: a failed chooser cancels, whatever it wrote; otherwise the output
/// must decode as UTF-8, and what is left of it after trimming is the chosen
/// name, unless nothing is left, which cancels too.
pub open spec fn selection_of(success: bool, output: Seq<u8>) -> SelectionView {
    if !success {
        SelectionView::Cancelled
    } else if !valid_utf8(output) {
        SelectionView::Undecodable
    } else if trimmed(decode_utf8(output)).len() == 0 {
        SelectionView::Cancelled
    } else {
        SelectionView::Chosen(trimmed(decode_utf8(output)))
    }
}

/// Taken on trust of `Itertools::interleave`, collected into a vector: it
/// alternates between the elements of the two sequences, beginning with the
/// first, and goes on with what is left of one when the other has run out.
#[verifier::external_body]
fn interleave<T>(first: Vec<T>, second: Vec<T>) -> (mixed: Vec<T>)
    ensures
        mixed@ == interleaved(first@, second@),
{
    first.into_iter().interleave(second).collect()
}

/// Taken on trust of `sort` on a slice of `String`: it rearranges the strings
/// into ascending order, and strings are ordered character by character by
/// code point.
#[verifier::external_body]
fn sort_strings(strings: &mut Vec<String>)
    ensures
        sorted_by(final(strings).deep_view(), text_order()),
        final(strings).deep_view().to_multiset() == old(strings).deep_view().to_multiset(),
{
    strings.sort()
}

/// Taken on trust of `std::str::from_utf8`: it succeeds exactly on valid UTF-8
/// and then gives the text that the bytes encode.
#[verifier::external_body]
fn text_of_utf8(bytes: &[u8]) -> (r: Option<&str>)
    ensures
        r is Some <==> valid_utf8(bytes@),
        r matches Some(text) ==> text@ == decode_utf8(bytes@),
{
    std::str::from_utf8(bytes).ok()
}

/// The chooser's command line: the words of the invocation it was given as,
/// the program first.  An invocation without any word names no program.
pub fn menu_command(invocation: &str) -> (argv: Vec<String>)
    ensures
        argv.deep_view() == words(invocation@),
{
    split_whitespace(invocation)
}

/// Builds the text that is written to the chooser's input: every name on a
/// line of its own, in ascending order, the last line terminated as well.
/// The order in which the names are given does not matter.
pub fn menu_input(names: Vec<String>) -> (input: String)
    ensures
        input@ == menu_text(names.deep_view()),
{
    let ghost given = names.deep_view();
    let mut names = names;
    sort_strings(&mut names);
    proof {
        lemma_sorted_names_unique(given, names.deep_view());
    }
    let feeds = line_feeds(names.len());
    let ghost sorted = names.deep_view();
    let ghost breaks = feeds.deep_view();
    let pieces = interleave(names, feeds);
    proof {
        let view = |s: String| s@;
        lemma_interleaved_views(names@, feeds@);
        assert(sorted =~= names@.map_values(view));
        assert(breaks =~= feeds@.map_values(view));
        assert(pieces.deep_view() =~= pieces@.map_values(view));
        lemma_concat_interleaved(sorted, breaks);
    }
    concat_all(&pieces)
}

/// Interprets the outcome of a chooser run: whether it exited successfully and
/// what it wrote to its output.
pub fn read_selection(success: bool, output: &[u8]) -> (selection: Selection)
    ensures
        selection@ == selection_of(success, output@),
{
    if !success {
        return Selection::Cancelled;
    }
    match text_of_utf8(output) {
        None => Selection::Undecodable,
        Some(text) => {
            let name = trim(text);
            if name.is_empty() {
                Selection::Cancelled
            } else {
                Selection::Chosen(name.to_owned())
            }
        },
    }
}

/// As many line feeds as asked for.
fn line_feeds(count: usize) -> (feeds: Vec<String>)
    ensures
        feeds.len() == count,
        forall|k: int| 0 <= k < count ==> feeds.deep_view()[k] == "\n"@,
{
    let mut feeds: Vec<String> = Vec::new();
    while feeds.len() < count
        invariant
            feeds.len() <= count,
            forall|k: int| 0 <= k < feeds.len() ==> feeds.deep_view()[k] == "\n"@,
        decreases count - feeds.len(),
    {
        let ghost before = feeds.deep_view();
        feeds.push("\n".to_owned());
        proof {
            assert(feeds.deep_view() =~= before.push("\n"@));
        }
    }
    feeds
}

/// Writes the pieces one after the other.
fn concat_all(pieces: &Vec<String>) -> (out: String)
    ensures
        out@ == concat(pieces.deep_view()),
{
    let mut out = String::new();
    let mut i: usize = 0;
    while i < pieces.len()
        invariant
            i <= pieces.len(),
            out@ == concat(pieces.deep_view().take(i as int)),
        decreases pieces.len() - i,
    {
        proof {
            let all = pieces.deep_view();
            lemma_concat_push(all.take(i as int), all[i as int]);
            assert(all.take(i + 1) =~= all.take(i as int).push(all[i as int]));
        }
        out.append(pieces[i].as_str());
        i += 1;
    }
    proof {
        assert(pieces.deep_view().take(i as int) =~= pieces.deep_view());
    }
    out
}

/// The text offered to the chooser depends on the names only, not on the
/// order in which they are listed.
pub proof fn lemma_menu_text_of_rearrangement(first: Seq<Seq<char>>, second: Seq<Seq<char>>)
    requires
        first.to_multiset() == second.to_multiset(),
    ensures
        menu_text(first) == menu_text(second),
{
    lemma_sorted_names_of_rearrangement(first, second);
}

/// Two listings of the same set of names, each name once, offer the same text.
pub proof fn lemma_menu_text_of_listing(first: Seq<Seq<char>>, second: Seq<Seq<char>>)
    requires
        first.no_duplicates(),
        second.no_duplicates(),
        first.to_set() == second.to_set(),
    ensures
        menu_text(first) == menu_text(second),
{
    broadcast use vstd::seq_lib::to_multiset_contains;

    first.lemma_multiset_has_no_duplicates();
    second.lemma_multiset_has_no_duplicates();
    assert forall|name: Seq<char>|
        first.to_multiset().count(name) == second.to_multiset().count(name) by {
        assert(first.contains(name) == first.to_set().contains(name));
    }
    assert(first.to_multiset() =~= second.to_multiset());
    lemma_menu_text_of_rearrangement(first, second);
}

/// A chooser that fails cancels, whatever it wrote.
pub proof fn lemma_failure_cancels(output: Seq<u8>)
    ensures
        selection_of(false, output) == SelectionView::Cancelled,
{
}

/// A chooser that writes nothing cancels.
pub proof fn lemma_empty_answer_cancels(success: bool)
    ensures
        selection_of(success, Seq::empty()) == SelectionView::Cancelled,
{
    lemma_trimmed_empty(decode_utf8(Seq::empty()));
}

/// A chooser that answers with whitespace only cancels.
pub proof fn lemma_blank_answer_cancels(success: bool, output: Seq<u8>)
    requires
        valid_utf8(output),
        forall|i: int|
            0 <= i < decode_utf8(output).len() ==> white_space(#[trigger] decode_utf8(output)[i]),
    ensures
        selection_of(success, output) == SelectionView::Cancelled,
{
    lemma_trimmed_empty(decode_utf8(output));
}

/// A name is chosen exactly when the chooser succeeds and its output decodes
/// to a text that is not all whitespace; the name then has at least one
/// character.
pub proof fn lemma_chosen(success: bool, output: Seq<u8>)
    ensures
        selection_of(success, output) is Chosen <==> {
            &&& success
            &&& valid_utf8(output)
            &&& exists|i: int|
                0 <= i < decode_utf8(output).len() && !white_space(
                    #[trigger] decode_utf8(output)[i],
                )
        },
        selection_of(success, output) matches SelectionView::Chosen(name) ==> name.len() > 0,
{
    lemma_trimmed_empty(decode_utf8(output));
}

/// Writing one more piece appends it.
proof fn lemma_concat_push(pieces: Seq<Seq<char>>, piece: Seq<char>)
    ensures
        concat(pieces.push(piece)) == concat(pieces) + piece,
    decreases pieces.len(),
{
    if pieces.len() == 0 {
        assert(concat(pieces.push(piece).drop_first()) =~= Seq::<char>::empty());
    } else {
        assert(pieces.push(piece).drop_first() =~= pieces.drop_first().push(piece));
        lemma_concat_push(pieces.drop_first(), piece);
    }
}

/// Names interleaved with as many line feeds, written out, are the names one
/// per line.
proof fn lemma_concat_interleaved(names: Seq<Seq<char>>, feeds: Seq<Seq<char>>)
    requires
        feeds.len() == names.len(),
        forall|i: int| 0 <= i < feeds.len() ==> feeds[i] == "\n"@,
    ensures
        concat(interleaved(names, feeds)) == lines(names),
    decreases names.len(),
{
    if names.len() > 0 {
        let rest_names = names.drop_first();
        let rest_feeds = feeds.drop_first();
        lemma_concat_interleaved(rest_names, rest_feeds);
        // the first name, the first line feed, then the rest in turns
        let tail = interleaved(rest_names, rest_feeds);
        let after_name = interleaved(names, feeds).drop_first();
        assert(interleaved(feeds, rest_names) == seq![feeds[0]] + tail);
        assert(after_name.drop_first() =~= tail);
        assert(concat(after_name) == feeds[0] + concat(tail));
    }
}

/// Interleaving commutes with taking the view of every string.
proof fn lemma_interleaved_views(first: Seq<String>, second: Seq<String>)
    ensures
        interleaved(first, second).map_values(|s: String| s@) == interleaved(
            first.map_values(|s: String| s@),
            second.map_values(|s: String| s@),
        ),
    decreases first.len() + second.len(),
{
    let view = |s: String| s@;
    if first.len() > 0 {
        lemma_interleaved_views(second, first.drop_first());
        assert(first.map_values(view).drop_first() =~= first.drop_first().map_values(view));
        assert(interleaved(first, second).map_values(view) =~= seq![first[0]@] + interleaved(
            second,
            first.drop_first(),
        ).map_values(view));
    }
}

} // verus!
