//! Text primitives: whitespace classification, trimming, word splitting and
//! comparison of strings, stated over sequences of characters.

use vstd::prelude::*;
use vstd::utf8::*;

verus! {

/// Whether a character is whitespace as Unicode defines it (`White_Space`),
/// which is what `char::is_whitespace` decides.
pub uninterp spec fn white_space(c: char) -> bool;

/// Taken on trust of `char::is_whitespace`: its answer depends on the character
/// alone.  The answer goes by the name [`white_space`]; nothing is claimed
/// about which characters it holds of.
pub assume_specification[ char::is_whitespace ](c: char) -> (b: bool)
    ensures
        b == white_space(c),
;

/// The lowercase form of a text, as `str::to_lowercase` computes it.
pub uninterp spec fn lowercased(s: Seq<char>) -> Seq<char>;

/// Taken on trust of `str::to_lowercase`: the lowercase equivalent it returns
/// depends on the text alone.  It goes by the name [`lowercased`]; nothing is
/// claimed about what it is for which text.
pub assume_specification[ str::to_lowercase ](s: &str) -> (r: String)
    ensures
        r@ == lowercased(s@),
;

/// For each position of `s`, whether the character there is whitespace.
pub open spec fn blanks(s: Seq<char>) -> Seq<bool> {
    Seq::new(s.len(), |i: int| white_space(s[i]))
}

/// The first position at or after `from` whose flag differs from `value`, or
/// the length of `flags` when there is none.
pub open spec fn run_end(flags: Seq<bool>, from: int, value: bool) -> int
    decreases flags.len() - from,
{
    if 0 <= from < flags.len() && flags[from] == value {
        run_end(flags, from + 1, value)
    } else {
        from
    }
}

/// The least position `p <= to` such that every flag in `p..to` equals `value`.
pub open spec fn run_start(flags: Seq<bool>, to: int, value: bool) -> int
    decreases to,
{
    if 0 < to <= flags.len() && flags[to - 1] == value {
        run_start(flags, to - 1, value)
    } else {
        to
    }
}

/// The half-open range that is left of a text after its leading and trailing
/// blanks are removed, given the blank flag of each position.  A text of
/// blanks only is left with an empty range.
pub open spec fn trim_span(blank: Seq<bool>) -> (int, int) {
    let lo = run_end(blank, 0, true);
    let hi = run_start(blank, blank.len() as int, true);
    if lo < hi {
        (lo, hi)
    } else {
        (lo, lo)
    }
}

/// A text without its leading and trailing whitespace.
pub open spec fn trimmed(s: Seq<char>) -> Seq<char> {
    let span = trim_span(blanks(s));
    s.subrange(span.0, span.1)
}

/// The words of a text, as half-open ranges of positions in order: the maximal
/// runs of positions that are not blank, from `from` on.
pub open spec fn word_spans_from(blank: Seq<bool>, from: int) -> Seq<(int, int)>
    decreases blank.len() - from,
    via word_spans_from_decreases
{
    let start = run_end(blank, from, true);
    if 0 <= from && start < blank.len() {
        let end = run_end(blank, start, false);
        seq![(start, end)] + word_spans_from(blank, end)
    } else {
        Seq::empty()
    }
}

#[via_fn]
proof fn word_spans_from_decreases(blank: Seq<bool>, from: int) {
    if 0 <= from <= blank.len() {
        lemma_run_end_bounds(blank, from, true);
        let start = run_end(blank, from, true);
        if start < blank.len() {
            lemma_run_end_bounds(blank, start + 1, false);
        }
    }
}

/// The words of a whole text, given the blank flag of each position.
pub open spec fn word_spans(blank: Seq<bool>) -> Seq<(int, int)> {
    word_spans_from(blank, 0)
}

/// The words of a text: its maximal runs of characters that are not
/// whitespace, in order.
pub open spec fn words(s: Seq<char>) -> Seq<Seq<char>> {
    word_spans(blanks(s)).map_values(|span: (int, int)| s.subrange(span.0, span.1))
}

/// The ranges held by a vector of position pairs.
pub open spec fn spans_view(spans: Seq<(usize, usize)>) -> Seq<(int, int)> {
    spans.map_values(|span: (usize, usize)| (span.0 as int, span.1 as int))
}

/// Whether `s` ends with the characters of `suffix`.
pub open spec fn has_suffix(s: Seq<char>, suffix: Seq<char>) -> bool {
    suffix.len() <= s.len() && s.subrange(s.len() - suffix.len(), s.len() as int) == suffix
}

/// The characters of a string slice, in order.
pub fn chars_of(s: &str) -> (out: Vec<char>)
    ensures
        out@ == s@,
{
    broadcast use vstd::string::group_string_axioms;

    let mut out: Vec<char> = Vec::new();
    for c in it: s.chars()
        invariant
            it.seq() == s@,
            out@ == s@.take(it.index()),
    {
        out.push(c);
    }
    out
}

/// Classifies every character of `chars` as whitespace or not.
pub fn blank_flags(chars: &Vec<char>) -> (out: Vec<bool>)
    ensures
        out@ == blanks(chars@),
{
    let mut out: Vec<bool> = Vec::new();
    let mut i: usize = 0;
    while i < chars.len()
        invariant
            i <= chars.len(),
            out@ == blanks(chars@.take(i as int)),
        decreases chars.len() - i,
    {
        out.push(chars[i].is_whitespace());
        i += 1;
    }
    out
}

/// Finds the range that remains of a text once leading and trailing blanks
/// are removed, given the blank flag of each position.
pub fn trim_bounds(blank: &Vec<bool>) -> (span: (usize, usize))
    ensures
        (span.0 as int, span.1 as int) == trim_span(blank@),
        span.0 <= span.1 <= blank.len(),
{
    let n = blank.len();
    let mut lo: usize = 0;
    while lo < n && blank[lo]
        invariant
            lo <= n == blank.len(),
            run_end(blank@, 0, true) == run_end(blank@, lo as int, true),
        decreases n - lo,
    {
        lo += 1;
    }
    let mut hi: usize = n;
    while hi > lo && blank[hi - 1]
        invariant
            lo <= hi <= n == blank.len(),
            run_start(blank@, n as int, true) == run_start(blank@, hi as int, true),
        decreases hi,
    {
        hi -= 1;
    }
    proof {
        lemma_run_end_bounds(blank@, lo as int, true);
        lemma_run_start_bounds(blank@, hi as int, true);
    }
    (lo, hi)
}

/// Finds the words of a text, given the blank flag of each position.
pub fn word_bounds(blank: &Vec<bool>) -> (spans: Vec<(usize, usize)>)
    ensures
        spans_view(spans@) == word_spans(blank@),
        forall|k: int|
            0 <= k < spans@.len() ==> (#[trigger] spans@[k]).0 < spans@[k].1 <= blank.len(),
{
    let n = blank.len();
    let mut spans: Vec<(usize, usize)> = Vec::new();
    let mut i: usize = 0;
    while i < n
        invariant
            i <= n == blank.len(),
            spans_view(spans@) + word_spans_from(blank@, i as int) == word_spans(blank@),
            forall|k: int| 0 <= k < spans@.len() ==> (#[trigger] spans@[k]).0 < spans@[k].1 <= n,
        decreases n - i,
    {
        if blank[i] {
            i += 1;
        } else {
            let start = i;
            let ghost before = spans_view(spans@);
            while i < n && !blank[i]
                invariant
                    start <= i <= n == blank.len(),
                    start < n,
                    !blank[start as int],
                    run_end(blank@, start as int, false) == run_end(blank@, i as int, false),
                decreases n - i,
            {
                i += 1;
            }
            spans.push((start, i));
            proof {
                assert(word_spans_from(blank@, start as int) == seq![(start as int, i as int)]
                    + word_spans_from(blank@, i as int));
            }
        }
    }
    spans
}

/// Returns `s` without its leading and trailing whitespace.
pub fn trim<'a>(s: &'a str) -> (r: &'a str)
    ensures
        r@ == trimmed(s@),
{
    let chars = chars_of(s);
    let blank = blank_flags(&chars);
    let (lo, hi) = trim_bounds(&blank);
    s.substring_char(lo, hi)
}

/// Splits `s` into its words, dropping all whitespace.
pub fn split_whitespace(s: &str) -> (out: Vec<String>)
    ensures
        out.deep_view() == words(s@),
{
    let chars = chars_of(s);
    let blank = blank_flags(&chars);
    let spans = word_bounds(&blank);
    let mut out: Vec<String> = Vec::new();
    let mut k: usize = 0;
    while k < spans.len()
        invariant
            k <= spans.len(),
            blank@.len() == s@.len(),
            spans_view(spans@) == word_spans(blanks(s@)),
            forall|j: int|
                0 <= j < spans@.len() ==> (#[trigger] spans@[j]).0 < spans@[j].1 <= blank.len(),
            out.deep_view() == words(s@).take(k as int),
        decreases spans.len() - k,
    {
        let (from, to) = spans[k];
        let ghost before = out.deep_view();
        let word = s.substring_char(from, to).to_owned();
        out.push(word);
        proof {
            assert(out.deep_view() =~= before.push(word@));
        }
        k += 1;
    }
    out
}

/// Whether two string slices hold the same characters.
pub fn same_text(a: &str, b: &str) -> (r: bool)
    ensures
        r == (a@ == b@),
{
    let x = a.as_bytes();
    let y = b.as_bytes();
    proof {
        encode_utf8_decode_utf8(a@);
        encode_utf8_decode_utf8(b@);
    }
    if x.len() != y.len() {
        return false;
    }
    let mut i: usize = 0;
    while i < x.len()
        invariant
            i <= x.len() == y.len(),
            forall|k: int| 0 <= k < i ==> x@[k] == y@[k],
            x@ == encode_utf8(a@),
            y@ == encode_utf8(b@),
            decode_utf8(encode_utf8(a@)) == a@,
            decode_utf8(encode_utf8(b@)) == b@,
        decreases x.len() - i,
    {
        if x[i] != y[i] {
            return false;
        }
        i += 1;
    }
    assert(x@ =~= y@);
    true
}

/// Whether `s` ends with `suffix`.
pub fn ends_with(s: &str, suffix: &str) -> (r: bool)
    ensures
        r == has_suffix(s@, suffix@),
{
    let text = chars_of(s);
    let tail = chars_of(suffix);
    if tail.len() > text.len() {
        return false;
    }
    let offset = text.len() - tail.len();
    let mut i: usize = 0;
    while i < tail.len()
        invariant
            i <= tail.len() <= text.len(),
            offset == text.len() - tail.len(),
            text@ == s@,
            tail@ == suffix@,
            forall|k: int| 0 <= k < i ==> text@[offset + k] == tail@[k],
        decreases tail.len() - i,
    {
        if text[offset + i] != tail[i] {
            return false;
        }
        i += 1;
    }
    assert(s@.subrange(s@.len() - suffix@.len(), s@.len() as int) =~= suffix@);
    true
}

/// [`run_end`] stops within the sequence, passes only flags equal to `value`,
/// and stops on a flag that differs, if on any.
pub proof fn lemma_run_end_bounds(flags: Seq<bool>, from: int, value: bool)
    requires
        0 <= from <= flags.len(),
    ensures
        from <= run_end(flags, from, value) <= flags.len(),
        forall|k: int| from <= k < run_end(flags, from, value) ==> flags[k] == value,
        run_end(flags, from, value) < flags.len() ==> flags[run_end(flags, from, value)] != value,
    decreases flags.len() - from,
{
    if from < flags.len() && flags[from] == value {
        lemma_run_end_bounds(flags, from + 1, value);
    }
}

/// [`run_start`] stops within the sequence, passes only flags equal to
/// `value`, and stops behind a flag that differs, if behind any.
pub proof fn lemma_run_start_bounds(flags: Seq<bool>, to: int, value: bool)
    requires
        0 <= to <= flags.len(),
    ensures
        0 <= run_start(flags, to, value) <= to,
        forall|k: int| run_start(flags, to, value) <= k < to ==> flags[k] == value,
        0 < run_start(flags, to, value) ==> flags[run_start(flags, to, value) - 1] != value,
    decreases to,
{
    if 0 < to && flags[to - 1] == value {
        lemma_run_start_bounds(flags, to - 1, value);
    }
}

/// What trimming does: it cuts whitespace, and nothing else, off both ends,
/// until either end is a character that is not whitespace.
pub proof fn lemma_trimmed(s: Seq<char>)
    ensures
        ({
            let span = trim_span(blanks(s));
            &&& 0 <= span.0 <= span.1 <= s.len()
            &&& trimmed(s) == s.subrange(span.0, span.1)
            &&& forall|i: int| 0 <= i < span.0 ==> white_space(#[trigger] s[i])
            &&& forall|i: int| span.1 <= i < s.len() ==> white_space(#[trigger] s[i])
            &&& trimmed(s).len() > 0 ==> !white_space(trimmed(s).first()) && !white_space(
                trimmed(s).last(),
            )
        }),
{
    let blank = blanks(s);
    lemma_run_end_bounds(blank, 0, true);
    lemma_run_start_bounds(blank, blank.len() as int, true);
    let span = trim_span(blank);
    assert forall|i: int| 0 <= i < span.0 implies white_space(#[trigger] s[i]) by {
        assert(blank[i]);
    }
    assert forall|i: int| span.1 <= i < s.len() implies white_space(#[trigger] s[i]) by {
        assert(blank[i]);
    }
}

/// Trimming leaves nothing exactly of the texts that hold whitespace only.
pub proof fn lemma_trimmed_empty(s: Seq<char>)
    ensures
        trimmed(s).len() == 0 <==> forall|i: int| 0 <= i < s.len() ==> white_space(
            #[trigger] s[i],
        ),
{
    let blank = blanks(s);
    lemma_run_end_bounds(blank, 0, true);
    lemma_run_start_bounds(blank, blank.len() as int, true);
    if run_end(blank, 0, true) == s.len() {
        assert forall|i: int| 0 <= i < s.len() implies white_space(#[trigger] s[i]) by {
            assert(blank[i]);
        }
    }
}

/// Every range of [`word_spans_from`] is a non-empty run of positions that are
/// not blank, bounded by blanks or by the ends of the text, and the ranges come
/// in increasing order without touching.  `from` must not lie inside a word.
pub proof fn lemma_word_spans_from(blank: Seq<bool>, from: int)
    requires
        0 <= from <= blank.len(),
        from == 0 || from == blank.len() || blank[from],
    ensures
        forall|k: int|
            0 <= k < word_spans_from(blank, from).len() ==> {
                let span = #[trigger] word_spans_from(blank, from)[k];
                &&& from <= span.0 < span.1 <= blank.len()
                &&& forall|p: int| span.0 <= p < span.1 ==> !blank[p]
                &&& span.0 == 0 || blank[span.0 - 1]
                &&& span.1 == blank.len() || blank[span.1]
            },
        forall|j: int, k: int|
            0 <= j < k < word_spans_from(blank, from).len() ==> (#[trigger] word_spans_from(
                blank,
                from,
            )[j]).1 < (#[trigger] word_spans_from(blank, from)[k]).0,
    decreases blank.len() - from,
{
    lemma_run_end_bounds(blank, from, true);
    let start = run_end(blank, from, true);
    if start < blank.len() {
        lemma_run_end_bounds(blank, start, false);
        let end = run_end(blank, start, false);
        lemma_run_end_bounds(blank, start + 1, false);
        lemma_word_spans_from(blank, end);
        // the first word, then the words from its end on
        let rest = word_spans_from(blank, end);
        let all = word_spans_from(blank, from);
        assert forall|k: int| 0 < k < all.len() implies #[trigger] all[k] == rest[k - 1] by {}
    }
}

/// Every position that is not blank, at or after `from`, lies in one of the
/// ranges of [`word_spans_from`].
pub proof fn lemma_word_spans_cover(blank: Seq<bool>, from: int, position: int) -> (k: int)
    requires
        0 <= from <= position < blank.len(),
        !blank[position],
    ensures
        0 <= k < word_spans_from(blank, from).len(),
        word_spans_from(blank, from)[k].0 <= position < word_spans_from(blank, from)[k].1,
    decreases blank.len() - from,
{
    lemma_run_end_bounds(blank, from, true);
    let start = run_end(blank, from, true);
    lemma_run_end_bounds(blank, start, false);
    let end = run_end(blank, start, false);
    lemma_run_end_bounds(blank, start + 1, false);
    if position < end {
        0
    } else {
        lemma_word_spans_cover(blank, end, position) + 1
    }
}

/// Every word is a stretch of the text, has at least one character and holds
/// no whitespace.
pub proof fn lemma_words(s: Seq<char>)
    ensures
        forall|k: int|
            0 <= k < words(s).len() ==> (#[trigger] words(s)[k]).len() > 0 && forall|i: int|
                0 <= i < words(s)[k].len() ==> !white_space(#[trigger] words(s)[k][i]),
{
    let blank = blanks(s);
    lemma_word_spans_from(blank, 0);
    assert forall|k: int| 0 <= k < words(s).len() implies (#[trigger] words(s)[k]).len() > 0
        && forall|i: int| 0 <= i < words(s)[k].len() ==> !white_space(
        #[trigger] words(s)[k][i],
    ) by {
        let span = word_spans(blank)[k];
        assert forall|i: int| 0 <= i < words(s)[k].len() implies !white_space(
            #[trigger] words(s)[k][i],
        ) by {
            assert(!blank[span.0 + i]);
        }
    }
}

/// The ranges moved to the right by `offset`.
spec fn shifted(spans: Seq<(int, int)>, offset: int) -> Seq<(int, int)> {
    spans.map_values(|span: (int, int)| (span.0 + offset, span.1 + offset))
}

/// A run inside a stretch `lo..hi` of the flags ends where the run in the
/// whole sequence ends, or at `hi` if that comes first.
proof fn lemma_run_end_within(flags: Seq<bool>, lo: int, hi: int, from: int, value: bool)
    requires
        0 <= lo <= hi <= flags.len(),
        0 <= from <= hi - lo,
    ensures
        ({
            let inner = run_end(flags.subrange(lo, hi), from, value) + lo;
            let outer = run_end(flags, lo + from, value);
            inner == if outer < hi {
                outer
            } else {
                hi
            }
        }),
    decreases hi - lo - from,
{
    lemma_run_end_bounds(flags, lo + from, value);
    if from < hi - lo && flags[lo + from] == value {
        lemma_run_end_within(flags, lo, hi, from + 1, value);
        lemma_run_end_bounds(flags, lo + from + 1, value);
    }
}

/// The words of a stretch `lo..hi` that is followed by blanks only are the
/// words of the whole sequence from `lo` on.
proof fn lemma_word_spans_within(blank: Seq<bool>, lo: int, hi: int, from: int)
    requires
        0 <= lo <= hi <= blank.len(),
        0 <= from <= hi - lo,
        forall|k: int| hi <= k < blank.len() ==> blank[k],
    ensures
        shifted(word_spans_from(blank.subrange(lo, hi), from), lo) == word_spans_from(
            blank,
            lo + from,
        ),
    decreases hi - lo - from,
{
    let part = blank.subrange(lo, hi);
    lemma_run_end_within(blank, lo, hi, from, true);
    lemma_run_end_bounds(blank, lo + from, true);
    lemma_run_end_bounds(part, from, true);
    let start = run_end(part, from, true);
    if start < part.len() {
        lemma_run_end_within(blank, lo, hi, start, false);
        lemma_run_end_bounds(blank, lo + start, false);
        lemma_run_end_bounds(part, start, false);
        lemma_run_end_bounds(part, start + 1, false);
        let end = run_end(part, start, false);
        lemma_word_spans_within(blank, lo, hi, end);
        assert(shifted(word_spans_from(part, from), lo) =~= seq![(start + lo, end + lo)] + shifted(
            word_spans_from(part, end),
            lo,
        ));
    }
}

/// Trimming a text does not change its words.
pub proof fn lemma_words_of_trimmed(s: Seq<char>)
    ensures
        words(trimmed(s)) == words(s),
{
    let blank = blanks(s);
    let span = trim_span(blank);
    let inner = trimmed(s);
    lemma_trimmed(s);
    lemma_run_end_bounds(blank, 0, true);
    lemma_run_end_bounds(blank, span.0, true);
    lemma_run_start_bounds(blank, blank.len() as int, true);
    // the flags of the trimmed text are a stretch of the flags of the text,
    // with blanks only before and behind it
    assert(blanks(inner) =~= blank.subrange(span.0, span.1));
    lemma_word_spans_within(blank, span.0, span.1, 0);
    assert(word_spans_from(blank, span.0) == word_spans_from(blank, 0));
    lemma_word_spans_from(blanks(inner), 0);
    assert forall|k: int| 0 <= k < words(s).len() implies words(inner)[k] == words(s)[k] by {
        let at = word_spans(blanks(inner))[k];
        assert(word_spans(blank)[k] == (at.0 + span.0, at.1 + span.0));
    }
}

} // verus!
