//! The order in which names are offered: strings compared character by
//! character, by code point.

use vstd::prelude::*;
use vstd::relations::{sorted_by, total_ordering};
use vstd::seq_lib::lemma_sorted_unique;
use vstd::utf8::char_u32_cast;

verus! {

/// Whether `a` comes before `b` or equals it, comparing character by character
/// by code point; a proper prefix comes before the longer text.
pub open spec fn text_le(a: Seq<char>, b: Seq<char>) -> bool
    decreases a.len(),
{
    if a.len() == 0 {
        true
    } else if b.len() == 0 {
        false
    } else if a[0] != b[0] {
        (a[0] as u32) < (b[0] as u32)
    } else {
        text_le(a.drop_first(), b.drop_first())
    }
}

/// [`text_le`] as a relation.
pub open spec fn text_order() -> spec_fn(Seq<char>, Seq<char>) -> bool {
    |a: Seq<char>, b: Seq<char>| text_le(a, b)
}

/// The names in ascending order.
pub open spec fn sorted_names(names: Seq<Seq<char>>) -> Seq<Seq<char>> {
    names.sort_by(text_order())
}

/// Every text comes before or equals itself.
pub proof fn lemma_text_le_reflexive(a: Seq<char>)
    ensures
        text_le(a, a),
    decreases a.len(),
{
    if a.len() > 0 {
        lemma_text_le_reflexive(a.drop_first());
    }
}

/// Two texts that each come before or equal the other are equal.
pub proof fn lemma_text_le_antisymmetric(a: Seq<char>, b: Seq<char>)
    requires
        text_le(a, b),
        text_le(b, a),
    ensures
        a == b,
    decreases a.len(),
{
    if a.len() > 0 && b.len() > 0 {
        lemma_text_le_antisymmetric(a.drop_first(), b.drop_first());
        assert(a =~= seq![a[0]] + a.drop_first());
        assert(b =~= seq![b[0]] + b.drop_first());
    }
}

/// What comes before a text also comes before whatever that text comes before.
pub proof fn lemma_text_le_transitive(a: Seq<char>, b: Seq<char>, c: Seq<char>)
    requires
        text_le(a, b),
        text_le(b, c),
    ensures
        text_le(a, c),
    decreases a.len(),
{
    if a.len() > 0 && a[0] == b[0] && b[0] == c[0] {
        lemma_text_le_transitive(a.drop_first(), b.drop_first(), c.drop_first());
    }
}

/// Of two texts, one comes before or equals the other.
pub proof fn lemma_text_le_total(a: Seq<char>, b: Seq<char>)
    ensures
        text_le(a, b) || text_le(b, a),
    decreases a.len(),
{
    if a.len() > 0 && b.len() > 0 {
        if a[0] == b[0] {
            lemma_text_le_total(a.drop_first(), b.drop_first());
        } else {
            char_u32_cast(a[0], a[0] as u32);
            char_u32_cast(b[0], b[0] as u32);
        }
    }
}

/// [`text_le`] is a total order.
pub proof fn lemma_text_order_total()
    ensures
        total_ordering(text_order()),
{
    let r = text_order();
    assert forall|x: Seq<char>| #[trigger] r(x, x) by {
        lemma_text_le_reflexive(x);
    }
    assert forall|x: Seq<char>, y: Seq<char>| #[trigger] r(x, y) && #[trigger] r(y, x) implies x
        == y by {
        lemma_text_le_antisymmetric(x, y);
    }
    assert forall|x: Seq<char>, y: Seq<char>, z: Seq<char>| #[trigger] r(x, y) && #[trigger] r(
        y,
        z,
    ) implies r(x, z) by {
        lemma_text_le_transitive(x, y, z);
    }
    assert forall|x: Seq<char>, y: Seq<char>| #[trigger] r(x, y) || #[trigger] r(y, x) by {
        lemma_text_le_total(x, y);
    }
}

/// [`sorted_names`] is a rearrangement of the names in ascending order.
pub proof fn lemma_sorted_names(names: Seq<Seq<char>>)
    ensures
        sorted_by(sorted_names(names), text_order()),
        sorted_names(names).to_multiset() == names.to_multiset(),
        sorted_names(names).len() == names.len(),
{
    lemma_text_order_total();
    names.lemma_sort_by_ensures(text_order());
    vstd::seq_lib::to_multiset_len(names);
    vstd::seq_lib::to_multiset_len(sorted_names(names));
}

/// Any ascending rearrangement of the names is [`sorted_names`].
pub proof fn lemma_sorted_names_unique(names: Seq<Seq<char>>, arranged: Seq<Seq<char>>)
    requires
        sorted_by(arranged, text_order()),
        arranged.to_multiset() == names.to_multiset(),
    ensures
        arranged == sorted_names(names),
{
    lemma_sorted_names(names);
    lemma_text_order_total();
    lemma_sorted_unique(arranged, sorted_names(names), text_order());
}

/// The order in which names are listed does not matter: two listings of the
/// same names sort to the same sequence.
pub proof fn lemma_sorted_names_of_rearrangement(first: Seq<Seq<char>>, second: Seq<Seq<char>>)
    requires
        first.to_multiset() == second.to_multiset(),
    ensures
        sorted_names(first) == sorted_names(second),
{
    lemma_sorted_names(first);
    lemma_sorted_names_unique(second, sorted_names(first));
}

} // verus!
