//! What is taken out of a text that has thinking in it, and what stays.

use vstd::prelude::*;
use crate::machine::{is_uuid, short_id_of};
use crate::thinking::{
    behind_thinking, closing_tag, filtered, filtering_takes_thinking_out, opening_tag, settled_text,
    unfiltered, without_thinking,
};

verus! {

/// Whether a text stands in another at a place.
pub open spec fn stands_at(s: Seq<char>, i: int, tag: Seq<char>) -> bool {
    0 <= i && i + tag.len() <= s.len() && s.subrange(i, i + tag.len()) == tag
}

/// Whether a text stands nowhere in another before a place.
pub open spec fn stands_nowhere_before(s: Seq<char>, n: int, tag: Seq<char>) -> bool {
    forall|i: int| 0 <= i < n ==> !#[trigger] stands_at(s, i, tag)
}

proof fn lemma_tags()
    ensures
        "<think>"@ == opening_tag(),
        "</think>"@ == closing_tag(),
        opening_tag().len() == 7,
        closing_tag().len() == 8,
{
    reveal_strlit("<think>");
    reveal_strlit("</think>");
    assert("<think>"@ =~= opening_tag());
    assert("</think>"@ =~= closing_tag());
}

proof fn lemma_later(s: Seq<char>, n: int, tag: Seq<char>)
    requires
        0 < n <= s.len(),
        stands_nowhere_before(s, n, tag),
    ensures
        !tag.is_prefix_of(s),
        stands_nowhere_before(s.skip(1), n - 1, tag),
{
    assert(!stands_at(s, 0, tag));
    let rest = s.skip(1);
    assert forall|i: int| 0 <= i < n - 1 implies !#[trigger] stands_at(rest, i, tag) by {
        if stands_at(rest, i, tag) {
            assert(s.subrange(i + 1, i + 1 + tag.len()) =~= rest.subrange(i, i + tag.len()));
            assert(stands_at(s, i + 1, tag));
        }
    }
}

proof fn lemma_front_stays(s: Seq<char>, n: int)
    requires
        0 <= n <= s.len(),
        stands_nowhere_before(s, n, opening_tag()),
    ensures
        without_thinking(s) == s.take(n) + without_thinking(s.skip(n)),
    decreases n,
{
    if n == 0 {
        assert(s.skip(0) =~= s);
        assert(s.take(0) + without_thinking(s) =~= without_thinking(s));
    } else {
        let rest = s.skip(1);
        lemma_later(s, n, opening_tag());
        lemma_front_stays(rest, n - 1);
        assert(rest.skip(n - 1) =~= s.skip(n));
        assert(seq![s[0]] + (rest.take(n - 1) + without_thinking(s.skip(n))) =~= s.take(n)
            + without_thinking(s.skip(n)));
    }
}

proof fn lemma_front_goes(s: Seq<char>, n: int)
    requires
        0 <= n <= s.len(),
        stands_nowhere_before(s, n, closing_tag()),
    ensures
        behind_thinking(s) == behind_thinking(s.skip(n)),
    decreases n,
{
    if n == 0 {
        assert(s.skip(0) =~= s);
    } else {
        let rest = s.skip(1);
        lemma_later(s, n, closing_tag());
        lemma_front_goes(rest, n - 1);
        assert(rest.skip(n - 1) =~= s.skip(n));
    }
}

/// A text without a tag that begins thinking stays as it is.
pub proof fn text_without_thinking_stays(s: Seq<char>)
    requires
        stands_nowhere_before(s, s.len() as int, "<think>"@),
    ensures
        without_thinking(s) == s,
{
    lemma_tags();
    let n = s.len() as int;
    lemma_front_stays(s, n);
    assert(s.skip(n) =~= Seq::empty());
    assert(s.take(n) + Seq::<char>::empty() =~= s);
}

/// Thinking goes from the first tag that begins it to the first tag behind that ends it, and is taken
/// out with both of them; what stands before stays, and the rest is looked at on its own.
pub proof fn thinking_goes_from_tag_to_tag(
    before: Seq<char>,
    inside: Seq<char>,
    behind: Seq<char>,
)
    requires
        stands_nowhere_before(
            before + ("<think>"@ + (inside + ("</think>"@ + behind))),
            before.len() as int,
            "<think>"@,
        ),
        stands_nowhere_before(
            inside + ("</think>"@ + behind),
            inside.len() as int,
            "</think>"@,
        ),
    ensures
        without_thinking(before + ("<think>"@ + (inside + ("</think>"@ + behind)))) == before
            + without_thinking(behind),
{
    lemma_tags();
    let rest = inside + (closing_tag() + behind);
    let tagged = opening_tag() + rest;
    let all = before + tagged;
    let n = before.len() as int;
    lemma_front_stays(all, n);
    assert(all.take(n) =~= before);
    assert(all.skip(n) =~= tagged);
    assert(tagged.subrange(0, 7) =~= opening_tag());
    assert(tagged.skip(7) =~= rest);
    let m = inside.len() as int;
    lemma_front_goes(rest, m);
    let closed = closing_tag() + behind;
    assert(rest.skip(m) =~= closed);
    assert(closed.subrange(0, 8) =~= closing_tag());
    assert(closed.skip(8) =~= behind);
}

/// Thinking that is not ended goes on to the end of the text.
pub proof fn unended_thinking_goes_on(before: Seq<char>, inside: Seq<char>)
    requires
        stands_nowhere_before(
            before + ("<think>"@ + inside),
            before.len() as int,
            "<think>"@,
        ),
        stands_nowhere_before(inside, inside.len() as int, "</think>"@),
    ensures
        without_thinking(before + ("<think>"@ + inside)) == before,
{
    lemma_tags();
    let tagged = opening_tag() + inside;
    let all = before + tagged;
    let n = before.len() as int;
    lemma_front_stays(all, n);
    assert(all.take(n) =~= before);
    assert(all.skip(n) =~= tagged);
    assert(tagged.subrange(0, 7) =~= opening_tag());
    assert(tagged.skip(7) =~= inside);
    let m = inside.len() as int;
    lemma_front_goes(inside, m);
    assert(inside.skip(m) =~= Seq::empty());
    assert(before + Seq::<char>::empty() =~= before);
}

/// Text is shown as soon as it arrives: what is still to be shown of it is the beginning of a tag, and
/// not a whole one.
pub proof fn only_a_beginning_of_a_tag_is_held_back(s: Seq<char>)
    ensures
        ({
            let shown = filtered(unfiltered(), s).text;
            let held = settled_text(filtered(unfiltered(), s).at);
            &&& shown + held == without_thinking(s)
            &&& held.len() < "<think>"@.len()
            &&& held == "<think>"@.take(held.len() as int)
        }),
{
    lemma_tags();
    filtering_takes_thinking_out(s);
    let held = settled_text(filtered(unfiltered(), s).at);
    assert(held =~= opening_tag().take(held.len() as int));
}

/// A short identifier has the first twelve digits of a UUID, in order.
pub proof fn short_identifiers_have_the_first_digits(uuid: Seq<char>)
    requires
        is_uuid(uuid),
    ensures
        short_id_of(uuid).len() == 12,
        forall|i: int|
            0 <= i < 12 ==> #[trigger] short_id_of(uuid)[i] == uuid[if i < 8 {
                i
            } else {
                i + 1
            }],
{
}

} // verus!
