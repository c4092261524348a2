//! What holds of texts: trimming, joining, numbers, and the thinking that is taken out.

use vstd::prelude::*;
use crate::text::{decimal, digit, is_space, join, trim, trim_end, trim_start};
use crate::thinking::without_thinking;

verus! {

/// A text of white space alone.
pub open spec fn is_white(s: Seq<char>) -> bool {
    forall|i: int| 0 <= i < s.len() ==> is_space(#[trigger] s[i])
}

proof fn lemma_trim_start(s: Seq<char>) -> (front: Seq<char>)
    ensures
        s == front + trim_start(s),
        is_white(front),
        trim_start(s).len() > 0 ==> !is_space(trim_start(s).first()),
    decreases s.len(),
{
    if s.len() > 0 && is_space(s.first()) {
        let rest = s.drop_first();
        let front = lemma_trim_start(rest);
        let all = seq![s.first()] + front;
        assert(trim_start(s) == trim_start(rest));
        assert(s =~= seq![s.first()] + rest);
        assert(seq![s.first()] + (front + trim_start(rest)) =~= all + trim_start(rest));
        assert forall|i: int| 0 <= i < all.len() implies is_space(#[trigger] all[i]) by {
            if i > 0 {
                assert(all[i] == front[i - 1]);
            }
        }
        all
    } else {
        assert(s =~= Seq::empty() + s);
        Seq::empty()
    }
}

proof fn lemma_trim_end(s: Seq<char>) -> (back: Seq<char>)
    ensures
        s == trim_end(s) + back,
        is_white(back),
        trim_end(s).len() > 0 ==> !is_space(trim_end(s).last()),
    decreases s.len(),
{
    if s.len() > 0 && is_space(s.last()) {
        let rest = s.drop_last();
        let back = lemma_trim_end(rest);
        let all = back.push(s.last());
        assert(trim_end(s) == trim_end(rest));
        assert(s =~= rest.push(s.last()));
        assert((trim_end(rest) + back).push(s.last()) =~= trim_end(rest) + all);
        assert forall|i: int| 0 <= i < all.len() implies is_space(#[trigger] all[i]) by {
            if i < back.len() {
                assert(all[i] == back[i]);
            }
        }
        all
    } else {
        assert(s =~= s + Seq::empty());
        Seq::empty()
    }
}

/// Trimming takes white space off the two ends of a text and nothing else: what is left begins and
/// ends with something else, if anything is left.
pub proof fn trimming_takes_white_ends_off(s: Seq<char>)
    ensures
        exists|front: Seq<char>, back: Seq<char>|
            is_white(front) && is_white(back) && s == #[trigger] (front + trim(s) + back),
        trim(s).len() > 0 ==> !is_space(trim(s).first()) && !is_space(trim(s).last()),
{
    let front = lemma_trim_start(s);
    let back = lemma_trim_end(trim_start(s));
    assert(s =~= front + trim(s) + back);
    if trim(s).len() > 0 {
        assert(trim_start(s).first() == trim(s).first());
    }
}

/// A text is blank exactly where it is white space alone.
pub proof fn blank_is_white(s: Seq<char>)
    ensures
        trim(s).len() == 0 <==> is_white(s),
{
    trimming_takes_white_ends_off(s);
    let (front, back) = choose|front: Seq<char>, back: Seq<char>|
        is_white(front) && is_white(back) && s == #[trigger] (front + trim(s) + back);
    if trim(s).len() == 0 {
        assert forall|i: int| 0 <= i < s.len() implies is_space(#[trigger] s[i]) by {
            if i < front.len() {
                assert(s[i] == front[i]);
            } else {
                assert(s[i] == back[i - front.len()]);
            }
        }
    } else {
        assert(s[front.len() as int] == trim(s)[0]);
    }
}

/// A text that neither begins nor ends with white space stays as it is.
pub proof fn trimmed_text_stays(s: Seq<char>)
    requires
        s.len() > 0,
        !is_space(s.first()),
        !is_space(s.last()),
    ensures
        trim(s) == s,
{
}

/// Joining puts the texts one behind the other: the first one, and then the separator and the rest
/// joined.
pub proof fn joining_begins_with_the_first(
    first: Seq<char>,
    rest: Seq<Seq<char>>,
    separator: Seq<char>,
)
    ensures
        join(Seq::empty(), separator) == Seq::<char>::empty(),
        join(seq![first], separator) == first,
        rest.len() > 0 ==> join(seq![first] + rest, separator) == first + separator + join(
            rest,
            separator,
        ),
    decreases rest.len(),
{
    if rest.len() > 1 {
        let shorter = rest.drop_last();
        joining_begins_with_the_first(first, shorter, separator);
        assert((seq![first] + rest).drop_last() =~= seq![first] + shorter);
        assert(join(seq![first] + rest, separator) =~= first + separator + join(rest, separator));
    } else if rest.len() == 1 {
        assert((seq![first] + rest).drop_last() =~= seq![first]);
        assert(join(seq![first], separator) == first);
        assert(join(seq![first] + rest, separator) =~= first + separator + join(rest, separator));
    }
}

/// The number that some digits stand for.
pub open spec fn number_of(s: Seq<char>) -> int
    decreases s.len(),
{
    if s.len() == 0 {
        0
    } else {
        10 * number_of(s.drop_last()) + (s.last() as int - '0' as int)
    }
}

/// A number in decimal notation has digits only, and they stand for the number.
pub proof fn decimal_is_read_back(n: nat)
    ensures
        number_of(decimal(n)) == n,
        decimal(n).len() > 0,
        forall|i: int| 0 <= i < decimal(n).len() ==> '0' <= #[trigger] decimal(n)[i] <= '9',
        n > 0 ==> decimal(n)[0] != '0',
    decreases n,
{
    if n >= 10 {
        decimal_is_read_back(n / 10);
        let last = digit((n % 10) as int);
        assert(decimal(n).drop_last() =~= decimal(n / 10));
        assert(decimal(n)[0] == decimal(n / 10)[0]);
    } else {
        let one = decimal(n);
        assert(one.drop_last() =~= Seq::empty());
        assert(number_of(one.drop_last()) == 0);
    }
}

/// A text without a bracket.
pub open spec fn has_no_bracket(s: Seq<char>) -> bool {
    forall|i: int| 0 <= i < s.len() ==> #[trigger] s[i] != '<'
}

/// A text without tags stays as it is, and the text before a tag stays in front.
pub proof fn untagged_text_stays(s: Seq<char>, rest: Seq<char>)
    requires
        has_no_bracket(s),
    ensures
        without_thinking(s + rest) == s + without_thinking(rest),
        without_thinking(s) == s,
    decreases s.len(),
{
    if s.len() == 0 {
        assert(s + rest =~= rest);
        assert(s + without_thinking(rest) =~= without_thinking(rest));
    } else {
        let next = s.skip(1);
        let all = s + rest;
        assert forall|i: int| 0 <= i < next.len() implies #[trigger] next[i] != '<' by {
            assert(s[i + 1] != '<');
        }
        untagged_text_stays(next, rest);
        assert(s[0] != '<');
        assert(crate::thinking::opening_tag()[0] == '<');
        assert(!crate::thinking::opening_tag().is_prefix_of(all)) by {
            if crate::thinking::opening_tag().is_prefix_of(all) {
                assert(all.subrange(0, 7)[0] == all[0]);
            }
        }
        assert(!crate::thinking::opening_tag().is_prefix_of(s)) by {
            if crate::thinking::opening_tag().is_prefix_of(s) {
                assert(s.subrange(0, 7)[0] == s[0]);
            }
        }
        assert(all.skip(1) =~= next + rest);
        assert(without_thinking(all) =~= s + without_thinking(rest));
        assert(without_thinking(s) =~= s);
    }
}

proof fn lemma_behind(inside: Seq<char>, rest: Seq<char>)
    requires
        has_no_bracket(inside),
    ensures
        crate::thinking::behind_thinking(inside + "</think>"@ + rest) == without_thinking(rest),
    decreases inside.len(),
{
    reveal_strlit("</think>");
    let tag = crate::thinking::closing_tag();
    assert("</think>"@ =~= tag);
    let all = inside + "</think>"@ + rest;
    if inside.len() == 0 {
        assert(tag.is_prefix_of(all)) by {
            assert(all.subrange(0, 8) =~= tag);
        }
        assert(all.skip(8) =~= rest);
    } else {
        let next = inside.skip(1);
        assert forall|i: int| 0 <= i < next.len() implies #[trigger] next[i] != '<' by {
            assert(inside[i + 1] != '<');
        }
        lemma_behind(next, rest);
        assert(inside[0] != '<');
        assert(all[0] == inside[0]);
        assert(!tag.is_prefix_of(all)) by {
            if tag.is_prefix_of(all) {
                assert(all.subrange(0, 8)[0] == all[0]);
            }
        }
        assert(all.skip(1) =~= next + "</think>"@ + rest);
    }
}

/// Thinking between its tags is taken out, and the tags with it; what stands before it and behind it
/// stays.
pub proof fn tagged_thinking_is_taken_out(
    before: Seq<char>,
    inside: Seq<char>,
    behind: Seq<char>,
)
    requires
        has_no_bracket(before),
        has_no_bracket(inside),
    ensures
        without_thinking(before + "<think>"@ + inside + "</think>"@ + behind) == before
            + without_thinking(behind),
{
    reveal_strlit("<think>");
    let tag = crate::thinking::opening_tag();
    assert("<think>"@ =~= tag);
    let rest = inside + "</think>"@ + behind;
    let tagged = "<think>"@ + rest;
    untagged_text_stays(before, tagged);
    lemma_behind(inside, behind);
    assert(before + "<think>"@ + inside + "</think>"@ + behind =~= before + tagged);
    assert(tag.is_prefix_of(tagged)) by {
        assert(tagged.subrange(0, 7) =~= tag);
    }
    assert(tagged.skip(7) =~= rest);
}

} // verus!
