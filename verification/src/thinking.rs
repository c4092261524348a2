//! Taking tagged thinking out of a text that arrives in parts.

use vstd::prelude::*;
use vstd::string::StringExecFns;
use crate::text::{chars_of, string_of};

verus! {

/// The tag that begins thinking.
pub open spec fn opening_tag() -> Seq<char> {
    seq!['<', 't', 'h', 'i', 'n', 'k', '>']
}

/// The tag that ends thinking.
pub open spec fn closing_tag() -> Seq<char> {
    seq!['<', '/', 't', 'h', 'i', 'n', 'k', '>']
}

/// A text without the parts that stand between thinking tags, and without the tags. Thinking that
/// is not closed goes on to the end.
pub open spec fn without_thinking(s: Seq<char>) -> Seq<char>
    decreases s.len(),
{
    if s.len() == 0 {
        s
    } else if opening_tag().is_prefix_of(s) {
        behind_thinking(s.skip(7))
    } else {
        seq![s[0]] + without_thinking(s.skip(1))
    }
}

/// A text that begins inside of thinking, without its tagged parts.
pub open spec fn behind_thinking(s: Seq<char>) -> Seq<char>
    decreases s.len(),
{
    if s.len() == 0 {
        s
    } else if closing_tag().is_prefix_of(s) {
        without_thinking(s.skip(8))
    } else {
        behind_thinking(s.skip(1))
    }
}

/// How far a text was filtered: whether its end is inside of thinking, and what may be the
/// beginning of the next tag.
pub struct Thinking {
    pub inside: bool,
    pub held: Seq<char>,
}

/// A text that was filtered: how far, and what of it is to be seen.
pub struct Filtered {
    pub at: Thinking,
    pub text: Seq<char>,
}

/// The tag that may come next.
pub open spec fn next_tag(inside: bool) -> Seq<char> {
    if inside {
        closing_tag()
    } else {
        opening_tag()
    }
}

/// The filter before any text.
pub open spec fn unfiltered() -> Thinking {
    Thinking { inside: false, held: Seq::empty() }
}

/// What is held back is a part of a tag.
pub open spec fn holds_tag(at: Thinking) -> bool {
    at.held.len() < next_tag(at.inside).len() && at.held.is_prefix_of(next_tag(at.inside))
}

/// The filter after one more character. A tag only begins with its bracket, so what was held back is
/// text as soon as it is no part of a tag.
pub open spec fn filter_step(f: Filtered, c: char) -> Filtered {
    let tried = f.at.held.push(c);
    let tag = next_tag(f.at.inside);
    if tried == tag {
        Filtered { at: Thinking { inside: !f.at.inside, held: Seq::empty() }, ..f }
    } else if tried.is_prefix_of(tag) {
        Filtered { at: Thinking { held: tried, ..f.at }, ..f }
    } else {
        let (seen, held) = if c == '<' {
            (f.at.held, seq!['<'])
        } else {
            (tried, Seq::empty())
        };
        Filtered {
            at: Thinking { held, ..f.at },
            text: if f.at.inside {
                f.text
            } else {
                f.text + seen
            },
        }
    }
}

/// The filter after some more text.
pub open spec fn filter_on(f: Filtered, s: Seq<char>) -> Filtered
    decreases s.len(),
{
    if s.len() == 0 {
        f
    } else {
        filter_step(filter_on(f, s.drop_last()), s.last())
    }
}

/// What is to be seen of some more text.
pub open spec fn filtered(at: Thinking, s: Seq<char>) -> Filtered {
    filter_on(Filtered { at, text: Seq::empty() }, s)
}

/// What is to be seen of a text that ends here: what was held back was no tag.
pub open spec fn settled_text(at: Thinking) -> Seq<char> {
    if at.inside {
        Seq::empty()
    } else {
        at.held
    }
}

proof fn lemma_filter_front(f: Filtered, s: Seq<char>)
    requires
        s.len() > 0,
    ensures
        filter_on(f, s) == filter_on(filter_step(f, s[0]), s.skip(1)),
    decreases s.len(),
{
    if s.len() == 1 {
        assert(s.drop_last() =~= Seq::empty());
        assert(s.skip(1) =~= Seq::empty());
        assert(filter_on(f, s.drop_last()) == f);
    } else {
        lemma_filter_front(f, s.drop_last());
        assert(s.drop_last().skip(1) =~= s.skip(1).drop_last());
    }
}

proof fn lemma_filter_text(f: Filtered, s: Seq<char>)
    ensures
        filter_on(f, s) == (Filtered {
            at: filtered(f.at, s).at,
            text: f.text + filtered(f.at, s).text,
        }),
    decreases s.len(),
{
    if s.len() == 0 {
        assert(f.text + Seq::<char>::empty() =~= f.text);
    } else {
        lemma_filter_text(f, s.drop_last());
        let apart = filtered(f.at, s.drop_last());
        let c = s.last();
        assert(f.text + filter_step(apart, c).text =~= filter_on(f, s).text);
    }
}

/// Filtering goes on where it stopped: two parts give what the whole gives.
pub proof fn filtering_goes_on(at: Thinking, a: Seq<char>, b: Seq<char>)
    ensures
        filtered(at, a + b).at == filtered(filtered(at, a).at, b).at,
        filtered(at, a + b).text == filtered(at, a).text + filtered(filtered(at, a).at, b).text,
    decreases b.len(),
{
    if b.len() == 0 {
        assert(a + b =~= a);
        assert(filtered(at, a).text + Seq::<char>::empty() =~= filtered(at, a).text);
    } else {
        filtering_goes_on(at, a, b.drop_last());
        assert((a + b).drop_last() =~= a + b.drop_last());
        let first = filtered(at, a);
        let second = filtered(first.at, b.drop_last());
        assert(filtered(at, a + b).text =~= first.text + filter_step(second, b.last()).text);
    }
}

proof fn lemma_seen(x: Seq<char>, k: int)
    requires
        0 <= k <= x.len(),
        forall|j: int| 0 <= j < k ==> !opening_tag().is_prefix_of(#[trigger] x.skip(j)),
    ensures
        without_thinking(x) == x.take(k) + without_thinking(x.skip(k)),
    decreases k,
{
    if k == 0 {
        assert(x.skip(0) =~= x);
        assert(x.take(0) + without_thinking(x) =~= without_thinking(x));
    } else {
        lemma_seen(x, k - 1);
        let rest = x.skip(k - 1);
        assert(!opening_tag().is_prefix_of(x.skip(k - 1)));
        assert(rest.skip(1) =~= x.skip(k));
        assert(x.take(k - 1) + (seq![rest[0]] + without_thinking(x.skip(k))) =~= x.take(k)
            + without_thinking(x.skip(k)));
    }
}

proof fn lemma_unseen(x: Seq<char>, k: int)
    requires
        0 <= k <= x.len(),
        forall|j: int| 0 <= j < k ==> !closing_tag().is_prefix_of(#[trigger] x.skip(j)),
    ensures
        behind_thinking(x) == behind_thinking(x.skip(k)),
    decreases k,
{
    if k == 0 {
        assert(x.skip(0) =~= x);
    } else {
        lemma_unseen(x, k - 1);
        assert(!closing_tag().is_prefix_of(x.skip(k - 1)));
        assert(x.skip(k - 1).skip(1) =~= x.skip(k));
    }
}

/// Nothing that was held back, and is no longer, begins a tag.
proof fn lemma_no_tag_yet(at: Thinking, c: char, rest: Seq<char>, k: int)
    requires
        holds_tag(at),
        !at.held.push(c).is_prefix_of(next_tag(at.inside)),
        k == if c == '<' {
            at.held.len() as int
        } else {
            at.held.len() as int + 1
        },
    ensures
        forall|j: int|
            0 <= j < k ==> !next_tag(at.inside).is_prefix_of(
                #[trigger] (at.held.push(c) + rest).skip(j),
            ),
{
    let tag = next_tag(at.inside);
    let tried = at.held.push(c);
    let x = tried + rest;
    assert forall|j: int| 0 <= j < k implies !tag.is_prefix_of(#[trigger] x.skip(j)) by {
        if tag.is_prefix_of(x.skip(j)) {
            assert(x.skip(j).subrange(0, tag.len() as int) == tag);
            assert(x.skip(j).subrange(0, tag.len() as int)[0] == x[j]);
            if j == 0 {
                assert(tried =~= tag.subrange(0, tried.len() as int)) by {
                    assert forall|i: int| 0 <= i < tried.len() implies tried[i] == tag[i] by {
                        assert(x.skip(0).subrange(0, tag.len() as int)[i] == x[i]);
                    }
                }
            } else if j < at.held.len() {
                assert(at.held[j] == tag[j]) by {
                    assert(at.held =~= tag.subrange(0, at.held.len() as int));
                }
            }
        }
    }
}

proof fn lemma_short(s: Seq<char>)
    ensures
        s.len() < 7 ==> without_thinking(s) == s,
        s.len() < 8 ==> behind_thinking(s) == Seq::<char>::empty(),
    decreases s.len(),
{
    if s.len() > 0 {
        lemma_short(s.skip(1));
        if s.len() < 7 {
            assert(seq![s[0]] + s.skip(1) =~= s);
        }
    } else {
        assert(s =~= Seq::empty());
    }
}

proof fn lemma_filtered(f: Filtered, s: Seq<char>)
    requires
        holds_tag(f.at),
    ensures
        holds_tag(filter_on(f, s).at),
        filter_on(f, s).text + settled_text(filter_on(f, s).at) == f.text + if f.at.inside {
            behind_thinking(f.at.held + s)
        } else {
            without_thinking(f.at.held + s)
        },
    decreases s.len(),
{
    let x = f.at.held + s;
    let tag = next_tag(f.at.inside);
    if s.len() == 0 {
        assert(x =~= f.at.held);
        lemma_short(x);
    } else {
        let c = s[0];
        let rest = s.skip(1);
        let tried = f.at.held.push(c);
        let next = filter_step(f, c);
        lemma_filter_front(f, s);
        assert(x =~= tried + rest);
        if tried == tag {
            assert(tag.is_prefix_of(x)) by {
                assert(x.subrange(0, tag.len() as int) =~= tag);
            }
            assert(x.skip(tag.len() as int) =~= rest);
            assert(next.at.held + rest =~= rest);
            lemma_filtered(next, rest);
        } else if tried.is_prefix_of(tag) {
            assert(tried.len() < tag.len()) by {
                if tried.len() == tag.len() {
                    assert(tag.subrange(0, tag.len() as int) =~= tag);
                }
            }
            lemma_filtered(next, rest);
        } else {
            let k = if c == '<' {
                f.at.held.len() as int
            } else {
                f.at.held.len() as int + 1
            };
            lemma_no_tag_yet(f.at, c, rest, k);
            assert(x.skip(k) =~= next.at.held + rest);
            assert(next.at.held.is_prefix_of(tag)) by {
                assert(next.at.held =~= tag.subrange(0, next.at.held.len() as int));
            }
            lemma_filtered(next, rest);
            if f.at.inside {
                lemma_unseen(x, k);
            } else {
                lemma_seen(x, k);
                assert(f.text + x.take(k) =~= next.text);
                assert(f.text + (x.take(k) + without_thinking(x.skip(k))) =~= next.text
                    + without_thinking(x.skip(k)));
            }
        }
    }
}

/// What is seen of a text, as it arrives and at its end, is the text without its tagged parts.
pub proof fn filtering_takes_thinking_out(s: Seq<char>)
    ensures
        filtered(unfiltered(), s).text + settled_text(filtered(unfiltered(), s).at)
            == without_thinking(s),
        holds_tag(filtered(unfiltered(), s).at),
{
    let f = Filtered { at: unfiltered(), text: Seq::empty() };
    assert(f.at.held =~= opening_tag().subrange(0, 0));
    lemma_filtered(f, s);
    assert(f.at.held + s =~= s);
    assert(f.text + without_thinking(s) =~= without_thinking(s));
}

/// A filter for a text that arrives in parts.
#[derive(Debug)]
pub struct ThinkFilter {
    inside: bool,
    held: Vec<char>,
}

impl View for ThinkFilter {
    type V = Thinking;

    closed spec fn view(&self) -> Thinking {
        Thinking { inside: self.inside, held: self.held@ }
    }
}

fn tag_of(inside: bool) -> (r: Vec<char>)
    ensures
        r@ == next_tag(inside),
{
    proof {
        reveal_strlit("</think>");
        reveal_strlit("<think>");
    }
    if inside {
        let tag = chars_of("</think>");
        assert(tag@ =~= closing_tag());
        tag
    } else {
        let tag = chars_of("<think>");
        assert(tag@ =~= opening_tag());
        tag
    }
}

impl ThinkFilter {
    /// The invariant of a filter: what is held back is a part of a tag.
    pub closed spec fn wf(&self) -> bool {
        holds_tag(self@)
    }

    /// A filter before any text.
    pub fn new() -> (r: ThinkFilter)
        ensures
            r.wf(),
            r@ == unfiltered(),
    {
        let filter = ThinkFilter { inside: false, held: Vec::new() };
        assert(filter@.held =~= Seq::empty());
        assert(filter@.held =~= opening_tag().subrange(0, 0));
        filter
    }

    fn step(&mut self, c: char, text: &mut String)
        requires
            old(self).wf(),
        ensures
            final(self).wf(),
            (Filtered { at: final(self)@, text: final(text)@ }) == filter_step(
                Filtered { at: old(self)@, text: old(text)@ },
                c,
            ),
    {
        let tag = tag_of(self.inside);
        let n = self.held.len();
        let ghost f = Filtered { at: self@, text: text@ };
        let ghost held = self.held@;
        let ghost tried = held.push(c);
        assert(held =~= tag@.subrange(0, n as int));
        assert(opening_tag().subrange(0, 0) =~= Seq::empty());
        assert(closing_tag().subrange(0, 0) =~= Seq::empty());
        if tag[n] == c {
            assert(tried =~= tag@.subrange(0, n + 1));
            if n + 1 == tag.len() {
                assert(tried =~= tag@);
                self.inside = !self.inside;
                self.held = Vec::new();
                assert(self@.held =~= Seq::empty());
            } else {
                assert(tried.len() != tag@.len());
                self.held.push(c);
            }
        } else {
            assert(!tried.is_prefix_of(tag@)) by {
                assert(tried[n as int] == c);
                if tried.is_prefix_of(tag@) {
                    assert(tag@.subrange(0, n + 1)[n as int] == tag@[n as int]);
                }
            }
            assert(tried != tag@) by {
                assert(tried[n as int] == c);
            }
            if !self.inside {
                assert(held.subrange(0, n as int) =~= held);
                text.append(string_of(&self.held, 0, n).as_str());
                if c != '<' {
                    text.push(c);
                }
            }
            self.held = Vec::new();
            if c == '<' {
                self.held.push(c);
                assert(self@.held =~= seq!['<']);
                assert(self@.held =~= tag@.subrange(0, 1));
            } else {
                assert(self@.held =~= Seq::empty());
            }
            assert(text@ =~= filter_step(f, c).text);
        }
    }

    /// Takes some more text, and returns what is to be seen of it.
    pub fn filter(&mut self, s: &str) -> (r: String)
        requires
            old(self).wf(),
        ensures
            final(self).wf(),
            final(self)@ == filtered(old(self)@, s@).at,
            r@ == filtered(old(self)@, s@).text,
    {
        let chars = chars_of(s);
        let mut text = String::new();
        let ghost first = Filtered { at: self@, text: Seq::empty() };
        let mut i: usize = 0;
        while i < chars.len()
            invariant
                i <= chars@.len(),
                self.wf(),
                (Filtered { at: self@, text: text@ }) == filter_on(first, chars@.take(i as int)),
            decreases chars@.len() - i,
        {
            assert(chars@.take(i + 1).drop_last() =~= chars@.take(i as int));
            self.step(chars[i], &mut text);
            i += 1;
        }
        assert(chars@.take(i as int) =~= chars@);
        text
    }

    /// What is to be seen of what was held back, where the text ends here.
    pub fn settle(&self) -> (r: String)
        ensures
            r@ == settled_text(self@),
    {
        if self.inside {
            String::new()
        } else {
            assert(self.held@.subrange(0, self.held@.len() as int) =~= self.held@);
            string_of(&self.held, 0, self.held.len())
        }
    }
}

} // verus!
