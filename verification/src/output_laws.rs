//! Where the outputs of calls go in a chat.

use vstd::prelude::*;
use crate::chat_messages::{
    after_item, after_items, after_output, answered, call_arguments, call_message, chat_messages,
    drawn_for, ids_needed, is_answered, is_call, is_call_of, is_called, is_taken, lemma_places_fit,
    named_call, no_turns, opt_output_text, outputs_by_call, places_fit, resolved, tool_message,
    without_call, Turns, Unanswered,
};
use crate::item_laws::text_at;
use crate::json::{either, JsonV};
use crate::keys::lemma_keys_differ;
use crate::machine::is_call_id;
use crate::message_laws::{
    answers_call, callings, calls_for, kind_told, lemma_call_message, lemma_readings,
    lemma_told_output, lemma_tool_message, makes_call, names, told_output, unnamed_calls, Calling,
};
use crate::text_laws::{blank_is_white, is_white};

verus! {

broadcast use crate::json::group_members;

/// Whether an item is an output that tells an identifier.
pub open spec fn is_output_for(item: JsonV, id: Seq<char>) -> bool {
    (kind_told(item) == "function_call_output"@ || kind_told(item) == "custom_tool_call_output"@)
        && item.str_at("call_id"@) == Some(id)
}

/// Whether one of the items is an output that tells an identifier.
pub open spec fn has_output_for(items: Seq<JsonV>, id: Seq<char>) -> bool {
    exists|j: int| 0 <= j < items.len() && is_output_for(#[trigger] items[j], id)
}

/// Whether the item at a place is the last output that tells an identifier.
pub open spec fn is_last_output_for(items: Seq<JsonV>, id: Seq<char>, j: int) -> bool {
    &&& 0 <= j < items.len()
    &&& is_output_for(items[j], id)
    &&& forall|i: int| j < i < items.len() ==> !is_output_for(#[trigger] items[i], id)
}

/// Whether one of the items calls a tool and names an identifier.
pub open spec fn has_call_for(items: Seq<JsonV>, id: Seq<char>) -> bool {
    exists|k: int|
        0 <= k < items.len() && makes_call(#[trigger] items[k]) && names(items[k]) == Some(id)
}

/// Whether one of the messages has an output of a call, with a text.
pub open spec fn has_answer(messages: Seq<JsonV>, id: Seq<char>, text: Seq<char>) -> bool {
    exists|p: int| 0 <= p < messages.len() && answers_call(#[trigger] messages[p], id, text)
}

/// A call stands at a place among the messages, and its output stands behind it.
pub open spec fn is_answered_at(
    messages: Seq<JsonV>,
    p: int,
    calling: Calling,
    text: Seq<char>,
) -> bool {
    &&& 0 <= p < messages.len() - 1
    &&& calls_for(messages[p], calling)
    &&& answers_call(messages[p + 1], calling.id, text)
}

/// A call stands somewhere among the messages, and its output stands behind it.
pub open spec fn has_answered_call(
    messages: Seq<JsonV>,
    calling: Calling,
    text: Seq<char>,
) -> bool {
    exists|p: int| #[trigger] is_answered_at(messages, p, calling, text)
}

proof fn lemma_outputs(items: Seq<JsonV>, id: Seq<char>)
    requires
        id.len() > 0,
    ensures
        outputs_by_call(items).contains_key(id) <==> has_output_for(items, id),
        outputs_by_call(items).contains_key(id) ==> is_last_output_for(
            items,
            id,
            outputs_by_call(items)[id] as int,
        ),
    decreases items.len(),
{
    reveal_strlit("");
    assert(""@.len() == 0);
    if items.len() > 0 {
        let shorter = items.drop_last();
        let n = items.len() - 1;
        lemma_outputs(shorter, id);
        lemma_readings(items[n]);
        if is_output_for(items[n], id) {
            assert(outputs_by_call(items)[id] == n);
        } else {
            assert(outputs_by_call(items).contains_key(id) == outputs_by_call(
                shorter,
            ).contains_key(id));
            if has_output_for(shorter, id) {
                let j = choose|j: int| 0 <= j < shorter.len() && is_output_for(
                    #[trigger] shorter[j],
                    id,
                );
                assert(is_output_for(items[j], id));
                let last = outputs_by_call(items)[id] as int;
                assert(shorter[last] == items[last]);
                assert forall|i: int| last < i < items.len() implies !is_output_for(
                    #[trigger] items[i],
                    id,
                ) by {
                    if i < n {
                        assert(shorter[i] == items[i]);
                    }
                }
            }
            if has_output_for(items, id) {
                let j = choose|j: int| 0 <= j < items.len() && is_output_for(
                    #[trigger] items[j],
                    id,
                );
                assert(is_output_for(shorter[j], id));
            }
        }
    }
}

proof fn lemma_called(items: Seq<JsonV>, id: Seq<char>)
    ensures
        is_called(items, id) <==> has_call_for(items, id),
{
    if is_called(items, id) {
        let k = choose|k: int| 0 <= k < items.len() && is_call_of(#[trigger] items[k], id);
        lemma_readings(items[k]);
        assert(makes_call(items[k]) && names(items[k]) == Some(id));
    }
    if has_call_for(items, id) {
        let k = choose|k: int|
            0 <= k < items.len() && makes_call(#[trigger] items[k]) && names(items[k]) == Some(id);
        lemma_readings(items[k]);
        assert(is_call_of(items[k], id));
    }
}

/// One state of the conversion goes on from another: nothing is taken from the messages.
spec fn goes_on(t: Turns, next: Turns) -> bool {
    &&& t.messages.len() <= next.messages.len()
    &&& forall|i: int|
        0 <= i < t.messages.len() ==> #[trigger] next.messages[i] == t.messages[i]
}

proof fn lemma_item_goes_on(items: Seq<JsonV>, t: Turns, k: int, fresh: Seq<Seq<char>>)
    ensures
        after_item(items, t, k, fresh) matches Some(next) ==> goes_on(t, next),
{
}

proof fn lemma_items_go_on(items: Seq<JsonV>, m: nat, n: nat, fresh: Seq<Seq<char>>)
    requires
        m <= n <= items.len(),
    ensures
        after_items(items, n, fresh) matches Some(next) ==> after_items(
            items,
            m,
            fresh,
        ) matches Some(t) && goes_on(t, next),
    decreases n,
{
    if m < n {
        lemma_items_go_on(items, m, (n - 1) as nat, fresh);
        if let Some(t) = after_items(items, (n - 1) as nat, fresh) {
            lemma_item_goes_on(items, t, n - 1, fresh);
        }
    }
}

proof fn lemma_answer_stays(messages: Seq<JsonV>, list: Seq<Unanswered>, id: Seq<char>, text: Seq<char>)
    requires
        places_fit(list, messages.len()),
        has_answer(messages, id, text),
    ensures
        has_answer(answered(messages, list), id, text),
    decreases list.len(),
{
    if list.len() > 0 {
        let call = list.last();
        let place = call.place as int;
        assert(list[list.len() - 1].place <= messages.len());
        let more = messages.insert(place, tool_message(call.id, Seq::empty()));
        let p = choose|p: int| 0 <= p < messages.len() && answers_call(#[trigger] messages[p], id, text);
        if p < place {
            assert(more[p] == messages[p]);
        } else {
            assert(more[p + 1] == messages[p]);
        }
        assert(has_answer(more, id, text));
        lemma_answer_stays(more, list.drop_last(), id, text);
    }
}

proof fn lemma_answer_arrives(
    items: Seq<JsonV>,
    k: int,
    fresh: Seq<Seq<char>>,
    id: Seq<char>,
    text: Seq<char>,
)
    requires
        0 <= k < items.len(),
        after_items(items, (k + 1) as nat, fresh) matches Some(t) ==> has_answer(
            t.messages,
            id,
            text,
        ),
    ensures
        chat_messages(items, fresh) matches Some(messages) ==> has_answer(messages, id, text),
{
    let n = items.len();
    lemma_items_go_on(items, (k + 1) as nat, n, fresh);
    lemma_places_fit(items, n, fresh);
    if let Some(next) = after_items(items, n, fresh) {
        let t = after_items(items, (k + 1) as nat, fresh)->Some_0;
        let p = choose|p: int|
            0 <= p < t.messages.len() && answers_call(#[trigger] t.messages[p], id, text);
        assert(next.messages[p] == t.messages[p]);
        assert(has_answer(next.messages, id, text));
        lemma_answer_stays(next.messages, next.unanswered, id, text);
    }
}

proof fn lemma_pushed_answer(t: Turns, item: JsonV, id: Seq<char>, text: Seq<char>)
    requires
        named_call(item) == Some(id),
    ensures
        after_output(t, item, text) matches Some(next) && has_answer(next.messages, id, text),
{
    lemma_tool_message(id, text);
    let next = after_output(t, item, text)->Some_0;
    assert(next.messages[t.messages.len() as int] == tool_message(id, text));
}

proof fn lemma_call_takes_output(
    items: Seq<JsonV>,
    k: int,
    t: Turns,
    fresh: Seq<Seq<char>>,
    id: Seq<char>,
    j: int,
)
    requires
        0 <= k < items.len(),
        makes_call(items[k]),
        names(items[k]) == Some(id),
        is_last_output_for(items, id, j),
    ensures
        after_item(items, t, k, fresh) matches Some(next) && {
            &&& next.messages.len() == t.messages.len() + 2
            &&& goes_on(t, next)
            &&& is_answered_at(
                next.messages,
                t.messages.len() as int,
                Calling { item: items[k], id },
                told_output(items[j].get("output"@)),
            )
            &&& next.unanswered == without_call(t.unanswered, id)
        },
{
    lemma_keys_differ();
    let item = items[k];
    lemma_readings(item);
    lemma_readings(items[j]);
    blank_is_white(id);
    assert(!is_white(id));
    if id.len() == 0 {
        assert(is_white(id));
    }
    lemma_outputs(items, id);
    assert(has_output_for(items, id));
    let last = outputs_by_call(items)[id] as int;
    assert(last == j) by {
        if last < j {
            assert(!is_output_for(items[j], id));
        }
        if j < last {
            assert(!is_output_for(items[last], id));
        }
    }
    let text = told_output(items[j].get("output"@));
    lemma_told_output(items[j].get("output"@));
    lemma_call_message(item, id);
    lemma_tool_message(id, text);
    let message = call_message(id, item.str_or("name"@, ""@), call_arguments(item));
    let next = after_item(items, t, k, fresh)->Some_0;
    assert(named_call(items[j]) == Some(id));
    assert(next.messages == t.messages.push(message).push(tool_message(id, text)));
}

spec fn is_sorted(list: Seq<Unanswered>) -> bool {
    forall|i: int, j: int|
        0 <= i <= j < list.len() ==> (#[trigger] list[i]).place <= (#[trigger] list[j]).place
}

spec fn avoids(list: Seq<Unanswered>, p: int) -> bool {
    forall|i: int| 0 <= i < list.len() ==> (#[trigger] list[i]).place != p
}

proof fn lemma_without_within(list: Seq<Unanswered>, id: Seq<char>)
    ensures
        forall|i: int|
            0 <= i < without_call(list, id).len() ==> exists|j: int|
                0 <= j < list.len() && list[j] == #[trigger] without_call(list, id)[i],
        is_sorted(list) ==> is_sorted(without_call(list, id)),
    decreases list.len(),
{
    if list.len() > 0 {
        let shorter = list.drop_last();
        let rest = without_call(shorter, id);
        let all = without_call(list, id);
        lemma_without_within(shorter, id);
        assert forall|i: int| 0 <= i < all.len() implies exists|j: int|
            0 <= j < list.len() && list[j] == #[trigger] all[i] by {
            if i < rest.len() {
                let j = choose|j: int| 0 <= j < shorter.len() && shorter[j] == rest[i];
                assert(list[j] == all[i]);
            } else {
                assert(list[list.len() - 1] == all[i]);
            }
        }
        if is_sorted(list) {
            assert(is_sorted(shorter)) by {
                assert forall|i: int, j: int| 0 <= i <= j < shorter.len() implies (
                #[trigger] shorter[i]).place <= (#[trigger] shorter[j]).place by {
                    assert(list[i].place <= list[j].place);
                }
            }
            assert forall|i: int, j: int| 0 <= i <= j < all.len() implies (
            #[trigger] all[i]).place <= (#[trigger] all[j]).place by {
                if j < rest.len() {
                    assert(rest[i].place <= rest[j].place);
                } else if i < rest.len() {
                    let h = choose|h: int| 0 <= h < shorter.len() && shorter[h] == rest[i];
                    assert(list[h].place <= list[list.len() - 1].place);
                }
            }
        }
    }
}

proof fn lemma_without_avoids(list: Seq<Unanswered>, id: Seq<char>, p: int)
    requires
        avoids(list, p),
    ensures
        avoids(without_call(list, id), p),
{
    let all = without_call(list, id);
    lemma_without_within(list, id);
    assert forall|i: int| 0 <= i < all.len() implies (#[trigger] all[i]).place != p by {
        let j = choose|j: int| 0 <= j < list.len() && list[j] == all[i];
        assert(list[j].place != p);
    }
}

proof fn lemma_sorted(items: Seq<JsonV>, n: nat, fresh: Seq<Seq<char>>)
    ensures
        after_items(items, n, fresh) matches Some(t) ==> is_sorted(t.unanswered),
    decreases n,
{
    if n > 0 {
        lemma_sorted(items, (n - 1) as nat, fresh);
        lemma_places_fit(items, (n - 1) as nat, fresh);
        if let Some(t) = after_items(items, (n - 1) as nat, fresh) {
            assert forall|id: Seq<char>| is_sorted(#[trigger] without_call(t.unanswered, id)) by {
                lemma_without_within(t.unanswered, id);
            }
        }
    }
}

proof fn lemma_item_avoids(items: Seq<JsonV>, t: Turns, k: int, fresh: Seq<Seq<char>>, p: int)
    requires
        avoids(t.unanswered, p),
        p <= t.messages.len(),
    ensures
        after_item(items, t, k, fresh) matches Some(next) ==> avoids(next.unanswered, p),
{
    assert forall|id: Seq<char>| avoids(#[trigger] without_call(t.unanswered, id), p) by {
        lemma_without_avoids(t.unanswered, id, p);
    }
}

proof fn lemma_items_avoid(items: Seq<JsonV>, m: nat, n: nat, fresh: Seq<Seq<char>>, p: int)
    requires
        m <= n <= items.len(),
        after_items(items, m, fresh) matches Some(t) ==> avoids(t.unanswered, p) && p
            <= t.messages.len(),
    ensures
        after_items(items, n, fresh) matches Some(next) ==> avoids(next.unanswered, p),
    decreases n,
{
    if m < n {
        lemma_items_avoid(items, m, (n - 1) as nat, fresh, p);
        lemma_items_go_on(items, m, (n - 1) as nat, fresh);
        if let Some(t) = after_items(items, (n - 1) as nat, fresh) {
            lemma_item_avoids(items, t, n - 1, fresh, p);
        }
    }
}

proof fn lemma_pair_stays(
    messages: Seq<JsonV>,
    list: Seq<Unanswered>,
    p: int,
    calling: Calling,
    text: Seq<char>,
)
    requires
        places_fit(list, messages.len()),
        is_sorted(list),
        avoids(list, p + 1),
        is_answered_at(messages, p, calling, text),
    ensures
        has_answered_call(answered(messages, list), calling, text),
    decreases list.len(),
{
    if list.len() > 0 {
        let n = list.len() - 1;
        let call = list.last();
        let shorter = list.drop_last();
        let place = call.place as int;
        assert(list[n].place <= messages.len() && list[n].place != p + 1);
        let more = messages.insert(place, tool_message(call.id, Seq::empty()));
        assert forall|i: int| 0 <= i < shorter.len() implies (#[trigger] shorter[i]).place
            <= call.place && shorter[i].place != p + 1 by {
            assert(list[i].place <= list[n].place);
        }
        assert(is_sorted(shorter)) by {
            assert forall|i: int, j: int| 0 <= i <= j < shorter.len() implies (
            #[trigger] shorter[i]).place <= (#[trigger] shorter[j]).place by {
                assert(list[i].place <= list[j].place);
            }
        }
        if place <= p {
            assert(more[p + 1] == messages[p]);
            assert(more[p + 2] == messages[p + 1]);
            assert(is_answered_at(more, p + 1, calling, text));
            assert(avoids(shorter, p + 2));
            lemma_pair_stays(more, shorter, p + 1, calling, text);
        } else {
            assert(more[p] == messages[p]);
            assert(more[p + 1] == messages[p + 1]);
            assert(is_answered_at(more, p, calling, text));
            lemma_pair_stays(more, shorter, p, calling, text);
        }
        assert(answered(messages, list) == answered(more, shorter));
    } else {
        assert(is_answered_at(answered(messages, list), p, calling, text));
    }
}

/// The output of a call stands behind the call, wherever it stands among the items: the last output
/// that names the call, under the same identifier and with its whole text.
pub proof fn outputs_stand_behind_their_calls(
    items: Seq<JsonV>,
    k: int,
    j: int,
    fresh: Seq<Seq<char>>,
    id: Seq<char>,
)
    requires
        0 <= k < items.len(),
        makes_call(items[k]),
        names(items[k]) == Some(id),
        is_last_output_for(items, id, j),
    ensures
        chat_messages(items, fresh) matches Some(messages) ==> has_answered_call(
            messages,
            Calling { item: items[k], id },
            told_output(items[j].get("output"@)),
        ),
{
    let n = items.len();
    let calling = Calling { item: items[k], id };
    let text = told_output(items[j].get("output"@));
    lemma_items_go_on(items, k as nat, n, fresh);
    lemma_items_go_on(items, (k + 1) as nat, n, fresh);
    lemma_places_fit(items, k as nat, fresh);
    lemma_places_fit(items, n, fresh);
    lemma_sorted(items, n, fresh);
    if let Some(last) = after_items(items, n, fresh) {
        let t = after_items(items, k as nat, fresh)->Some_0;
        let next = after_items(items, (k + 1) as nat, fresh)->Some_0;
        let p = t.messages.len() as int;
        lemma_call_takes_output(items, k, t, fresh, id, j);
        assert(after_items(items, (k + 1) as nat, fresh) == after_item(items, t, k, fresh));
        assert(avoids(t.unanswered, p + 1));
        lemma_without_avoids(t.unanswered, id, p + 1);
        lemma_items_avoid(items, (k + 1) as nat, n, fresh, p + 1);
        assert(last.messages[p] == next.messages[p]);
        assert(last.messages[p + 1] == next.messages[p + 1]);
        assert(is_answered_at(last.messages, p, calling, text));
        lemma_pair_stays(last.messages, last.unanswered, p, calling, text);
    }
}

/// No output is lost: each one that names a call is the output of that call in the chat, with its
/// whole text.
pub proof fn every_output_is_in_the_chat(
    items: Seq<JsonV>,
    j: int,
    fresh: Seq<Seq<char>>,
    id: Seq<char>,
)
    requires
        0 <= j < items.len(),
        is_output_for(items[j], id),
        !is_white(id),
    ensures
        chat_messages(items, fresh) matches Some(messages) ==> has_answer(
            messages,
            id,
            told_output(items[j].get("output"@)),
        ),
{
    lemma_keys_differ();
    let item = items[j];
    let text = told_output(item.get("output"@));
    lemma_readings(item);
    lemma_told_output(item.get("output"@));
    if id.len() == 0 {
        assert(is_white(id));
    }
    lemma_outputs(items, id);
    lemma_called(items, id);
    blank_is_white(id);
    assert(item.str_or("call_id"@, ""@) == id);
    if kind_told(item) == "function_call_output"@ && is_taken(items, j) {
        let k = choose|k: int|
            0 <= k < items.len() && makes_call(#[trigger] items[k]) && names(items[k]) == Some(id);
        if let Some(t) = after_items(items, k as nat, fresh) {
            lemma_call_takes_output(items, k, t, fresh, id, j);
            let next = after_item(items, t, k, fresh)->Some_0;
            assert(answers_call(next.messages[t.messages.len() as int + 1], id, text));
        }
        lemma_answer_arrives(items, k, fresh, id, text);
    } else {
        if let Some(t) = after_items(items, j as nat, fresh) {
            lemma_pushed_answer(t, item, id, text);
        }
        lemma_answer_arrives(items, j, fresh, id, text);
    }
}

/// No result of a tool is lost either, unless its call has an output besides: the result is the
/// output of the call that it names.
pub proof fn every_result_is_in_the_chat(
    items: Seq<JsonV>,
    j: int,
    fresh: Seq<Seq<char>>,
    id: Seq<char>,
)
    requires
        0 <= j < items.len(),
        kind_told(items[j]) == "tool_result"@,
        names(items[j]) == Some(id),
        !(has_output_for(items, id) && has_call_for(items, id)),
    ensures
        chat_messages(items, fresh) matches Some(messages) ==> has_answer(
            messages,
            id,
            told_output(
                match items[j].get("output"@) {
                    Some(output) => Some(output),
                    None => items[j].get("result"@),
                },
            ),
        ),
{
    lemma_keys_differ();
    let item = items[j];
    let output = either(item.get("output"@), item.get("result"@));
    let text = told_output(output);
    lemma_readings(item);
    lemma_told_output(output);
    if id.len() == 0 {
        assert(is_white(id));
    }
    lemma_outputs(items, id);
    lemma_called(items, id);
    blank_is_white(id);
    assert(item.str_or("call_id"@, ""@) == id);
    if let Some(t) = after_items(items, j as nat, fresh) {
        lemma_pushed_answer(t, item, id, text);
    }
    lemma_answer_arrives(items, j, fresh, id, text);
}

/// The output of a function stands in the chat once: where it stands behind its call, it does not
/// stand in its own place as well.
pub proof fn outputs_are_not_repeated(
    items: Seq<JsonV>,
    j: int,
    t: Turns,
    fresh: Seq<Seq<char>>,
    id: Seq<char>,
)
    requires
        kind_told(items[j]) == "function_call_output"@,
        is_last_output_for(items, id, j),
        !is_white(id),
        has_call_for(items, id),
    ensures
        after_item(items, t, j, fresh) == Some(t),
{
    lemma_keys_differ();
    lemma_readings(items[j]);
    if id.len() == 0 {
        assert(is_white(id));
    }
    lemma_outputs(items, id);
    lemma_called(items, id);
    assert(has_output_for(items, id));
    let last = outputs_by_call(items)[id] as int;
    assert(last == j) by {
        if last < j {
            assert(!is_output_for(items[j], id));
        }
        if j < last {
            assert(!is_output_for(items[last], id));
        }
    }
    assert(items[j].str_or("call_id"@, ""@) == id);
    assert(is_taken(items, j));
}

/// A result of a tool adds nothing where its call has an output.
pub proof fn answered_results_are_not_repeated(
    items: Seq<JsonV>,
    j: int,
    t: Turns,
    fresh: Seq<Seq<char>>,
    id: Seq<char>,
)
    requires
        0 <= j < items.len(),
        kind_told(items[j]) == "tool_result"@,
        names(items[j]) == Some(id),
        has_output_for(items, id),
        has_call_for(items, id),
    ensures
        after_item(items, t, j, fresh) == Some(t),
{
    lemma_keys_differ();
    lemma_readings(items[j]);
    if id.len() == 0 {
        assert(is_white(id));
    }
    lemma_outputs(items, id);
    lemma_called(items, id);
    assert(items[j].str_or("call_id"@, ""@) == id);
}

/// Whether an item has an output with a text: the output of a function or of a custom tool, or the
/// result of a tool.
pub open spec fn has_text_out(item: JsonV, text: Seq<char>) -> bool {
    let kind = kind_told(item);
    ||| (kind == "function_call_output"@ || kind == "custom_tool_call_output"@) && text
        == told_output(item.get("output"@))
    ||| kind == "tool_result"@ && text == told_output(
        match item.get("output"@) {
            Some(output) => Some(output),
            None => item.get("result"@),
        },
    )
}

/// Whether a message is no output, or has the output of one of the items, or is the empty output that
/// stands in for a missing one.
pub open spec fn has_its_output_from(message: JsonV, items: Seq<JsonV>) -> bool {
    message.get("tool_call_id"@) is Some ==> exists|id: Seq<char>, text: Seq<char>| #[trigger]
        answers_call(message, id, text) && (text.len() == 0 || is_told_by(items, text))
}

/// Whether one of the items has an output with a text.
pub open spec fn is_told_by(items: Seq<JsonV>, text: Seq<char>) -> bool {
    exists|j: int| 0 <= j < items.len() && has_text_out(#[trigger] items[j], text)
}

spec fn all_from(messages: Seq<JsonV>, items: Seq<JsonV>) -> bool {
    forall|p: int|
        0 <= p < messages.len() ==> has_its_output_from(#[trigger] messages[p], items)
}

proof fn lemma_from_item(t: Turns, item: JsonV, text: Seq<char>, items: Seq<JsonV>)
    requires
        all_from(t.messages, items),
        is_told_by(items, text),
    ensures
        after_output(t, item, text) matches Some(next) ==> all_from(next.messages, items),
{
    if let Some((id, pending)) = resolved(item, t.pending) {
        let next = after_output(t, item, text)->Some_0;
        lemma_tool_message(id, text);
        assert forall|p: int| 0 <= p < next.messages.len() implies has_its_output_from(
            #[trigger] next.messages[p],
            items,
        ) by {
            if p < t.messages.len() {
                assert(next.messages[p] == t.messages[p]);
            }
        }
    }
}

proof fn lemma_item_from(items: Seq<JsonV>, t: Turns, k: int, fresh: Seq<Seq<char>>)
    requires
        0 <= k < items.len(),
        all_from(t.messages, items),
    ensures
        after_item(items, t, k, fresh) matches Some(next) ==> all_from(next.messages, items),
{
    lemma_keys_differ();
    let item = items[k];
    lemma_readings(item);
    if is_call(item) {
        let id = crate::json::or_default(named_call(item), fresh[t.used as int]);
        let message = call_message(id, item.str_or("name"@, ""@), call_arguments(item));
        assert(message.get("tool_call_id"@) is None);
        assert(has_its_output_from(message, items));
        let called = Turns { messages: t.messages.push(message), ..t };
        assert forall|p: int| 0 <= p < called.messages.len() implies has_its_output_from(
            #[trigger] called.messages[p],
            items,
        ) by {
            if p < t.messages.len() {
                assert(called.messages[p] == t.messages[p]);
            }
        }
        let sent = Turns {
            used: if crate::chat_messages::needs_id(item) {
                t.used + 1
            } else {
                t.used
            },
            ..called
        };
        crate::chat_messages::lemma_outputs_stand(items, id);
        if outputs_by_call(items).contains_key(id) {
            let j = outputs_by_call(items)[id] as int;
            lemma_readings(items[j]);
            lemma_told_output(items[j].get("output"@));
            assert(has_text_out(items[j], opt_output_text(items[j].get("output"@))));
            lemma_from_item(sent, items[j], opt_output_text(items[j].get("output"@)), items);
        }
        crate::chat_messages::lemma_message_is_no_call(item);
    } else if kind_told(item) == "message"@ {
        let message = crate::chat_messages::text_message(
            crate::chat_messages::chat_role(item),
            crate::chat_messages::message_text(item),
        );
        assert(message.get("tool_call_id"@) is None);
        if let Some(next) = after_item(items, t, k, fresh) {
            assert forall|p: int| 0 <= p < next.messages.len() implies has_its_output_from(
                #[trigger] next.messages[p],
                items,
            ) by {
                if p < t.messages.len() {
                    assert(next.messages[p] == t.messages[p]);
                }
            }
        }
    } else if kind_told(item) == "tool_result"@ {
        let output = either(item.get("output"@), item.get("result"@));
        lemma_told_output(output);
        assert(has_text_out(items[k], opt_output_text(output)));
        lemma_from_item(t, item, opt_output_text(output), items);
    } else if kind_told(item) == "function_call_output"@ || kind_told(item)
        == "custom_tool_call_output"@ {
        let output = item.get("output"@);
        lemma_told_output(output);
        assert(has_text_out(items[k], opt_output_text(output)));
        lemma_from_item(t, item, opt_output_text(output), items);
    }
}

proof fn lemma_items_from(items: Seq<JsonV>, n: nat, fresh: Seq<Seq<char>>)
    requires
        n <= items.len(),
    ensures
        after_items(items, n, fresh) matches Some(t) ==> all_from(t.messages, items),
    decreases n,
{
    if n > 0 {
        lemma_items_from(items, (n - 1) as nat, fresh);
        if let Some(t) = after_items(items, (n - 1) as nat, fresh) {
            lemma_item_from(items, t, n - 1, fresh);
        }
    }
}

proof fn lemma_answered_from(messages: Seq<JsonV>, list: Seq<Unanswered>, items: Seq<JsonV>)
    requires
        places_fit(list, messages.len()),
        all_from(messages, items),
    ensures
        all_from(answered(messages, list), items),
    decreases list.len(),
{
    if list.len() > 0 {
        let call = list.last();
        let place = call.place as int;
        assert(list[list.len() - 1].place <= messages.len());
        let more = messages.insert(place, tool_message(call.id, Seq::empty()));
        lemma_tool_message(call.id, Seq::empty());
        assert forall|p: int| 0 <= p < more.len() implies has_its_output_from(
            #[trigger] more[p],
            items,
        ) by {
            if p < place {
                assert(more[p] == messages[p]);
            } else if p > place {
                assert(more[p] == messages[p - 1]);
            }
        }
        lemma_answered_from(more, list.drop_last(), items);
    }
}

/// No output is made up: each one in the chat has the text of an output among the items, or is
/// empty.
pub proof fn outputs_come_from_the_items(items: Seq<JsonV>, fresh: Seq<Seq<char>>)
    ensures
        chat_messages(items, fresh) matches Some(messages) ==> forall|p: int|
            0 <= p < messages.len() ==> has_its_output_from(#[trigger] messages[p], items),
{
    lemma_items_from(items, items.len(), fresh);
    lemma_places_fit(items, items.len(), fresh);
    if let Some(t) = after_items(items, items.len(), fresh) {
        lemma_answered_from(t.messages, t.unanswered, items);
    }
}

/// Whether the output at a place belongs to the call that has been pending longest: it names no call.
/// A blank identifier names none, and an output of a function that has one is left out; so is a
/// result with a blank identifier that an output has as well.
pub open spec fn takes_the_longest(items: Seq<JsonV>, k: int) -> bool {
    let item = items[k];
    let kind = kind_told(item);
    names(item) is None && {
        ||| kind == "custom_tool_call_output"@
        ||| kind == "function_call_output"@ && text_at(item, "call_id"@).len() == 0
        ||| kind == "tool_result"@ && !(text_at(item, "call_id"@).len() > 0 && has_output_for(
            items,
            text_at(item, "call_id"@),
        ))
    }
}

/// How many of the first outputs belong to calls that were pending longest.
pub open spec fn taken_so_far(items: Seq<JsonV>, n: nat) -> nat
    decreases n,
{
    if n == 0 {
        0
    } else {
        taken_so_far(items, (n - 1) as nat) + if takes_the_longest(items, n - 1) {
            1nat
        } else {
            0nat
        }
    }
}

/// The identifiers of those of some calls that no output names.
pub open spec fn left_open(items: Seq<JsonV>, list: Seq<Calling>) -> Seq<Seq<char>>
    decreases list.len(),
{
    if list.len() == 0 {
        Seq::empty()
    } else if has_output_for(items, list.last().id) {
        left_open(items, list.drop_last())
    } else {
        left_open(items, list.drop_last()).push(list.last().id)
    }
}

/// The identifiers of those of the first calls that no output names, in order.
pub open spec fn opened_so_far(items: Seq<JsonV>, n: nat, fresh: Seq<Seq<char>>) -> Seq<Seq<char>> {
    left_open(items, callings(items.take(n as int), fresh))
}

/// There are enough fresh identifiers, and none of them is blank.
pub open spec fn are_fresh(items: Seq<JsonV>, fresh: Seq<Seq<char>>) -> bool {
    &&& unnamed_calls(items) <= fresh.len()
    &&& forall|i: int| 0 <= i < fresh.len() ==> !is_white(#[trigger] fresh[i])
}

proof fn lemma_ids_needed(items: Seq<JsonV>)
    ensures
        ids_needed(items) == unnamed_calls(items),
    decreases items.len(),
{
    if items.len() > 0 {
        lemma_ids_needed(items.drop_last());
        lemma_readings(items.last());
    }
}

/// Identifiers that were drawn for some items are enough for their calls, and none is blank.
pub proof fn drawn_identifiers_are_fresh(items: Seq<JsonV>, fresh: Seq<Seq<char>>)
    requires
        drawn_for(items, fresh),
    ensures
        are_fresh(items, fresh),
        fresh.len() == unnamed_calls(items),
{
    lemma_ids_needed(items);
    assert forall|i: int| 0 <= i < fresh.len() implies !is_white(#[trigger] fresh[i]) by {
        reveal_strlit("call_");
        assert(is_call_id(fresh[i]));
        let uuid = choose|uuid: Seq<char>|
            crate::machine::is_uuid(uuid) && fresh[i] == #[trigger] ("call_"@ + uuid);
        assert(fresh[i][0] == 'c');
    }
}

proof fn lemma_unnamed_prefix(items: Seq<JsonV>, n: int)
    requires
        0 <= n <= items.len(),
    ensures
        unnamed_calls(items.take(n)) <= unnamed_calls(items),
    decreases items.len(),
{
    if n < items.len() {
        lemma_unnamed_prefix(items.drop_last(), n);
        assert(items.drop_last().take(n) =~= items.take(n));
    } else {
        assert(items.take(n) =~= items);
    }
}

/// The state has the calls that are pending: those that no output names, but for those that have
/// been taken.
spec fn is_pending(items: Seq<JsonV>, n: nat, t: Turns, fresh: Seq<Seq<char>>) -> bool {
    &&& t.used == unnamed_calls(items.take(n as int))
    &&& taken_so_far(items, n) <= opened_so_far(items, n, fresh).len()
    &&& t.pending == opened_so_far(items, n, fresh).skip(taken_so_far(items, n) as int)
}

proof fn lemma_output_pending(t: Turns, item: JsonV, text: Seq<char>)
    ensures
        match named_call(item) {
            Some(_) => after_output(t, item, text) matches Some(next) && next.pending == t.pending
                && next.used == t.used,
            None => if t.pending.len() > 0 {
                after_output(t, item, text) matches Some(next) && next.pending
                    == t.pending.drop_first() && next.used == t.used && next.messages
                    == t.messages.push(tool_message(t.pending[0], text))
            } else {
                after_output(t, item, text) is None
            },
        },
{
}

proof fn lemma_call_pending(items: Seq<JsonV>, t: Turns, k: int, fresh: Seq<Seq<char>>)
    requires
        0 <= k < items.len(),
        are_fresh(items, fresh),
        is_call(items[k]),
        is_pending(items, k as nat, t, fresh),
    ensures
        after_item(items, t, k, fresh) matches Some(next) && is_pending(
            items,
            (k + 1) as nat,
            next,
            fresh,
        ),
{
    lemma_keys_differ();
    let item = items[k];
    let n = k as nat;
    let more = items.take(k + 1);
    assert(more.drop_last() =~= items.take(k));
    assert(more.last() == item);
    lemma_readings(item);
    lemma_unnamed_prefix(items, k + 1);
    let id = match names(item) {
        Some(id) => id,
        None => fresh[t.used as int],
    };
    assert(!is_white(id));
    if id.len() == 0 {
        assert(is_white(id));
    }
    blank_is_white(id);
    lemma_outputs(items, id);
    let list = callings(items.take(k), fresh);
    let calling = Calling { item, id };
    assert(callings(more, fresh) == list.push(calling));
    assert(list.push(calling).drop_last() =~= list);
    let before = opened_so_far(items, n, fresh);
    let after = opened_so_far(items, n + 1, fresh);
    let m = taken_so_far(items, n);
    assert(!takes_the_longest(items, k));
    assert(taken_so_far(items, n + 1) == m);
    if has_output_for(items, id) {
        let j = outputs_by_call(items)[id] as int;
        lemma_readings(items[j]);
        assert(named_call(items[j]) == Some(id));
        assert(after == before);
    } else {
        assert(after == before.push(id));
        assert(before.push(id).skip(m as int) =~= before.skip(m as int).push(id));
    }
}

proof fn lemma_item_pending(items: Seq<JsonV>, t: Turns, k: int, fresh: Seq<Seq<char>>)
    requires
        0 <= k < items.len(),
        are_fresh(items, fresh),
        is_pending(items, k as nat, t, fresh),
    ensures
        match after_item(items, t, k, fresh) {
            Some(next) => is_pending(items, (k + 1) as nat, next, fresh),
            None => takes_the_longest(items, k) && t.pending.len() == 0,
        },
{
    lemma_keys_differ();
    reveal_strlit("");
    assert(""@ =~= Seq::empty());
    let item = items[k];
    let n = k as nat;
    let more = items.take(k + 1);
    assert(more.drop_last() =~= items.take(k));
    assert(more.last() == item);
    lemma_readings(item);
    if is_call(item) {
        lemma_call_pending(items, t, k, fresh);
    } else {
        let all = opened_so_far(items, n, fresh);
        let m = taken_so_far(items, n);
        let id = text_at(item, "call_id"@);
        assert(opened_so_far(items, n + 1, fresh) == all);
        assert(item.str_or("call_id"@, ""@) == id);
        blank_is_white(id);
        if id.len() > 0 {
            lemma_outputs(items, id);
            lemma_called(items, id);
            if is_output_for(item, id) {
                assert(has_output_for(items, id));
            }
        } else {
            crate::chat_messages::lemma_outputs_stand(items, id);
        }
        if t.pending.len() > 0 {
            assert(all.skip(m as int).drop_first() =~= all.skip(m as int + 1));
        }
        lemma_output_pending(t, item, opt_output_text(item.get("output"@)));
        lemma_output_pending(
            t,
            item,
            opt_output_text(either(item.get("output"@), item.get("result"@))),
        );
        if names(item) is None {
            lemma_named_is_not_taken(items, k);
        }
    }
}

proof fn lemma_named_is_not_taken(items: Seq<JsonV>, k: int)
    requires
        0 <= k < items.len(),
        names(items[k]) is None,
    ensures
        !is_taken(items, k),
        !is_answered(items, items[k].str_or("call_id"@, ""@)),
{
    reveal_strlit("");
    assert(""@ =~= Seq::empty());
    let id = items[k].str_or("call_id"@, ""@);
    assert(is_white(id));
    lemma_called(items, id);
    if has_call_for(items, id) {
        let i = choose|i: int|
            0 <= i < items.len() && makes_call(#[trigger] items[i]) && names(items[i]) == Some(id);
        assert(!is_white(id));
    }
}

proof fn lemma_items_pending(items: Seq<JsonV>, n: nat, fresh: Seq<Seq<char>>)
    requires
        n <= items.len(),
        are_fresh(items, fresh),
    ensures
        after_items(items, n, fresh) matches Some(t) ==> is_pending(items, n, t, fresh),
        after_items(items, n, fresh) is None ==> exists|k: int|
            0 <= k < n && #[trigger] takes_the_longest(items, k) && opened_so_far(
                items,
                k as nat,
                fresh,
            ).len() == taken_so_far(items, k as nat),
    decreases n,
{
    if n == 0 {
        assert(items.take(0) =~= Seq::empty());
        assert(opened_so_far(items, 0, fresh) =~= Seq::empty());
        assert(no_turns().pending =~= opened_so_far(items, 0, fresh).skip(0));
    } else {
        lemma_items_pending(items, (n - 1) as nat, fresh);
        if let Some(t) = after_items(items, (n - 1) as nat, fresh) {
            lemma_item_pending(items, t, n - 1, fresh);
            if after_item(items, t, n - 1, fresh) is None {
                assert(takes_the_longest(items, n - 1));
                let all = opened_so_far(items, (n - 1) as nat, fresh);
                let m = taken_so_far(items, (n - 1) as nat);
                assert(all.skip(m as int).len() == all.len() - m);
            }
        }
    }
}

proof fn lemma_refused(items: Seq<JsonV>, k: int, t: Turns, fresh: Seq<Seq<char>>)
    requires
        0 <= k < items.len(),
        takes_the_longest(items, k),
    ensures
        t.pending.len() == 0 ==> after_item(items, t, k, fresh) is None,
        t.pending.len() > 0 ==> {
            let output = if kind_told(items[k]) == "tool_result"@ {
                match items[k].get("output"@) {
                    Some(output) => Some(output),
                    None => items[k].get("result"@),
                }
            } else {
                items[k].get("output"@)
            };
            after_item(items, t, k, fresh) matches Some(next) && next.messages.len()
                == t.messages.len() + 1 && answers_call(
                next.messages.last(),
                t.pending[0],
                told_output(output),
            )
        },
{
    lemma_keys_differ();
    reveal_strlit("");
    assert(""@ =~= Seq::empty());
    let item = items[k];
    let id = text_at(item, "call_id"@);
    lemma_readings(item);
    assert(item.str_or("call_id"@, ""@) == id);
    blank_is_white(id);
    if id.len() > 0 {
        lemma_outputs(items, id);
    } else {
        crate::chat_messages::lemma_outputs_stand(items, id);
    }
    lemma_named_is_not_taken(items, k);
    let output = if kind_told(item) == "tool_result"@ {
        either(item.get("output"@), item.get("result"@))
    } else {
        item.get("output"@)
    };
    let text = opt_output_text(output);
    lemma_told_output(output);
    lemma_output_pending(t, item, text);
    if t.pending.len() > 0 {
        lemma_tool_message(t.pending[0], text);
        assert(after_item(items, t, k, fresh) == after_output(t, item, text));
    }
}

/// An output that names no call belongs to the call that has been pending longest: the calls that no
/// output names are answered in the order in which they were made.
pub proof fn unnamed_outputs_answer_in_turn(
    items: Seq<JsonV>,
    k: int,
    t: Turns,
    fresh: Seq<Seq<char>>,
)
    requires
        0 <= k < items.len(),
        are_fresh(items, fresh),
        takes_the_longest(items, k),
        after_items(items, k as nat, fresh) == Some(t),
    ensures
        ({
            let all = opened_so_far(items, k as nat, fresh);
            let m = taken_so_far(items, k as nat);
            let output = if kind_told(items[k]) == "tool_result"@ {
                match items[k].get("output"@) {
                    Some(output) => Some(output),
                    None => items[k].get("result"@),
                }
            } else {
                items[k].get("output"@)
            };
            if m < all.len() {
                after_items(items, (k + 1) as nat, fresh) matches Some(next) && answers_call(
                    next.messages.last(),
                    all[m as int],
                    told_output(output),
                )
            } else {
                after_items(items, (k + 1) as nat, fresh) is None
            }
        }),
{
    lemma_items_pending(items, k as nat, fresh);
    lemma_refused(items, k, t, fresh);
    assert(after_items(items, (k + 1) as nat, fresh) == after_item(items, t, k, fresh));
}

proof fn lemma_refused_for_good(items: Seq<JsonV>, m: nat, n: nat, fresh: Seq<Seq<char>>)
    requires
        m <= n,
        after_items(items, m, fresh) is None,
    ensures
        after_items(items, n, fresh) is None,
    decreases n,
{
    if m < n {
        lemma_refused_for_good(items, m, (n - 1) as nat, fresh);
    }
}

/// An input is refused exactly where an output names no call, and no call is pending that it could
/// belong to.
pub proof fn inputs_are_refused_without_a_pending_call(items: Seq<JsonV>, fresh: Seq<Seq<char>>)
    requires
        are_fresh(items, fresh),
    ensures
        chat_messages(items, fresh) is None <==> exists|k: int|
            0 <= k < items.len() && #[trigger] takes_the_longest(items, k) && opened_so_far(
                items,
                k as nat,
                fresh,
            ).len() <= taken_so_far(items, k as nat),
{
    lemma_items_pending(items, items.len(), fresh);
    if exists|k: int|
        0 <= k < items.len() && #[trigger] takes_the_longest(items, k) && opened_so_far(
            items,
            k as nat,
            fresh,
        ).len() <= taken_so_far(items, k as nat) {
        let k = choose|k: int|
            0 <= k < items.len() && #[trigger] takes_the_longest(items, k) && opened_so_far(
                items,
                k as nat,
                fresh,
            ).len() <= taken_so_far(items, k as nat);
        if let Some(t) = after_items(items, k as nat, fresh) {
            unnamed_outputs_answer_in_turn(items, k, t, fresh);
        }
        lemma_refused_for_good(items, (k + 1) as nat, items.len(), fresh);
    }
}

spec fn is_strict(list: Seq<Unanswered>) -> bool {
    forall|i: int, j: int|
        0 <= i < j < list.len() ==> (#[trigger] list[i]).place < (#[trigger] list[j]).place
}

proof fn lemma_without_strict(list: Seq<Unanswered>, id: Seq<char>)
    requires
        is_strict(list),
    ensures
        is_strict(without_call(list, id)),
        forall|h: int|
            0 <= h < list.len() && (#[trigger] list[h]).id != id ==> has_open(
                without_call(list, id),
                list[h],
            ),
    decreases list.len(),
{
    if list.len() > 0 {
        let n = list.len() - 1;
        let shorter = list.drop_last();
        let rest = without_call(shorter, id);
        let all = without_call(list, id);
        assert forall|i: int, j: int| 0 <= i < j < shorter.len() implies (
        #[trigger] shorter[i]).place < (#[trigger] shorter[j]).place by {
            assert(list[i].place < list[j].place);
        }
        lemma_without_strict(shorter, id);
        lemma_without_within(shorter, id);
        assert forall|i: int, j: int| 0 <= i < j < all.len() implies (#[trigger] all[i]).place < (
        #[trigger] all[j]).place by {
            if j < rest.len() {
                assert(rest[i].place < rest[j].place);
            } else {
                let h = choose|h: int| 0 <= h < shorter.len() && shorter[h] == rest[i];
                assert(list[h].place < list[n].place);
            }
        }
        assert forall|h: int| 0 <= h < list.len() && (#[trigger] list[h]).id != id implies has_open(
            all,
            list[h],
        ) by {
            if h < n {
                assert(shorter[h] == list[h]);
                assert(has_open(rest, shorter[h]));
                let i = choose|i: int| 0 <= i < rest.len() && rest[i] == list[h];
                assert(all[i] == list[h]);
            } else {
                assert(all[rest.len() as int] == list[h]);
            }
        }
    }
}

spec fn has_open(list: Seq<Unanswered>, call: Unanswered) -> bool {
    exists|i: int| 0 <= i < list.len() && list[i] == call
}

proof fn lemma_strict(items: Seq<JsonV>, n: nat, fresh: Seq<Seq<char>>)
    ensures
        after_items(items, n, fresh) matches Some(t) ==> is_strict(t.unanswered),
    decreases n,
{
    if n > 0 {
        lemma_strict(items, (n - 1) as nat, fresh);
        lemma_places_fit(items, (n - 1) as nat, fresh);
        if let Some(t) = after_items(items, (n - 1) as nat, fresh) {
            assert forall|id: Seq<char>| is_strict(#[trigger] without_call(t.unanswered, id)) by {
                lemma_without_strict(t.unanswered, id);
            }
        }
    }
}

/// Whether nothing among the items answers a call: no output and no result names it, and none is left
/// without a name.
pub open spec fn is_unanswered(items: Seq<JsonV>, id: Seq<char>) -> bool {
    &&& !has_output_for(items, id)
    &&& forall|j: int|
        0 <= j < items.len() ==> !takes_the_longest(items, j) && !(kind_told(
            #[trigger] items[j],
        ) == "tool_result"@ && names(items[j]) == Some(id))
}

proof fn lemma_output_keeps_open(
    t: Turns,
    item: JsonV,
    text: Seq<char>,
    id: Seq<char>,
    call: Unanswered,
)
    requires
        is_strict(t.unanswered),
        has_open(t.unanswered, call),
        call.id == id,
        named_call(item) is Some,
        named_call(item) != Some(id),
    ensures
        after_output(t, item, text) matches Some(next) ==> has_open(next.unanswered, call),
{
    let other = named_call(item)->Some_0;
    lemma_without_strict(t.unanswered, other);
    let h = choose|h: int| 0 <= h < t.unanswered.len() && t.unanswered[h] == call;
    assert(t.unanswered[h].id != other);
}

proof fn lemma_item_keeps_open(
    items: Seq<JsonV>,
    t: Turns,
    k: int,
    fresh: Seq<Seq<char>>,
    id: Seq<char>,
    call: Unanswered,
)
    requires
        0 <= k < items.len(),
        are_fresh(items, fresh),
        is_pending(items, k as nat, t, fresh),
        is_unanswered(items, id),
        !is_white(id),
        is_strict(t.unanswered),
        has_open(t.unanswered, call),
        call.id == id,
    ensures
        after_item(items, t, k, fresh) matches Some(next) ==> has_open(next.unanswered, call),
{
    lemma_keys_differ();
    reveal_strlit("");
    assert(""@ =~= Seq::empty());
    let item = items[k];
    lemma_readings(item);
    assert(!takes_the_longest(items, k));
    let h = choose|h: int| 0 <= h < t.unanswered.len() && t.unanswered[h] == call;
    if is_call(item) {
        assert(items.take(k + 1).drop_last() =~= items.take(k));
        assert(items.take(k + 1).last() == item);
        lemma_unnamed_prefix(items, k + 1);
        let own = match names(item) {
            Some(own) => own,
            None => fresh[t.used as int],
        };
        assert(!is_white(own));
        if own.len() == 0 {
            assert(is_white(own));
        }
        lemma_outputs(items, own);
        let message = call_message(own, item.str_or("name"@, ""@), call_arguments(item));
        let sent = Turns {
            messages: t.messages.push(message),
            used: if crate::chat_messages::needs_id(item) {
                t.used + 1
            } else {
                t.used
            },
            ..t
        };
        if has_output_for(items, own) {
            let j = outputs_by_call(items)[own] as int;
            lemma_readings(items[j]);
            lemma_output_keeps_open(
                sent,
                items[j],
                opt_output_text(items[j].get("output"@)),
                id,
                call,
            );
        } else {
            let more = t.unanswered.push(Unanswered { id: own, place: sent.messages.len() });
            assert(more[h] == call);
        }
    } else {
        let named = text_at(item, "call_id"@);
        assert(item.str_or("call_id"@, ""@) == named);
        blank_is_white(named);
        if named.len() > 0 {
            lemma_outputs(items, named);
            if is_output_for(item, named) {
                assert(has_output_for(items, named));
            }
        } else {
            crate::chat_messages::lemma_outputs_stand(items, named);
        }
        if names(item) is Some {
            let text = opt_output_text(item.get("output"@));
            let other = opt_output_text(either(item.get("output"@), item.get("result"@)));
            if names(item) != Some(id) {
                lemma_output_keeps_open(t, item, text, id, call);
                lemma_output_keeps_open(t, item, other, id, call);
            } else if is_output_for(item, id) {
                assert(has_output_for(items, id));
            }
        } else {
            lemma_named_is_not_taken(items, k);
        }
    }
}

proof fn lemma_items_keep_open(
    items: Seq<JsonV>,
    m: nat,
    n: nat,
    fresh: Seq<Seq<char>>,
    id: Seq<char>,
    call: Unanswered,
)
    requires
        m <= n <= items.len(),
        are_fresh(items, fresh),
        is_unanswered(items, id),
        !is_white(id),
        call.id == id,
        after_items(items, m, fresh) matches Some(t) ==> has_open(t.unanswered, call),
    ensures
        after_items(items, n, fresh) matches Some(next) ==> has_open(next.unanswered, call),
    decreases n,
{
    if m < n {
        lemma_items_keep_open(items, m, (n - 1) as nat, fresh, id, call);
        lemma_items_pending(items, (n - 1) as nat, fresh);
        lemma_strict(items, (n - 1) as nat, fresh);
        if let Some(t) = after_items(items, (n - 1) as nat, fresh) {
            lemma_item_keeps_open(items, t, n - 1, fresh, id, call);
        }
    }
}

proof fn lemma_stands_in(
    messages: Seq<JsonV>,
    list: Seq<Unanswered>,
    h: int,
    p: int,
    calling: Calling,
)
    requires
        places_fit(list, messages.len()),
        is_strict(list),
        0 <= h < list.len(),
        list[h] == (Unanswered { id: calling.id, place: (p + 1) as nat }),
        0 <= p < messages.len(),
        calls_for(messages[p], calling),
    ensures
        has_answered_call(answered(messages, list), calling, Seq::empty()),
    decreases list.len(),
{
    let n = list.len() - 1;
    let call = list.last();
    let shorter = list.drop_last();
    let place = call.place as int;
    assert(list[n].place <= messages.len());
    let empty = tool_message(call.id, Seq::empty());
    let more = messages.insert(place, empty);
    assert forall|i: int, j: int| 0 <= i < j < shorter.len() implies (#[trigger] shorter[i]).place
        < (#[trigger] shorter[j]).place by {
        assert(list[i].place < list[j].place);
    }
    assert forall|i: int| 0 <= i < shorter.len() implies (#[trigger] shorter[i]).place
        < call.place by {
        assert(list[i].place < list[n].place);
    }
    assert(places_fit(shorter, more.len()));
    if h == n {
        lemma_tool_message(calling.id, Seq::empty());
        assert(more[p] == messages[p]);
        assert(more[p + 1] == empty);
        assert(is_answered_at(more, p, calling, Seq::empty()));
        lemma_pair_stays(more, shorter, p, calling, Seq::empty());
    } else {
        assert(list[h].place < list[n].place);
        assert(more[p] == messages[p]);
        assert(shorter[h] == list[h]);
        lemma_stands_in(more, shorter, h, p, calling);
    }
    assert(answered(messages, list) == answered(more, shorter));
}

/// A call of a custom tool that nothing answers has an empty output, and that stands behind it.
pub proof fn unanswered_custom_calls_have_empty_outputs(
    items: Seq<JsonV>,
    k: int,
    fresh: Seq<Seq<char>>,
    id: Seq<char>,
)
    requires
        0 <= k < items.len(),
        are_fresh(items, fresh),
        makes_call(items[k]),
        kind_told(items[k]) == "custom_tool_call"@,
        names(items[k]) == Some(id),
        is_unanswered(items, id),
    ensures
        chat_messages(items, fresh) matches Some(messages) ==> has_answered_call(
            messages,
            Calling { item: items[k], id },
            Seq::empty(),
        ),
{
    lemma_keys_differ();
    let n = items.len();
    let item = items[k];
    let calling = Calling { item, id };
    lemma_readings(item);
    assert(!is_white(id));
    if id.len() == 0 {
        assert(is_white(id));
    }
    lemma_outputs(items, id);
    lemma_items_go_on(items, k as nat, n, fresh);
    lemma_items_go_on(items, (k + 1) as nat, n, fresh);
    lemma_places_fit(items, n, fresh);
    lemma_strict(items, n, fresh);
    if let Some(last) = after_items(items, n, fresh) {
        let t = after_items(items, k as nat, fresh)->Some_0;
        let next = after_items(items, (k + 1) as nat, fresh)->Some_0;
        let p = t.messages.len() as int;
        let call = Unanswered { id, place: (p + 1) as nat };
        let message = call_message(id, item.str_or("name"@, ""@), call_arguments(item));
        lemma_call_message(item, id);
        assert(after_items(items, (k + 1) as nat, fresh) == after_item(items, t, k, fresh));
        assert(next.messages == t.messages.push(message));
        assert(next.unanswered == t.unanswered.push(call));
        assert(next.unanswered[t.unanswered.len() as int] == call);
        assert(has_open(next.unanswered, call));
        lemma_items_keep_open(items, (k + 1) as nat, n, fresh, id, call);
        let h = choose|h: int| 0 <= h < last.unanswered.len() && last.unanswered[h] == call;
        assert(last.messages[p] == next.messages[p]);
        lemma_stands_in(last.messages, last.unanswered, h, p, calling);
    }
}

} // verus!
