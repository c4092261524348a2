//! What the input items of a Responses request tell of the chat messages that they are made from.

use vstd::prelude::*;
use crate::input_items::{
    after_block, after_blocks, after_content, after_message, after_messages, all_blocks, answers,
    block_call, block_kind, blocks_of, call_item, calls_by, first_draft, flushed, input_items,
    is_paired, is_tool_message, lifted_call, message_item, output_item, results_by_call, role_of,
    tool_block, Draft,
};
use crate::input_laws::lemma_blocks_done;
use crate::json::JsonV;
use crate::keys::lemma_keys_differ;
use crate::text::trim;

verus! {

broadcast use crate::json::group_members;

/// Something that is said in a message: who says it, and a text or the address of a picture.
pub enum Said {
    Text { role: Seq<char>, text: Seq<char> },
    Picture { role: Seq<char>, url: Seq<char> },
}

/// What a block of a message says, where it says something.
pub open spec fn said_by_block(role: Seq<char>, block: JsonV) -> Option<Said> {
    if block.str_at("type"@) == Some("text"@) {
        match block.str_at("text"@) {
            Some(text) => Some(Said::Text { role, text }),
            None => None,
        }
    } else if block.str_at("type"@) == Some("image"@) {
        match block.get("source"@) {
            Some(source) => Some(
                Said::Picture {
                    role,
                    url: "data:"@ + match source.str_at("media_type"@) {
                        Some(kind) => kind,
                        None => "image/png"@,
                    } + ";base64,"@ + match source.str_at("data"@) {
                        Some(data) => data,
                        None => Seq::empty(),
                    },
                },
            ),
            None => None,
        }
    } else if block.str_at("type"@) == Some("input_image"@) {
        match block.str_at("image_url"@) {
            Some(url) => Some(Said::Picture { role, url }),
            None => None,
        }
    } else {
        None
    }
}

/// What some blocks of a message say, in order.
pub open spec fn said_by_blocks(role: Seq<char>, blocks: Seq<JsonV>) -> Seq<Said>
    decreases blocks.len(),
{
    if blocks.len() == 0 {
        Seq::empty()
    } else {
        let before = said_by_blocks(role, blocks.drop_last());
        match said_by_block(role, blocks.last()) {
            Some(said) => before.push(said),
            None => before,
        }
    }
}

/// The role of a message; the user's where it tells none.
pub open spec fn speaker(message: JsonV) -> Seq<char> {
    match message.str_at("role"@) {
        Some(role) => role,
        None => "user"@,
    }
}

/// Whether a message is the result of a tool, and names its call.
pub open spec fn is_result(message: JsonV) -> bool {
    speaker(message) == "tool"@ && (message.str_at("tool_call_id"@) matches Some(id) && trim(
        id,
    ).len() > 0)
}

/// What a message says: its text, or what its blocks say. The result of a tool says nothing itself.
pub open spec fn said_by(message: JsonV) -> Seq<Said> {
    if is_result(message) {
        Seq::empty()
    } else {
        match message.get("content"@) {
            Some(JsonV::Str(text)) => seq![Said::Text { role: speaker(message), text }],
            Some(JsonV::Arr(blocks)) => said_by_blocks(speaker(message), blocks),
            _ => Seq::empty(),
        }
    }
}

/// What some messages say, in order.
pub open spec fn all_said(messages: Seq<JsonV>) -> Seq<Said>
    decreases messages.len(),
{
    if messages.len() == 0 {
        Seq::empty()
    } else {
        all_said(messages.drop_last()) + said_by(messages.last())
    }
}

/// A part of an item shows what was said.
pub open spec fn shows(part: JsonV, role: Seq<char>, said: Said) -> bool {
    match said {
        Said::Text { role: speaker, text } => {
            &&& role == speaker
            &&& part.str_at("text"@) == Some(text)
            &&& part.str_at("type"@) == Some(
                if speaker == "assistant"@ {
                    "output_text"@
                } else {
                    "input_text"@
                },
            )
        },
        Said::Picture { role: speaker, url } => {
            &&& role == speaker
            &&& part.str_at("type"@) == Some("input_image"@)
            &&& part.str_at("image_url"@) == Some(url)
        },
    }
}

/// Some parts show what was said: as many, and in the same order.
pub open spec fn all_show(parts: Seq<JsonV>, role: Seq<char>, said: Seq<Said>) -> bool {
    &&& parts.len() == said.len()
    &&& forall|i: int| 0 <= i < parts.len() ==> shows(#[trigger] parts[i], role, said[i])
}

/// Some items show what was said: each item of a message shows some of it, one item behind the other,
/// and the other items show nothing.
pub open spec fn items_show(items: Seq<JsonV>, said: Seq<Said>) -> bool
    decreases items.len(),
{
    if items.len() == 0 {
        said.len() == 0
    } else {
        let item = items.last();
        match item.array_at("content"@) {
            Some(parts) => {
                &&& item.get("type"@) is None
                &&& item.str_at("role"@) is Some
                &&& parts.len() <= said.len()
                &&& all_show(
                    parts,
                    item.str_at("role"@)->Some_0,
                    said.skip(said.len() - parts.len()),
                )
                &&& items_show(items.drop_last(), said.take(said.len() - parts.len()))
            },
            None => items_show(items.drop_last(), said),
        }
    }
}

proof fn lemma_item_shown(items: Seq<JsonV>, said: Seq<Said>, item: JsonV, more: Seq<Said>)
    requires
        items_show(items, said),
        item.get("type"@) is None,
        item.str_at("role"@) is Some,
        item.array_at("content"@) matches Some(parts) && all_show(
            parts,
            item.str_at("role"@)->Some_0,
            more,
        ),
    ensures
        items_show(items.push(item), said + more),
{
    let all = items.push(item);
    let both = said + more;
    assert(all.drop_last() =~= items);
    assert(all.last() == item);
    assert(both.skip(both.len() - more.len()) =~= more);
    assert(both.take(both.len() - more.len()) =~= said);
}

proof fn lemma_item_shows_nothing(items: Seq<JsonV>, said: Seq<Said>, item: JsonV)
    requires
        items_show(items, said),
        item.get("content"@) is None,
    ensures
        items_show(items.push(item), said),
{
    assert(items.push(item).drop_last() =~= items);
}

/// What holds of each kind of item.
pub proof fn lemma_items()
    ensures
        forall|role: Seq<char>, content: Seq<JsonV>|
            {
                let item = #[trigger] message_item(role, content);
                &&& item.get("type"@) is None
                &&& item.str_at("role"@) == Some(role)
                &&& item.array_at("content"@) == Some(content)
            },
        forall|id: Seq<char>, name: Seq<char>, arguments: JsonV|
            (#[trigger] call_item(id, name, arguments)).get("content"@) is None,
        forall|id: Seq<char>, block: JsonV|
            (#[trigger] output_item(id, block)).get("content"@) is None,
{
    lemma_keys_differ();
    assert forall|role: Seq<char>, content: Seq<JsonV>|
        {
            let item = #[trigger] message_item(role, content);
            &&& item.get("type"@) is None
            &&& item.str_at("role"@) == Some(role)
            &&& item.array_at("content"@) == Some(content)
        } by {}
    assert forall|id: Seq<char>, name: Seq<char>, arguments: JsonV|
        (#[trigger] call_item(id, name, arguments)).get("content"@) is None by {}
    assert forall|id: Seq<char>, block: JsonV|
        (#[trigger] output_item(id, block)).get("content"@) is None by {}
}

/// The items so far and the parts at hand show what was said: the items what was said before, and
/// the parts what a role has said since.
spec fn draft_shows(d: Draft, said: Seq<Said>, role: Seq<char>, since: Seq<Said>) -> bool {
    items_show(d.input, said) && all_show(d.content, role, since)
}

proof fn lemma_flushed_shows(d: Draft, said: Seq<Said>, role: Seq<char>, since: Seq<Said>)
    requires
        draft_shows(d, said, role, since),
    ensures
        draft_shows(flushed(d, role), said + since, role, Seq::empty()),
{
    lemma_items();
    if d.content.len() > 0 {
        lemma_item_shown(d.input, said, message_item(role, d.content), since);
    } else {
        assert(since =~= Seq::empty());
        assert(said + since =~= said);
    }
}

proof fn lemma_part_shown(parts: Seq<JsonV>, role: Seq<char>, said: Seq<Said>, part: JsonV, more: Said)
    requires
        all_show(parts, role, said),
        shows(part, role, more),
    ensures
        all_show(parts.push(part), role, said.push(more)),
{
    let all = parts.push(part);
    assert forall|i: int| 0 <= i < all.len() implies shows(
        #[trigger] all[i],
        role,
        said.push(more)[i],
    ) by {
        if i < parts.len() {
            assert(shows(parts[i], role, said[i]));
        }
    }
}

proof fn lemma_block_shows(
    blocks: Seq<JsonV>,
    d: Draft,
    role: Seq<char>,
    said: Seq<Said>,
    since: Seq<Said>,
) -> (next: (Seq<Said>, Seq<Said>))
    requires
        d.seen < blocks.len(),
        draft_shows(d, said, role, since),
    ensures
        draft_shows(after_block(blocks, d, role), next.0, role, next.1),
        next.0 + next.1 == match said_by_block(role, blocks[d.seen as int]) {
            Some(more) => (said + since).push(more),
            None => said + since,
        },
{
    lemma_keys_differ();
    lemma_items();
    reveal_strlit("");
    assert(""@ =~= Seq::empty());
    let block = blocks[d.seen as int];
    let after = after_block(blocks, d, role);
    let none = Seq::<Said>::empty();
    let f = flushed(d, role);
    lemma_flushed_shows(d, said, role, since);
    if block_kind(block) == "tool_use"@ {
        let call = block_call(block);
        let id = block.str_or("id"@, ""@);
        lemma_item_shows_nothing(f.input, said + since, call);
        if f.waiting.contains_key(id) {
            lemma_item_shows_nothing(
                f.input.push(call),
                said + since,
                output_item(id, blocks[f.waiting[id] as int]),
            );
        }
        assert((said + since) + none =~= said + since);
        (said + since, none)
    } else if block_kind(block) == "tool_result"@ {
        lemma_item_shows_nothing(f.input, said + since, output_item(answers(block), block));
        assert((said + since) + none =~= said + since);
        (said + since, none)
    } else {
        match said_by_block(role, block) {
            Some(more) => {
                assert(after.content =~= d.content.push(after.content.last()));
                assert(shows(after.content.last(), role, more));
                lemma_part_shown(d.content, role, since, after.content.last(), more);
                assert(said + since.push(more) =~= (said + since).push(more));
                (said, since.push(more))
            },
            None => (said, since),
        }
    }
}

proof fn lemma_blocks_show(
    blocks: Seq<JsonV>,
    d: Draft,
    role: Seq<char>,
    own: Seq<JsonV>,
    said: Seq<Said>,
) -> (next: (Seq<Said>, Seq<Said>))
    requires
        d.seen + own.len() <= blocks.len(),
        forall|i: int| 0 <= i < own.len() ==> #[trigger] own[i] == blocks[d.seen + i],
        draft_shows(d, said, role, Seq::empty()),
    ensures
        after_blocks(blocks, d, role, own.len()).seen == d.seen + own.len(),
        draft_shows(after_blocks(blocks, d, role, own.len()), next.0, role, next.1),
        next.0 + next.1 == said + said_by_blocks(role, own),
    decreases own.len(),
{
    let none = Seq::<Said>::empty();
    if own.len() == 0 {
        assert(said + none =~= said + said_by_blocks(role, own));
        (said, none)
    } else {
        let fewer = own.drop_last();
        assert forall|i: int| 0 <= i < fewer.len() implies #[trigger] fewer[i] == blocks[d.seen
            + i] by {
            assert(own[i] == blocks[d.seen + i]);
        }
        let (a, b) = lemma_blocks_show(blocks, d, role, fewer, said);
        let before = after_blocks(blocks, d, role, fewer.len());
        assert(own[own.len() - 1] == blocks[before.seen as int]);
        let next = lemma_block_shows(blocks, before, role, a, b);
        assert(next.0 + next.1 =~= said + said_by_blocks(role, own));
        next
    }
}

/// The role and the kind of a message here and in the conversion are the same.
pub proof fn lemma_roles(message: JsonV)
    ensures
        speaker(message) == role_of(message),
        is_result(message) == is_tool_message(message),
{
    reveal_strlit("");
    assert(trim(""@).len() == 0);
}

proof fn lemma_message_shows(
    blocks: Seq<JsonV>,
    d: Draft,
    message: JsonV,
    said: Seq<Said>,
)
    requires
        d.content.len() == 0,
        d.seen + blocks_of(message).len() <= blocks.len(),
        forall|i: int|
            0 <= i < blocks_of(message).len() ==> #[trigger] blocks_of(message)[i] == blocks[d.seen
                + i],
        items_show(d.input, said),
    ensures
        after_message(blocks, d, message).content.len() == 0,
        items_show(after_message(blocks, d, message).input, said + said_by(message)),
{
    lemma_keys_differ();
    lemma_items();
    lemma_roles(message);
    let role = role_of(message);
    let own = blocks_of(message);
    let none = Seq::<Said>::empty();
    let content = after_content(blocks, d, message);
    let next = lemma_blocks_show(blocks, d, role, own, said);
    lemma_flushed_shows(after_blocks(blocks, d, role, own.len()), next.0, role, next.1);
    if is_tool_message(message) {
        lemma_tool_block_says_nothing(role, message);
        assert(said + said_by_blocks(role, own) =~= said + said_by(message));
    } else {
        match message.get("content"@) {
            Some(JsonV::Str(text)) => {
                let part = crate::input_items::text_part(crate::input_items::text_kind(role), text);
                let told = Said::Text { role, text };
                assert(shows(part, role, told));
                assert(all_show(seq![part], role, seq![told]));
                lemma_item_shown(d.input, said, message_item(role, seq![part]), seq![told]);
            },
            Some(JsonV::Arr(parts)) => {},
            _ => {
                assert(said + said_by_blocks(role, own) =~= said + said_by(message));
            },
        }
    }
    assert(content.content.len() == 0);
    assert(items_show(content.input, said + said_by(message)));
    if let Some(JsonV::Obj(call)) = message.get("function_call"@) {
        lemma_item_shows_nothing(
            content.input,
            said + said_by(message),
            lifted_call(JsonV::Obj(call)),
        );
    }
}

proof fn lemma_tool_block_says_nothing(role: Seq<char>, message: JsonV)
    ensures
        said_by_blocks(role, seq![tool_block(message)]) == Seq::<Said>::empty(),
{
    lemma_keys_differ();
    let own = seq![tool_block(message)];
    assert(own.drop_last() =~= Seq::empty());
    assert(said_by_blocks(role, own.drop_last()) == Seq::<Said>::empty());
    assert(own.last() == tool_block(message));
    assert(own.last().str_at("type"@) == Some("tool_result"@));
}

/// The blocks of one message stand among all blocks, behind those of the messages before.
pub proof fn lemma_blocks_of_one(messages: Seq<JsonV>, k: int)
    requires
        0 <= k < messages.len(),
    ensures
        ({
            let at = all_blocks(messages.take(k)).len();
            &&& at + blocks_of(messages[k]).len() <= all_blocks(messages).len()
            &&& forall|i: int|
                0 <= i < blocks_of(messages[k]).len() ==> #[trigger] blocks_of(messages[k])[i]
                    == all_blocks(messages)[at + i]
        }),
    decreases messages.len(),
{
    let shorter = messages.drop_last();
    if k < shorter.len() {
        lemma_blocks_of_one(shorter, k);
        assert(shorter.take(k) =~= messages.take(k));
        assert(shorter[k] == messages[k]);
        let at = all_blocks(messages.take(k)).len();
        assert forall|i: int| 0 <= i < blocks_of(messages[k]).len() implies #[trigger] blocks_of(
            messages[k],
        )[i] == all_blocks(messages)[at + i] by {
            assert(all_blocks(messages)[at + i] == all_blocks(shorter)[at + i]);
        }
    } else {
        assert(messages.take(k) =~= shorter);
    }
}

proof fn lemma_messages_show(messages: Seq<JsonV>, k: int)
    requires
        0 <= k <= messages.len(),
    ensures
        ({
            let blocks = all_blocks(messages);
            let d = after_messages(blocks, first_draft(blocks), messages.take(k));
            d.content.len() == 0 && items_show(d.input, all_said(messages.take(k)))
        }),
    decreases k,
{
    let blocks = all_blocks(messages);
    if k == 0 {
        assert(messages.take(0) =~= Seq::empty());
    } else {
        let before = after_messages(blocks, first_draft(blocks), messages.take(k - 1));
        lemma_messages_show(messages, k - 1);
        lemma_blocks_done(messages, k - 1);
        lemma_blocks_of_one(messages, k - 1);
        assert(messages.take(k).drop_last() =~= messages.take(k - 1));
        assert(messages.take(k).last() == messages[k - 1]);
        lemma_message_shows(blocks, before, messages[k - 1], all_said(messages.take(k - 1)));
    }
}

/// Everything that is said in a chat is in the input: each text and each picture of each message is
/// shown by one part of an item of the same role, in the same order, and the items show nothing
/// else.
pub proof fn everything_said_is_in_the_input(messages: Seq<JsonV>)
    ensures
        items_show(input_items(messages), all_said(messages)),
{
    lemma_messages_show(messages, messages.len() as int);
    assert(messages.take(messages.len() as int) =~= messages);
}

proof fn lemma_no_content_yet(d: Draft, blocks: Seq<JsonV>, role: Seq<char>, n: nat)
    requires
        d.seen + n <= blocks.len(),
        forall|i: int|
            0 <= i < n ==> said_by_block(role, #[trigger] blocks[d.seen + i]) is Some,
    ensures
        after_blocks(blocks, d, role, n).input == d.input,
        after_blocks(blocks, d, role, n).seen == d.seen + n,
    decreases n,
{
    lemma_keys_differ();
    if n > 0 {
        lemma_no_content_yet(d, blocks, role, (n - 1) as nat);
        assert(said_by_block(role, blocks[d.seen + (n - 1)]) is Some);
    }
}

/// A message whose blocks are texts and pictures only becomes one item of the same role, with one
/// part for each block in the same order.
pub proof fn plain_messages_become_one_item(
    blocks: Seq<JsonV>,
    d: Draft,
    message: JsonV,
    own: Seq<JsonV>,
)
    requires
        d.content.len() == 0,
        !is_result(message),
        message.array_at("content"@) == Some(own),
        message.get("function_call"@) is None,
        own.len() > 0,
        d.seen + own.len() <= blocks.len(),
        forall|i: int| 0 <= i < own.len() ==> #[trigger] own[i] == blocks[d.seen + i],
        forall|i: int|
            0 <= i < own.len() ==> said_by_block(speaker(message), #[trigger] own[i]) is Some,
    ensures
        ({
            let next = after_message(blocks, d, message);
            let item = next.input.last();
            &&& next.input.len() == d.input.len() + 1
            &&& next.input.drop_last() == d.input
            &&& item.str_at("role"@) == Some(speaker(message))
            &&& item.array_at("content"@) matches Some(parts) && parts.len() == own.len()
                && forall|i: int|
                0 <= i < parts.len() ==> shows(
                    #[trigger] parts[i],
                    speaker(message),
                    said_by_block(speaker(message), own[i])->Some_0,
                )
        }),
{
    lemma_roles(message);
    lemma_items();
    let role = role_of(message);
    let plain = Draft { input: Seq::empty(), ..d };
    let done = after_blocks(blocks, d, role, own.len());
    assert forall|i: int| 0 <= i < own.len() implies said_by_block(
        role,
        #[trigger] blocks[d.seen + i],
    ) is Some by {
        assert(said_by_block(role, own[i]) is Some);
    }
    lemma_no_content_yet(d, blocks, role, own.len());
    lemma_content_grows(d, blocks, role, own, own.len());
    let next = after_message(blocks, d, message);
    assert(next.input =~= d.input.push(message_item(role, done.content)));
    assert(next.input.drop_last() =~= d.input);
}

proof fn lemma_content_grows(d: Draft, blocks: Seq<JsonV>, role: Seq<char>, own: Seq<JsonV>, n: nat)
    requires
        d.content.len() == 0,
        n <= own.len(),
        d.seen + own.len() <= blocks.len(),
        forall|i: int| 0 <= i < own.len() ==> #[trigger] own[i] == blocks[d.seen + i],
        forall|i: int|
            0 <= i < own.len() ==> said_by_block(role, #[trigger] own[i]) is Some,
    ensures
        after_blocks(blocks, d, role, n).content.len() == n,
        after_blocks(blocks, d, role, n).seen == d.seen + n,
        forall|i: int|
            0 <= i < n ==> shows(
                #[trigger] after_blocks(blocks, d, role, n).content[i],
                role,
                said_by_block(role, own[i])->Some_0,
            ),
    decreases n,
{
    lemma_keys_differ();
    reveal_strlit("");
    assert(""@ =~= Seq::empty());
    if n > 0 {
        let before = after_blocks(blocks, d, role, (n - 1) as nat);
        let after = after_blocks(blocks, d, role, n);
        lemma_content_grows(d, blocks, role, own, (n - 1) as nat);
        let block = own[n - 1];
        assert(block == blocks[d.seen + (n - 1)]);
        assert(said_by_block(role, block) is Some);
        assert(after.content =~= before.content.push(after.content.last()));
        assert(shows(after.content.last(), role, said_by_block(role, block)->Some_0));
        assert forall|i: int| 0 <= i < n implies shows(
            #[trigger] after.content[i],
            role,
            said_by_block(role, own[i])->Some_0,
        ) by {
            if i < n - 1 {
                assert(after.content[i] == before.content[i]);
            }
        }
    }
}

/// An item is what a message of texts and pictures becomes: it has the role of the message, and one
/// part for each block in the same order, with the text or the picture of the block.
pub open spec fn is_item_of(item: JsonV, message: JsonV, own: Seq<JsonV>) -> bool {
    &&& item.str_at("role"@) == Some(speaker(message))
    &&& item.array_at("content"@) matches Some(parts) && parts.len() == own.len() && forall|i: int|
        0 <= i < parts.len() ==> shows(
            #[trigger] parts[i],
            speaker(message),
            said_by_block(speaker(message), own[i])->Some_0,
        )
}

spec fn extends(a: Seq<JsonV>, b: Seq<JsonV>) -> bool {
    a.len() <= b.len() && forall|i: int| 0 <= i < a.len() ==> #[trigger] b[i] == a[i]
}

proof fn lemma_blocks_extend(blocks: Seq<JsonV>, d: Draft, role: Seq<char>, n: nat)
    ensures
        extends(d.input, after_blocks(blocks, d, role, n).input),
    decreases n,
{
    if n > 0 {
        lemma_blocks_extend(blocks, d, role, (n - 1) as nat);
    }
}

proof fn lemma_messages_extend(messages: Seq<JsonV>, m: int, n: int)
    requires
        0 <= m <= n <= messages.len(),
    ensures
        ({
            let blocks = all_blocks(messages);
            extends(
                after_messages(blocks, first_draft(blocks), messages.take(m)).input,
                after_messages(blocks, first_draft(blocks), messages.take(n)).input,
            )
        }),
    decreases n - m,
{
    if m < n {
        let blocks = all_blocks(messages);
        let before = after_messages(blocks, first_draft(blocks), messages.take(n - 1));
        let message = messages[n - 1];
        lemma_messages_extend(messages, m, n - 1);
        assert(messages.take(n).drop_last() =~= messages.take(n - 1));
        assert(messages.take(n).last() == message);
        lemma_blocks_extend(blocks, before, role_of(message), blocks_of(message).len());
    }
}

/// A message of texts and pictures becomes one item of the input, with one part for each block, as
/// many and in the same order.
pub proof fn plain_messages_are_in_the_input(messages: Seq<JsonV>, k: int, own: Seq<JsonV>)
    requires
        0 <= k < messages.len(),
        !is_result(messages[k]),
        messages[k].array_at("content"@) == Some(own),
        messages[k].get("function_call"@) is None,
        own.len() > 0,
        forall|i: int|
            0 <= i < own.len() ==> said_by_block(speaker(messages[k]), #[trigger] own[i]) is Some,
    ensures
        exists|i: int|
            0 <= i < input_items(messages).len() && is_item_of(
                #[trigger] input_items(messages)[i],
                messages[k],
                own,
            ),
{
    let blocks = all_blocks(messages);
    let n = messages.len() as int;
    let d = after_messages(blocks, first_draft(blocks), messages.take(k));
    lemma_messages_show(messages, k);
    lemma_blocks_done(messages, k);
    lemma_blocks_of_one(messages, k);
    lemma_roles(messages[k]);
    assert(blocks_of(messages[k]) == own);
    plain_messages_become_one_item(blocks, d, messages[k], own);
    assert(messages.take(k + 1).drop_last() =~= messages.take(k));
    assert(messages.take(k + 1).last() == messages[k]);
    assert(messages.take(n) =~= messages);
    lemma_messages_extend(messages, k + 1, n);
    let next = after_message(blocks, d, messages[k]);
    assert(input_items(messages)[d.input.len() as int] == next.input.last());
    assert(is_item_of(next.input.last(), messages[k], own));
}

/// A call in a chat: its identifier, its name and its arguments.
pub struct Called {
    pub id: Seq<char>,
    pub name: Seq<char>,
    pub arguments: JsonV,
}

/// The text of a member; empty where there is none.
pub open spec fn text_at(value: JsonV, key: Seq<char>) -> Seq<char> {
    match value.str_at(key) {
        Some(text) => text,
        None => Seq::empty(),
    }
}

/// A member, or else the empty object.
pub open spec fn member_or_object(value: JsonV, key: Seq<char>) -> JsonV {
    match value.get(key) {
        Some(member) => member,
        None => JsonV::Obj(Map::empty()),
    }
}

/// The calls that some blocks make, in order.
pub open spec fn called_by_blocks(blocks: Seq<JsonV>) -> Seq<Called>
    decreases blocks.len(),
{
    if blocks.len() == 0 {
        Seq::empty()
    } else {
        let before = called_by_blocks(blocks.drop_last());
        let block = blocks.last();
        if block.str_at("type"@) == Some("tool_use"@) {
            before.push(
                Called {
                    id: text_at(block, "id"@),
                    name: text_at(block, "name"@),
                    arguments: member_or_object(block, "input"@),
                },
            )
        } else {
            before
        }
    }
}

/// The calls that a message makes: those of its blocks, and then the function that it calls, which
/// has no identifier.
pub open spec fn called_by(message: JsonV) -> Seq<Called> {
    let made = if is_result(message) {
        Seq::empty()
    } else {
        match message.get("content"@) {
            Some(JsonV::Arr(blocks)) => called_by_blocks(blocks),
            _ => Seq::empty(),
        }
    };
    match message.get("function_call"@) {
        Some(JsonV::Obj(m)) => made.push(
            Called {
                id: Seq::empty(),
                name: text_at(JsonV::Obj(m), "name"@),
                arguments: member_or_object(JsonV::Obj(m), "arguments"@),
            },
        ),
        _ => made,
    }
}

/// The calls that some messages make, in order.
pub open spec fn all_called(messages: Seq<JsonV>) -> Seq<Called>
    decreases messages.len(),
{
    if messages.len() == 0 {
        Seq::empty()
    } else {
        all_called(messages.drop_last()) + called_by(messages.last())
    }
}

/// The calls that some items tell, in order.
pub open spec fn called_in(items: Seq<JsonV>) -> Seq<Called>
    decreases items.len(),
{
    if items.len() == 0 {
        Seq::empty()
    } else {
        let before = called_in(items.drop_last());
        let item = items.last();
        if item.str_at("type"@) == Some("function_call"@) {
            before.push(
                Called {
                    id: text_at(item, "call_id"@),
                    name: text_at(item, "name"@),
                    arguments: member_or_object(item, "arguments"@),
                },
            )
        } else {
            before
        }
    }
}

proof fn lemma_called_push(items: Seq<JsonV>, item: JsonV)
    ensures
        called_in(items.push(item)) == if item.str_at("type"@) == Some("function_call"@) {
            called_in(items).push(
                Called {
                    id: text_at(item, "call_id"@),
                    name: text_at(item, "name"@),
                    arguments: member_or_object(item, "arguments"@),
                },
            )
        } else {
            called_in(items)
        },
{
    assert(items.push(item).drop_last() =~= items);
}

/// What holds of each kind of item.
pub proof fn lemma_item_types()
    ensures
        forall|role: Seq<char>, content: Seq<JsonV>|
            (#[trigger] message_item(role, content)).str_at("type"@) is None,
        forall|id: Seq<char>, name: Seq<char>, arguments: JsonV|
            {
                let item = #[trigger] call_item(id, name, arguments);
                &&& item.str_at("type"@) == Some("function_call"@)
                &&& text_at(item, "call_id"@) == id
                &&& text_at(item, "name"@) == name
                &&& member_or_object(item, "arguments"@) == arguments
            },
        forall|id: Seq<char>, block: JsonV|
            (#[trigger] output_item(id, block)).str_at("type"@) == Some("function_call_output"@),
{
    lemma_keys_differ();
    assert forall|role: Seq<char>, content: Seq<JsonV>|
        (#[trigger] message_item(role, content)).str_at("type"@) is None by {}
    assert forall|id: Seq<char>, name: Seq<char>, arguments: JsonV|
        {
            let item = #[trigger] call_item(id, name, arguments);
            &&& item.str_at("type"@) == Some("function_call"@)
            &&& text_at(item, "call_id"@) == id
            &&& text_at(item, "name"@) == name
            &&& member_or_object(item, "arguments"@) == arguments
        } by {}
    assert forall|id: Seq<char>, block: JsonV|
        (#[trigger] output_item(id, block)).str_at("type"@) == Some("function_call_output"@) by {}
}

proof fn lemma_flushed_calls_nothing(d: Draft, role: Seq<char>)
    ensures
        called_in(flushed(d, role).input) == called_in(d.input),
{
    lemma_item_types();
    lemma_called_push(d.input, message_item(role, d.content));
}

proof fn lemma_block_calls(blocks: Seq<JsonV>, d: Draft, role: Seq<char>)
    requires
        d.seen < blocks.len(),
    ensures
        ({
            let block = blocks[d.seen as int];
            called_in(after_block(blocks, d, role).input) == if block.str_at("type"@) == Some(
                "tool_use"@,
            ) {
                called_in(d.input).push(
                    Called {
                        id: text_at(block, "id"@),
                        name: text_at(block, "name"@),
                        arguments: member_or_object(block, "input"@),
                    },
                )
            } else {
                called_in(d.input)
            }
        }),
{
    lemma_keys_differ();
    lemma_item_types();
    lemma_flushed_calls_nothing(d, role);
    reveal_strlit("");
    assert(""@ =~= Seq::empty());
    let block = blocks[d.seen as int];
    let f = flushed(d, role);
    if block_kind(block) == "tool_use"@ {
        let id = block.str_or("id"@, ""@);
        lemma_called_push(f.input, block_call(block));
        if f.waiting.contains_key(id) {
            lemma_called_push(
                f.input.push(block_call(block)),
                output_item(id, blocks[f.waiting[id] as int]),
            );
        }
    } else if block_kind(block) == "tool_result"@ {
        lemma_called_push(f.input, output_item(answers(block), block));
    }
}

proof fn lemma_blocks_call(blocks: Seq<JsonV>, d: Draft, role: Seq<char>, own: Seq<JsonV>)
    requires
        d.seen + own.len() <= blocks.len(),
        forall|i: int| 0 <= i < own.len() ==> #[trigger] own[i] == blocks[d.seen + i],
    ensures
        after_blocks(blocks, d, role, own.len()).seen == d.seen + own.len(),
        called_in(after_blocks(blocks, d, role, own.len()).input) == called_in(d.input)
            + called_by_blocks(own),
    decreases own.len(),
{
    if own.len() == 0 {
        assert(called_in(d.input) + called_by_blocks(own) =~= called_in(d.input));
    } else {
        let fewer = own.drop_last();
        assert forall|i: int| 0 <= i < fewer.len() implies #[trigger] fewer[i] == blocks[d.seen
            + i] by {
            assert(own[i] == blocks[d.seen + i]);
        }
        lemma_blocks_call(blocks, d, role, fewer);
        let before = after_blocks(blocks, d, role, fewer.len());
        assert(own[own.len() - 1] == blocks[before.seen as int]);
        lemma_block_calls(blocks, before, role);
        assert(called_in(after_blocks(blocks, d, role, own.len()).input) =~= called_in(d.input)
            + called_by_blocks(own));
    }
}

proof fn lemma_message_calls(blocks: Seq<JsonV>, d: Draft, message: JsonV)
    requires
        d.seen + blocks_of(message).len() <= blocks.len(),
        forall|i: int|
            0 <= i < blocks_of(message).len() ==> #[trigger] blocks_of(message)[i] == blocks[d.seen
                + i],
    ensures
        called_in(after_message(blocks, d, message).input) == called_in(d.input) + called_by(
            message,
        ),
{
    lemma_keys_differ();
    lemma_item_types();
    lemma_roles(message);
    reveal_strlit("");
    assert(""@ =~= Seq::empty());
    let role = role_of(message);
    let own = blocks_of(message);
    let none = Seq::<Called>::empty();
    let content = after_content(blocks, d, message);
    let made = if is_result(message) {
        none
    } else {
        match message.get("content"@) {
            Some(JsonV::Arr(list)) => called_by_blocks(list),
            _ => none,
        }
    };
    lemma_blocks_call(blocks, d, role, own);
    lemma_flushed_calls_nothing(after_blocks(blocks, d, role, own.len()), role);
    if is_tool_message(message) {
        assert(own.drop_last() =~= Seq::empty());
        assert(called_by_blocks(own.drop_last()) == none);
        assert(own.last().str_at("type"@) == Some("tool_result"@));
        assert(called_by_blocks(own) =~= none);
    } else if let Some(JsonV::Str(text)) = message.get("content"@) {
        lemma_called_push(
            d.input,
            message_item(
                role,
                seq![crate::input_items::text_part(crate::input_items::text_kind(role), text)],
            ),
        );
        assert(called_in(d.input) + none =~= called_in(d.input));
    }
    assert(called_in(content.input) == called_in(d.input) + made);
    if let Some(JsonV::Obj(call)) = message.get("function_call"@) {
        lemma_called_push(content.input, lifted_call(JsonV::Obj(call)));
        assert(called_in(after_message(blocks, d, message).input) =~= called_in(d.input)
            + called_by(message));
    }
}

proof fn lemma_messages_call(messages: Seq<JsonV>, k: int)
    requires
        0 <= k <= messages.len(),
    ensures
        called_in(
            after_messages(
                all_blocks(messages),
                first_draft(all_blocks(messages)),
                messages.take(k),
            ).input,
        ) == all_called(messages.take(k)),
    decreases k,
{
    let blocks = all_blocks(messages);
    if k == 0 {
        assert(messages.take(0) =~= Seq::empty());
    } else {
        let before = after_messages(blocks, first_draft(blocks), messages.take(k - 1));
        lemma_messages_call(messages, k - 1);
        lemma_blocks_done(messages, k - 1);
        lemma_blocks_of_one(messages, k - 1);
        assert(messages.take(k).drop_last() =~= messages.take(k - 1));
        assert(messages.take(k).last() == messages[k - 1]);
        lemma_message_calls(blocks, before, messages[k - 1]);
    }
}

/// Every call that is made in a chat is in the input, with its identifier, its name and its
/// arguments as they are, in the same order, and the input has no other calls.
pub proof fn every_call_is_in_the_input(messages: Seq<JsonV>)
    ensures
        called_in(input_items(messages)) == all_called(messages),
{
    lemma_messages_call(messages, messages.len() as int);
    assert(messages.take(messages.len() as int) =~= messages);
}

/// An item is the output of a call that has the content of a tool result: a list as it is, and a
/// text as one part.
pub open spec fn is_output_of(item: JsonV, id: Seq<char>, content: Option<JsonV>) -> bool {
    &&& item.str_at("type"@) == Some("function_call_output"@)
    &&& item.str_at("call_id"@) == Some(id)
    &&& item.array_at("output"@) matches Some(parts) && match content {
        Some(JsonV::Arr(given)) => parts == given,
        Some(JsonV::Str(text)) => parts.len() == 1 && parts[0].str_at("type"@) == Some(
            "output_text"@,
        ) && parts[0].str_at("text"@) == Some(text),
        _ => parts.len() == 1 && parts[0].str_at("type"@) == Some("output_text"@)
            && parts[0].str_at("text"@) == Some(Seq::<char>::empty()),
    }
}

/// Whether one of some items is such an output.
pub open spec fn has_output_of(items: Seq<JsonV>, id: Seq<char>, content: Option<JsonV>) -> bool {
    exists|i: int| 0 <= i < items.len() && is_output_of(#[trigger] items[i], id, content)
}

/// A block that is the result of a tool, and names its call.
pub open spec fn is_result_for(block: JsonV, id: Seq<char>) -> bool {
    block.str_at("type"@) == Some("tool_result"@) && match block.get("tool_use_id"@) {
        Some(named) => named == JsonV::Str(id),
        None => block.get("tool_call_id"@) == Some(JsonV::Str(id)),
    }
}

proof fn lemma_output_item(id: Seq<char>, block: JsonV)
    ensures
        is_output_of(output_item(id, block), id, block.get("content"@)),
{
    lemma_keys_differ();
    reveal_strlit("");
    assert(""@ =~= Seq::empty());
}

spec fn holds(items: Seq<JsonV>, item: JsonV) -> bool {
    exists|i: int| 0 <= i < items.len() && #[trigger] items[i] == item
}

proof fn lemma_holds_push(items: Seq<JsonV>, item: JsonV, more: JsonV)
    ensures
        holds(items, item) || item == more ==> holds(items.push(more), item),
{
    let all = items.push(more);
    assert(all[items.len() as int] == more);
    if holds(items, item) {
        let i = choose|i: int| 0 <= i < items.len() && #[trigger] items[i] == item;
        assert(all[i] == item);
    }
}

spec fn none_lost(blocks: Seq<JsonV>, d: Draft) -> bool {
    &&& d.seen <= blocks.len()
    &&& forall|k: int|
        0 <= k < d.seen && block_kind(#[trigger] blocks[k]) == "tool_result"@ && !is_paired(
            blocks,
            k,
        ) ==> holds(d.input, output_item(answers(blocks[k]), blocks[k]))
    &&& forall|id: Seq<char>| #[trigger]
        results_by_call(blocks).contains_key(id) ==> (d.waiting.contains_key(id) && d.waiting[id]
            == results_by_call(blocks)[id]) || holds(
            d.input,
            output_item(id, blocks[results_by_call(blocks)[id] as int]),
        )
    &&& forall|k: int, id: Seq<char>|
        0 <= k < d.seen && #[trigger] calls_by(blocks[k], id) ==> !d.waiting.contains_key(id)
}

proof fn lemma_more_input(blocks: Seq<JsonV>, d: Draft, next: Draft)
    requires
        none_lost(blocks, d),
        next.seen == d.seen,
        next.waiting == d.waiting,
        forall|item: JsonV| holds(d.input, item) ==> #[trigger] holds(next.input, item),
    ensures
        none_lost(blocks, next),
{
    assert forall|k: int|
        0 <= k < next.seen && block_kind(#[trigger] blocks[k]) == "tool_result"@ && !is_paired(
            blocks,
            k,
        ) implies holds(next.input, output_item(answers(blocks[k]), blocks[k])) by {
        assert(holds(d.input, output_item(answers(blocks[k]), blocks[k])));
    }
    assert forall|id: Seq<char>| #[trigger] results_by_call(blocks).contains_key(id) implies (
    next.waiting.contains_key(id) && next.waiting[id] == results_by_call(blocks)[id]) || holds(
        next.input,
        output_item(id, blocks[results_by_call(blocks)[id] as int]),
    ) by {
        if !(d.waiting.contains_key(id) && d.waiting[id] == results_by_call(blocks)[id]) {
            assert(holds(
                d.input,
                output_item(id, blocks[results_by_call(blocks)[id] as int]),
            ));
        }
    }
}

proof fn lemma_pushed(d: Draft, item: JsonV)
    ensures
        forall|other: JsonV|
            holds(d.input, other) ==> #[trigger] holds(d.input.push(item), other),
        holds(d.input.push(item), item),
{
    assert forall|other: JsonV| holds(d.input, other) implies #[trigger] holds(
        d.input.push(item),
        other,
    ) by {
        lemma_holds_push(d.input, other, item);
    }
    lemma_holds_push(d.input, item, item);
}

proof fn lemma_block_loses_nothing(blocks: Seq<JsonV>, d: Draft, role: Seq<char>)
    requires
        none_lost(blocks, d),
        d.seen < blocks.len(),
    ensures
        none_lost(blocks, after_block(blocks, d, role)),
{
    lemma_keys_differ();
    let block = blocks[d.seen as int];
    let f = flushed(d, role);
    let next = after_block(blocks, d, role);
    lemma_pushed(d, message_item(role, d.content));
    lemma_more_input(blocks, d, f);
    let id = block.str_or("id"@, ""@);
    let called = Draft { input: f.input.push(block_call(block)), ..f };
    lemma_pushed(f, block_call(block));
    lemma_more_input(blocks, f, called);
    if block_kind(block) == "tool_use"@ {
        assert(calls_by(block, id));
        if f.waiting.contains_key(id) {
            lemma_pushed(called, output_item(id, blocks[f.waiting[id] as int]));
        } else {
            assert(f.waiting.remove(id) =~= f.waiting);
        }
        lemma_after_block_parts(blocks, called, next, id);
    } else if block_kind(block) == "tool_result"@ {
        lemma_pushed(f, output_item(answers(block), block));
        lemma_after_result_parts(blocks, f, next);
    } else {
        lemma_after_other_parts(blocks, d, next);
    }
}

proof fn lemma_after_other_parts(blocks: Seq<JsonV>, d: Draft, next: Draft)
    requires
        none_lost(blocks, d),
        d.seen < blocks.len(),
        next.seen == d.seen + 1,
        next.input == d.input,
        next.waiting == d.waiting,
        block_kind(blocks[d.seen as int]) != "tool_use"@,
        block_kind(blocks[d.seen as int]) != "tool_result"@,
    ensures
        none_lost(blocks, next),
{
}

proof fn lemma_after_result_parts(blocks: Seq<JsonV>, d: Draft, next: Draft)
    requires
        none_lost(blocks, d),
        d.seen < blocks.len(),
        next.seen == d.seen + 1,
        next.waiting == d.waiting,
        block_kind(blocks[d.seen as int]) == "tool_result"@,
        forall|item: JsonV| holds(d.input, item) ==> #[trigger] holds(next.input, item),
        !is_paired(blocks, d.seen as int) ==> holds(
            next.input,
            output_item(answers(blocks[d.seen as int]), blocks[d.seen as int]),
        ),
    ensures
        none_lost(blocks, next),
{
    lemma_keys_differ();
    let same = Draft { seen: d.seen, ..next };
    lemma_more_input(blocks, d, same);
}

proof fn lemma_after_block_parts(blocks: Seq<JsonV>, d: Draft, next: Draft, id: Seq<char>)
    requires
        none_lost(blocks, d),
        d.seen < blocks.len(),
        next.seen == d.seen + 1,
        block_kind(blocks[d.seen as int]) == "tool_use"@,
        blocks[d.seen as int].str_or("id"@, ""@) == id,
        next.waiting == d.waiting.remove(id),
        forall|item: JsonV| holds(d.input, item) ==> #[trigger] holds(next.input, item),
        d.waiting.contains_key(id) ==> holds(
            next.input,
            output_item(id, blocks[d.waiting[id] as int]),
        ),
    ensures
        none_lost(blocks, next),
{
    lemma_keys_differ();
    assert forall|k: int|
        0 <= k < next.seen && block_kind(#[trigger] blocks[k]) == "tool_result"@ && !is_paired(
            blocks,
            k,
        ) implies holds(next.input, output_item(answers(blocks[k]), blocks[k])) by {
        assert(holds(d.input, output_item(answers(blocks[k]), blocks[k])));
    }
    assert forall|other: Seq<char>| #[trigger]
        results_by_call(blocks).contains_key(other) implies (next.waiting.contains_key(other)
        && next.waiting[other] == results_by_call(blocks)[other]) || holds(
        next.input,
        output_item(other, blocks[results_by_call(blocks)[other] as int]),
    ) by {
        if !(d.waiting.contains_key(other) && d.waiting[other] == results_by_call(blocks)[other]) {
            assert(holds(
                d.input,
                output_item(other, blocks[results_by_call(blocks)[other] as int]),
            ));
        }
    }
    assert forall|k: int, other: Seq<char>|
        0 <= k < next.seen && #[trigger] calls_by(
            blocks[k],
            other,
        ) implies !next.waiting.contains_key(other) by {
        if k < d.seen {
            assert(!d.waiting.contains_key(other));
        }
    }
}

proof fn lemma_blocks_lose_nothing(blocks: Seq<JsonV>, d: Draft, role: Seq<char>, n: nat)
    requires
        none_lost(blocks, d),
        d.seen + n <= blocks.len(),
    ensures
        none_lost(blocks, after_blocks(blocks, d, role, n)),
        after_blocks(blocks, d, role, n).seen == d.seen + n,
    decreases n,
{
    if n > 0 {
        lemma_blocks_lose_nothing(blocks, d, role, (n - 1) as nat);
        lemma_block_loses_nothing(blocks, after_blocks(blocks, d, role, (n - 1) as nat), role);
    }
}

proof fn lemma_message_loses_nothing(blocks: Seq<JsonV>, d: Draft, message: JsonV)
    requires
        none_lost(blocks, d),
        d.seen + blocks_of(message).len() <= blocks.len(),
    ensures
        none_lost(blocks, after_message(blocks, d, message)),
{
    let role = role_of(message);
    let n = blocks_of(message).len();
    let done = after_blocks(blocks, d, role, n);
    let content = after_content(blocks, d, message);
    lemma_blocks_lose_nothing(blocks, d, role, n);
    lemma_pushed(done, message_item(role, done.content));
    lemma_more_input(blocks, done, flushed(done, role));
    if let Some(JsonV::Str(text)) = message.get("content"@) {
        let item = message_item(
            role,
            seq![crate::input_items::text_part(crate::input_items::text_kind(role), text)],
        );
        lemma_pushed(d, item);
        lemma_more_input(blocks, d, Draft { input: d.input.push(item), ..d });
    }
    assert(none_lost(blocks, content));
    if let Some(JsonV::Obj(call)) = message.get("function_call"@) {
        let item = lifted_call(JsonV::Obj(call));
        lemma_pushed(content, item);
        lemma_more_input(blocks, content, Draft { input: content.input.push(item), ..content });
    }
}

proof fn lemma_messages_lose_nothing(messages: Seq<JsonV>, k: int)
    requires
        0 <= k <= messages.len(),
    ensures
        none_lost(
            all_blocks(messages),
            after_messages(
                all_blocks(messages),
                first_draft(all_blocks(messages)),
                messages.take(k),
            ),
        ),
    decreases k,
{
    let blocks = all_blocks(messages);
    if k == 0 {
        assert(messages.take(0) =~= Seq::empty());
    } else {
        let before = after_messages(blocks, first_draft(blocks), messages.take(k - 1));
        lemma_messages_lose_nothing(messages, k - 1);
        lemma_blocks_done(messages, k - 1);
        lemma_blocks_of_one(messages, k - 1);
        assert(messages.take(k).drop_last() =~= messages.take(k - 1));
        lemma_message_loses_nothing(blocks, before, messages[k - 1]);
    }
}

proof fn lemma_result_kept(messages: Seq<JsonV>, k: int)
    requires
        0 <= k < all_blocks(messages).len(),
        block_kind(all_blocks(messages)[k]) == "tool_result"@,
    ensures
        ({
            let block = all_blocks(messages)[k];
            holds(input_items(messages), output_item(answers(block), block))
        }),
{
    let blocks = all_blocks(messages);
    let d = after_messages(blocks, first_draft(blocks), messages);
    let n = messages.len() as int;
    assert(messages.take(n) =~= messages);
    lemma_messages_lose_nothing(messages, n);
    lemma_blocks_done(messages, n);
    if is_paired(blocks, k) {
        let id = answers(blocks[k]);
        let j = choose|j: int| 0 <= j < blocks.len() && calls_by(#[trigger] blocks[j], id);
        assert(calls_by(blocks[j], id));
        assert(results_by_call(blocks).contains_key(id));
    }
}

/// No result of a tool is lost: for each block that is one, in any message, the input has the output
/// of the call that it names, with the content that it has.
pub proof fn every_result_is_in_the_input(messages: Seq<JsonV>, m: int, k: int, id: Seq<char>)
    requires
        0 <= m < messages.len(),
        !is_result(messages[m]),
        messages[m].array_at("content"@) matches Some(blocks) && 0 <= k < blocks.len()
            && is_result_for(blocks[k], id),
    ensures
        has_output_of(
            input_items(messages),
            id,
            messages[m].array_at("content"@)->Some_0[k].get("content"@),
        ),
{
    lemma_keys_differ();
    lemma_roles(messages[m]);
    lemma_blocks_of_one(messages, m);
    let block = messages[m].array_at("content"@)->Some_0[k];
    assert(block == blocks_of(messages[m])[k]);
    let at = all_blocks(messages.take(m)).len() + k;
    assert(all_blocks(messages)[at] == block);
    lemma_result_kept(messages, at);
    assert(answers(block) == id);
    lemma_output_item(id, block);
    let items = input_items(messages);
    let i = choose|i: int| 0 <= i < items.len() && #[trigger] items[i] == output_item(id, block);
    assert(is_output_of(items[i], id, block.get("content"@)));
}

/// No message of a tool is lost: the input has the output of the call that it names, with the
/// content that it has.
pub proof fn every_tool_message_is_in_the_input(messages: Seq<JsonV>, m: int, id: Seq<char>)
    requires
        0 <= m < messages.len(),
        is_result(messages[m]),
        messages[m].str_at("tool_call_id"@) == Some(id),
    ensures
        has_output_of(input_items(messages), id, messages[m].get("content"@)),
{
    lemma_keys_differ();
    lemma_roles(messages[m]);
    lemma_blocks_of_one(messages, m);
    let message = messages[m];
    let block = tool_block(message);
    assert(block == blocks_of(message)[0]);
    let at = all_blocks(messages.take(m)).len() as int;
    assert(all_blocks(messages)[at + 0] == block);
    assert(block.str_at("type"@) == Some("tool_result"@));
    assert(block.get("tool_use_id"@) is None);
    assert(block.get("tool_call_id"@) == Some(JsonV::Str(id)));
    assert(block.get("content"@) == message.get("content"@));
    lemma_result_kept(messages, at);
    assert(answers(block) == id);
    lemma_output_item(id, block);
    let items = input_items(messages);
    let i = choose|i: int| 0 <= i < items.len() && #[trigger] items[i] == output_item(id, block);
    assert(is_output_of(items[i], id, block.get("content"@)));
}

/// Whether a block is the last result of a tool among some blocks that names a call.
pub open spec fn is_last_result(blocks: Seq<JsonV>, id: Seq<char>, j: int) -> bool {
    &&& 0 <= j < blocks.len()
    &&& is_result_for(blocks[j], id)
    &&& forall|i: int| j < i < blocks.len() ==> !is_result_for(#[trigger] blocks[i], id)
}

/// Whether a block is the first among some blocks that calls a tool under an identifier.
pub open spec fn is_first_use(blocks: Seq<JsonV>, id: Seq<char>, k: int) -> bool {
    &&& 0 <= k < blocks.len()
    &&& blocks[k].str_at("type"@) == Some("tool_use"@)
    &&& text_at(blocks[k], "id"@) == id
    &&& forall|i: int|
        0 <= i < k ==> !((#[trigger] blocks[i]).str_at("type"@) == Some("tool_use"@) && text_at(
            blocks[i],
            "id"@,
        ) == id)
}

/// The item for a call stands at a place, and the output of the call stands behind it.
pub open spec fn is_pair_at(items: Seq<JsonV>, p: int, block: JsonV, result: JsonV) -> bool {
    let id = text_at(block, "id"@);
    &&& 0 <= p < items.len() - 1
    &&& items[p].str_at("type"@) == Some("function_call"@)
    &&& items[p].str_at("call_id"@) == Some(id)
    &&& items[p].str_at("name"@) == Some(text_at(block, "name"@))
    &&& items[p].get("arguments"@) == Some(member_or_object(block, "input"@))
    &&& is_output_of(items[p + 1], id, result.get("content"@))
}

/// The item for a call stands somewhere, and the output of the call stands behind it.
pub open spec fn has_pair(items: Seq<JsonV>, block: JsonV, result: JsonV) -> bool {
    exists|p: int| #[trigger] is_pair_at(items, p, block, result)
}

proof fn lemma_last_result(blocks: Seq<JsonV>, id: Seq<char>, j: int)
    requires
        id.len() > 0,
        is_last_result(blocks, id, j),
    ensures
        results_by_call(blocks).contains_key(id),
        results_by_call(blocks)[id] == j,
    decreases blocks.len(),
{
    lemma_keys_differ();
    reveal_strlit("");
    assert(""@.len() == 0);
    let n = blocks.len() - 1;
    let block = blocks[n];
    if j == n {
        assert(answers(block) == id);
    } else {
        let shorter = blocks.drop_last();
        assert(!is_result_for(block, id));
        assert forall|i: int| j < i < shorter.len() implies !is_result_for(
            #[trigger] shorter[i],
            id,
        ) by {
            assert(!is_result_for(blocks[i], id));
        }
        lemma_last_result(shorter, id, j);
        assert(block_kind(block) == "tool_result"@ && answers(block).len() > 0 ==> answers(block)
            != id);
    }
}

spec fn pairs_stand(blocks: Seq<JsonV>, d: Draft) -> bool {
    &&& d.seen <= blocks.len()
    &&& forall|id: Seq<char>| #[trigger]
        results_by_call(blocks).contains_key(id) && (forall|k: int|
            0 <= k < d.seen ==> !calls_by(#[trigger] blocks[k], id)) ==> d.waiting.contains_key(id)
            && d.waiting[id] == results_by_call(blocks)[id]
    &&& forall|k: int, j: int, id: Seq<char>|
        #![trigger is_first_use(blocks, id, k), is_last_result(blocks, id, j)]
        0 <= k < d.seen && id.len() > 0 && is_first_use(blocks, id, k) && is_last_result(
            blocks,
            id,
            j,
        ) ==> has_pair(d.input, blocks[k], blocks[j])
}

proof fn lemma_pair_extends(a: Seq<JsonV>, b: Seq<JsonV>, block: JsonV, result: JsonV)
    requires
        extends(a, b),
        has_pair(a, block, result),
    ensures
        has_pair(b, block, result),
{
    let p = choose|p: int| #[trigger] is_pair_at(a, p, block, result);
    assert(b[p] == a[p] && b[p + 1] == a[p + 1]);
    assert(is_pair_at(b, p, block, result));
}

proof fn lemma_block_keeps_pairs(blocks: Seq<JsonV>, d: Draft, role: Seq<char>)
    requires
        pairs_stand(blocks, d),
        d.seen < blocks.len(),
    ensures
        pairs_stand(blocks, after_block(blocks, d, role)),
{
    lemma_keys_differ();
    reveal_strlit("");
    assert(""@ =~= Seq::empty());
    let n = d.seen as int;
    let block = blocks[n];
    let own = block.str_or("id"@, ""@);
    let next = after_block(blocks, d, role);
    let f = flushed(d, role);
    assert(extends(d.input, f.input));
    assert(extends(d.input, next.input));
    assert forall|id: Seq<char>| #[trigger]
        results_by_call(blocks).contains_key(id) && (forall|k: int|
            0 <= k < next.seen ==> !calls_by(
                #[trigger] blocks[k],
                id,
            )) implies next.waiting.contains_key(id) && next.waiting[id] == results_by_call(
        blocks,
    )[id] by {
        assert(!calls_by(blocks[n], id));
        assert(forall|k: int| 0 <= k < d.seen ==> !calls_by(#[trigger] blocks[k], id));
        assert(d.waiting.contains_key(id));
    }
    assert forall|k: int, j: int, id: Seq<char>|
        #![trigger is_first_use(blocks, id, k), is_last_result(blocks, id, j)]
        0 <= k < next.seen && id.len() > 0 && is_first_use(blocks, id, k) && is_last_result(
            blocks,
            id,
            j,
        ) implies has_pair(next.input, blocks[k], blocks[j]) by {
        if k < n {
            lemma_pair_extends(d.input, next.input, blocks[k], blocks[j]);
        } else {
            lemma_last_result(blocks, id, j);
            assert(own == id);
            assert forall|i: int| 0 <= i < d.seen implies !calls_by(#[trigger] blocks[i], id) by {
                assert(!(blocks[i].str_at("type"@) == Some("tool_use"@) && text_at(
                    blocks[i],
                    "id"@,
                ) == id));
            }
            assert(d.waiting.contains_key(id) && d.waiting[id] == j);
            let call = block_call(block);
            let output = output_item(id, blocks[j]);
            assert(next.input == f.input.push(call).push(output));
            lemma_output_item(id, blocks[j]);
            let p = f.input.len() as int;
            assert(next.input[p] == call);
            assert(next.input[p + 1] == output);
            assert(is_pair_at(next.input, p, blocks[k], blocks[j]));
        }
    }
}

proof fn lemma_more_keeps_pairs(blocks: Seq<JsonV>, d: Draft, next: Draft)
    requires
        pairs_stand(blocks, d),
        next.seen == d.seen,
        next.waiting == d.waiting,
        extends(d.input, next.input),
    ensures
        pairs_stand(blocks, next),
{
    assert forall|k: int, j: int, id: Seq<char>|
        #![trigger is_first_use(blocks, id, k), is_last_result(blocks, id, j)]
        0 <= k < next.seen && id.len() > 0 && is_first_use(blocks, id, k) && is_last_result(
            blocks,
            id,
            j,
        ) implies has_pair(next.input, blocks[k], blocks[j]) by {
        lemma_pair_extends(d.input, next.input, blocks[k], blocks[j]);
    }
}

proof fn lemma_blocks_keep_pairs(blocks: Seq<JsonV>, d: Draft, role: Seq<char>, n: nat)
    requires
        pairs_stand(blocks, d),
        d.seen + n <= blocks.len(),
    ensures
        pairs_stand(blocks, after_blocks(blocks, d, role, n)),
        after_blocks(blocks, d, role, n).seen == d.seen + n,
    decreases n,
{
    if n > 0 {
        lemma_blocks_keep_pairs(blocks, d, role, (n - 1) as nat);
        lemma_block_keeps_pairs(blocks, after_blocks(blocks, d, role, (n - 1) as nat), role);
    }
}

proof fn lemma_messages_keep_pairs(messages: Seq<JsonV>, k: int)
    requires
        0 <= k <= messages.len(),
    ensures
        pairs_stand(
            all_blocks(messages),
            after_messages(
                all_blocks(messages),
                first_draft(all_blocks(messages)),
                messages.take(k),
            ),
        ),
    decreases k,
{
    let blocks = all_blocks(messages);
    if k == 0 {
        assert(messages.take(0) =~= Seq::empty());
    } else {
        let before = after_messages(blocks, first_draft(blocks), messages.take(k - 1));
        let message = messages[k - 1];
        let n = blocks_of(message).len();
        lemma_messages_keep_pairs(messages, k - 1);
        lemma_blocks_done(messages, k - 1);
        lemma_blocks_of_one(messages, k - 1);
        assert(messages.take(k).drop_last() =~= messages.take(k - 1));
        lemma_blocks_keep_pairs(blocks, before, role_of(message), n);
        let done = after_blocks(blocks, before, role_of(message), n);
        lemma_more_keeps_pairs(blocks, done, flushed(done, role_of(message)));
        let content = after_content(blocks, before, message);
        if message.get("content"@) is Some && message.get("content"@)->Some_0 is Str
            && !is_tool_message(message) {
            assert(n == 0);
            lemma_more_keeps_pairs(blocks, before, content);
        }
        lemma_more_keeps_pairs(blocks, content, after_message(blocks, before, message));
    }
}

/// The result of a tool stands behind its call, wherever it stands in the chat: the last result that
/// names the call, behind the first use of the identifier, with its whole content.
pub proof fn results_stand_behind_their_calls(
    messages: Seq<JsonV>,
    k: int,
    j: int,
    id: Seq<char>,
)
    requires
        id.len() > 0,
        is_first_use(all_blocks(messages), id, k),
        is_last_result(all_blocks(messages), id, j),
    ensures
        has_pair(input_items(messages), all_blocks(messages)[k], all_blocks(messages)[j]),
{
    let n = messages.len() as int;
    lemma_messages_keep_pairs(messages, n);
    lemma_blocks_done(messages, n);
    assert(messages.take(n) =~= messages);
}

} // verus!
