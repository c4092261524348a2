//! Turning structured content into plain text.

use vstd::prelude::*;
use crate::json::{gather, items_view, Json, JsonV};
use crate::text::{concat, join, join_strings, str_eq, texts};
use crate::value::compact_or;

verus! {

broadcast use crate::text::lemma_texts_push;

/// A text as it is, and any other value as it is displayed.
pub open spec fn arguments_text(value: JsonV) -> Seq<char> {
    match value {
        JsonV::Str(s) => s,
        _ => compact_or(value, ""@),
    }
}

/// One part of a tool's output: its `text`, or else the whole part as it is displayed.
pub open spec fn output_part(part: JsonV) -> Seq<char> {
    match part.str_at("text"@) {
        Some(text) => text,
        None => compact_or(part, ""@),
    }
}

/// The output of a tool as text: a list gives one line for each part.
pub open spec fn output_text(value: JsonV) -> Seq<char> {
    match value {
        JsonV::Str(s) => s,
        JsonV::Arr(parts) => join(gather(parts, |part: JsonV| Some(output_part(part))), "\n"@),
        _ => compact_or(value, ""@),
    }
}

/// The text that a content item contributes to a flattened message. Text items give their text
/// unless it is empty, images and files give a line that names them, and other items give nothing.
pub open spec fn content_part(item: JsonV) -> Option<Seq<char>> {
    let kind = item.str_or("type"@, ""@);
    let text = item.str_at("text"@);
    if (kind == "input_text"@ || kind == "output_text"@ || kind == "summary_text"@) && text is Some {
        if text->0.len() > 0 {
            text
        } else {
            None
        }
    } else if kind == "input_image"@ {
        match item.str_at("image_url"@) {
            Some(url) => Some("[input_image] "@ + url),
            None => Some("[input_image]"@),
        }
    } else if kind == "input_file"@ {
        match (item.str_at("file_id"@), item.str_at("file_data"@)) {
            (Some(id), _) => Some("[input_file] file_id="@ + id),
            (None, Some(data)) => Some("[input_file] file_data="@ + data),
            (None, None) => Some("[input_file]"@),
        }
    } else {
        None
    }
}

/// The lines that a content item contributes; a list contributes those of its items.
pub open spec fn item_lines(item: JsonV) -> Seq<Seq<char>>
    decreases item,
{
    match item {
        JsonV::Arr(items) => content_lines(items),
        _ => match content_part(item) {
            Some(line) => seq![line],
            None => Seq::empty(),
        },
    }
}

/// The lines that a list of content items contributes.
pub open spec fn content_lines(items: Seq<JsonV>) -> Seq<Seq<char>>
    decreases items,
{
    if items.len() == 0 {
        Seq::empty()
    } else {
        content_lines(items.drop_last()) + item_lines(items.last())
    }
}

/// A list of content items as text, one line for each item that contributes.
pub open spec fn flat_content(items: Seq<JsonV>) -> Seq<char> {
    join(content_lines(items), "\n"@)
}

/// The arguments of a call as text.
pub fn function_arguments_to_text(value: &Json) -> (r: String)
    ensures
        r@ == arguments_text(value@),
{
    match value {
        Json::Str(s) => s.clone(),
        other => other.display(),
    }
}

/// The output of a tool as text.
pub fn function_output_to_text(value: &Json) -> (r: String)
    ensures
        r@ == output_text(value@),
{
    match value {
        Json::Str(s) => s.clone(),
        Json::Arr(parts) => {
            let mut lines: Vec<String> = Vec::new();
            let mut i: usize = 0;
            let ghost list = items_view(parts@);
            while i < parts.len()
                invariant
                    i <= parts@.len(),
                    list == items_view(parts@),
                    texts(lines@) == gather(
                        list.take(i as int),
                        |part: JsonV| Some(output_part(part)),
                    ),
                decreases parts@.len() - i,
            {
                proof {
                    crate::json::lemma_gather_next(
                        list,
                        i as int,
                        |part: JsonV| Some(output_part(part)),
                    );
                }
                match parts[i].str_at("text") {
                    Some(text) => lines.push(text.to_owned()),
                    None => lines.push(parts[i].display()),
                }
                i += 1;
            }
            assert(list.take(i as int) =~= list);
            join_strings(&lines, "\n")
        },
        other => other.display(),
    }
}

fn part_of(item: &Json) -> (r: Option<String>)
    ensures
        match r {
            Some(text) => content_part(item@) == Some(text@),
            None => content_part(item@) is None,
        },
{
    let kind = item.str_or("type", "");
    if str_eq(kind, "input_text") || str_eq(kind, "output_text") || str_eq(kind, "summary_text") {
        if let Some(text) = item.str_at("text") {
            if text.is_empty() {
                return None;
            }
            return Some(text.to_owned());
        }
    }
    if str_eq(kind, "input_image") {
        return match item.str_at("image_url") {
            Some(url) => Some(concat("[input_image] ", url)),
            None => Some("[input_image]".to_owned()),
        };
    }
    if str_eq(kind, "input_file") {
        if let Some(id) = item.str_at("file_id") {
            return Some(concat("[input_file] file_id=", id));
        }
        return match item.str_at("file_data") {
            Some(data) => Some(concat("[input_file] file_data=", data)),
            None => Some("[input_file]".to_owned()),
        };
    }
    None
}

fn push_lines(lines: &mut Vec<String>, items: &Vec<Json>)
    ensures
        texts(final(lines)@) == texts(old(lines)@) + content_lines(items_view(items@)),
    decreases items@,
{
    let ghost list = items_view(items@);
    let ghost before = texts(lines@);
    let mut i: usize = 0;
    assert(before =~= before + content_lines(list.take(0)));
    while i < items.len()
        invariant
            i <= items@.len(),
            list == items_view(items@),
            texts(lines@) == before + content_lines(list.take(i as int)),
        decreases items@.len() - i,
    {
        let ghost here = texts(lines@);
        let item = &items[i];
        assert(list.take(i + 1).drop_last() =~= list.take(i as int));
        match item {
            Json::Arr(inner) => {
                assert(decreases_to!(items@ => items@[i as int]));
                assert(decreases_to!(items@[i as int] => items@[i as int]->Arr_0));
                assert(decreases_to!(items@[i as int]->Arr_0 => inner@));
                push_lines(lines, inner);
            },
            _ => {
                if let Some(line) = part_of(item) {
                    lines.push(line);
                    assert(texts(lines@) =~= here + seq![line@]);
                }
            },
        }
        assert(list[i as int] == item@);
        assert(texts(lines@) =~= here + item_lines(item@));
        i += 1;
        assert(texts(lines@) =~= before + content_lines(list.take(i as int)));
    }
    assert(list.take(i as int) =~= list);
}

/// A list of content items as text. Items inside of lists count like the others.
pub fn flatten_content_items(items: &Vec<Json>) -> (r: String)
    ensures
        r@ == flat_content(items_view(items@)),
{
    let mut lines: Vec<String> = Vec::new();
    push_lines(&mut lines, items);
    assert(texts(lines@) =~= content_lines(items_view(items@)));
    join_strings(&lines, "\n")
}

} // verus!
