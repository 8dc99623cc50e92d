//! Reads the frame tags out of sprite-sheet metadata: JSON documents of the
//! shape `{"meta": {"frameTags": [{"name": .., "from": .., "to": ..}, ..]}}`.
//!
//! Whatever else a document holds is ignored. A document without `meta`,
//! without `frameTags` in it, or with a `frameTags` that is no array has no
//! tags. A field of a tag that is missing, or is not of the expected kind (a
//! string for `name`, an integer that fits an `i64` for `from` and `to`), is
//! read as missing.
//!
//! Parsing and the accessors of a parsed value are `serde_json`'s. What a
//! text parses to is not stated here: [`document_of`] names it.

use vstd::prelude::*;
use serde_json::Value;
use crate::animation::{
    all_bake, bake_sheets, baked_table, is_bake_of, outcome_view, sheet_view, sheets_view,
    table_view, tags_view, BakedTag, RawTag, RawTagView,
};
use crate::error::BakeError;
use crate::json::{document_of, json_of, jsons_of, member, parse_document, Json};

verus! {

/// The member of the object `json` under `key`; `None` where `json` is not an
/// object or has no such member.
pub open spec fn member_of(json: Json, key: Seq<char>) -> Option<Json> {
    match json {
        Json::Object(members) => if members.contains_key(key) {
            Some(members[key])
        } else {
            None
        },
        _ => None,
    }
}

/// The string under `key` in `json`; `None` where there is none.
pub open spec fn string_member(json: Json, key: Seq<char>) -> Option<Seq<char>> {
    match member_of(json, key) {
        Some(Json::Text(text)) => Some(text),
        _ => None,
    }
}

/// The integer under `key` in `json`; `None` where there is none that fits
/// in an `i64`.
pub open spec fn integer_member(json: Json, key: Seq<char>) -> Option<i64> {
    match member_of(json, key) {
        Some(Json::Integer(number)) => if i64::MIN <= number <= i64::MAX {
            Some(number as i64)
        } else {
            None
        },
        _ => None,
    }
}

/// The tag that the element `json` of a `frameTags` array holds.
pub open spec fn tag_of(json: Json) -> RawTagView {
    RawTagView {
        name: string_member(json, "name"@),
        from: integer_member(json, "from"@),
        to: integer_member(json, "to"@),
    }
}

/// The elements of `meta.frameTags` in `document`, in order; none where the
/// document has no such array.
pub open spec fn frame_tags_of(document: Json) -> Seq<Json> {
    match member_of(document, "meta"@) {
        Some(meta) => match member_of(meta, "frameTags"@) {
            Some(Json::Array(items)) => items,
            _ => Seq::empty(),
        },
        None => Seq::empty(),
    }
}

/// The tags of the sheet that `document` describes, in the document's order.
pub open spec fn tags_of(document: Json) -> Seq<RawTagView> {
    frame_tags_of(document).map_values(|json: Json| tag_of(json))
}

/// The tags of the sheet that `text` describes; `None` where the parser reads
/// no document from `text`.
pub open spec fn sheet_of(text: Seq<char>) -> Option<Seq<RawTagView>> {
    match document_of(text) {
        Some(document) => Some(tags_of(document)),
        None => None,
    }
}

/// The sheet that a source gives: nothing for a file that could not be read,
/// else what its text describes.
pub open spec fn sheet_of_source(source: Option<String>) -> Option<Seq<RawTagView>> {
    match source {
        Some(text) => sheet_of(text@),
        None => None,
    }
}

/// The sheets that the sources give, in the sources' order.
pub open spec fn sheets_of(sources: Seq<Option<String>>) -> Seq<Option<Seq<RawTagView>>> {
    sources.map_values(|source: Option<String>| sheet_of_source(source))
}

/// Reads the string under `key` in `value`, if there is one.
fn read_string(value: &Value, key: &str) -> (found: Option<String>)
    ensures
        match found {
            Some(text) => string_member(json_of(*value), key@) == Some(text@),
            None => string_member(json_of(*value), key@) is None,
        },
{
    match member(value, key) {
        Some(inner) => match inner.as_str() {
            Some(text) => Some(text.to_owned()),
            None => None,
        },
        None => None,
    }
}

/// Reads the integer under `key` in `value`, if there is one that fits.
fn read_integer(value: &Value, key: &str) -> (found: Option<i64>)
    ensures
        found == integer_member(json_of(*value), key@),
{
    match member(value, key) {
        Some(inner) => inner.as_i64(),
        None => None,
    }
}

/// Reads one element of a `frameTags` array.
pub fn read_tag(value: &Value) -> (tag: RawTag)
    ensures
        tag@ == tag_of(json_of(*value)),
{
    RawTag {
        name: read_string(value, "name"),
        from: read_integer(value, "from"),
        to: read_integer(value, "to"),
    }
}

/// Reads the frame tags of a parsed metadata document, in the document's
/// order.
pub fn read_tags(document: &Value) -> (tags: Vec<RawTag>)
    ensures
        tags_view(tags@) == tags_of(json_of(*document)),
{
    let mut tags: Vec<RawTag> = Vec::new();
    let meta = match member(document, "meta") {
        Some(meta) => meta,
        None => {
            proof {
                assert(tags_view(tags@) =~= tags_of(json_of(*document)));
            }
            return tags;
        },
    };
    let listed = match member(meta, "frameTags") {
        Some(listed) => listed,
        None => {
            proof {
                assert(tags_view(tags@) =~= tags_of(json_of(*document)));
            }
            return tags;
        },
    };
    let items = match listed.as_array() {
        Some(items) => items,
        None => {
            proof {
                assert(tags_view(tags@) =~= tags_of(json_of(*document)));
            }
            return tags;
        },
    };
    assert(frame_tags_of(json_of(*document)) == jsons_of(items@));
    let mut index: usize = 0;
    while index < items.len()
        invariant
            index <= items.len(),
            frame_tags_of(json_of(*document)) == jsons_of(items@),
            tags@.len() == index,
            forall|i: int| 0 <= i < index ==> (#[trigger] tags@[i])@ == tag_of(json_of(items@[i])),
        decreases items.len() - index,
    {
        tags.push(read_tag(&items[index]));
        index = index + 1;
    }
    proof {
        assert(tags_view(tags@) =~= tags_of(json_of(*document)));
    }
    tags
}

/// Parses the text of a metadata file and reads its frame tags; `None` where
/// the parser reads no document from the text.
pub fn parse_sheet(text: &str) -> (sheet: Option<Vec<RawTag>>)
    ensures
        sheet_view(sheet) == sheet_of(text@),
{
    match parse_document(text) {
        Ok(document) => Some(read_tags(&document)),
        Err(_) => None,
    }
}

/// Bakes the animation tags of sprite-sheet metadata files into one table.
///
/// `sources` holds, in the order the files were given, the text of each, or
/// `None` for a file that could not be read. The table lists the tags of the
/// first file, then those of the second, and so on. The bake fails with
/// [`BakeError::Load`] at the first file that could not be read or that the
/// parser reads no document from, and with [`BakeError::MalformedTag`] at the
/// first tag that ends before it starts, whichever comes first.
pub fn bake_animation_tags(sources: &Vec<Option<String>>) -> (result: Result<
    Vec<BakedTag>,
    BakeError,
>)
    ensures
        is_bake_of(sheets_of(sources@), outcome_view(result)),
        result is Ok <==> all_bake(sheets_of(sources@)),
        result matches Ok(table) ==> {
            &&& table_view(table@) == baked_table(sheets_of(sources@))
            &&& forall|i: int| 0 <= i < table@.len() ==> (#[trigger] table@[i]).frame_count >= 1
        },
{
    let mut sheets: Vec<Option<Vec<RawTag>>> = Vec::new();
    let mut file: usize = 0;
    while file < sources.len()
        invariant
            file <= sources.len(),
            sheets@.len() == file,
            forall|f: int|
                0 <= f < file ==> sheet_view(#[trigger] sheets@[f]) == sheet_of_source(sources@[f]),
        decreases sources.len() - file,
    {
        let sheet = match &sources[file] {
            Some(text) => parse_sheet(text.as_str()),
            None => None,
        };
        sheets.push(sheet);
        file = file + 1;
    }
    proof {
        assert(sheets_view(sheets@) =~= sheets_of(sources@));
    }
    bake_sheets(&sheets)
}

/// The files are taken one after the other: the sheets of the sources
/// `first` followed by the sources `second` are the sheets of `first`
/// followed by the sheets of `second`.
pub proof fn lemma_sheets_of_concat(first: Seq<Option<String>>, second: Seq<Option<String>>)
    ensures
        sheets_of(first + second) == sheets_of(first) + sheets_of(second),
{
    assert(sheets_of(first + second) =~= sheets_of(first) + sheets_of(second));
}

} // verus!
