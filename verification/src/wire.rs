//! The JSON form in which the agent sends backend results: field names and
//! layout as the serde derives of the shared types write them.

use vstd::prelude::*;

use crate::json::JsonValue;
use crate::status::{entry_view, EntryView};
use crate::text::{decimal, u64_to_decimal};
use crate::types::{
    ChangeKind, FileContentsBatchItem, FileContentsResponse, FileEntry, RepoStatus,
};

verus! {

/// `v` is the JSON number `n`.
pub open spec fn is_u32_json(v: JsonValue, n: u32) -> bool {
    v matches JsonValue::Number(t) && t@ == decimal(n as nat)
}

/// `v` is the JSON string `s`.
pub open spec fn is_str_json(v: JsonValue, s: Seq<char>) -> bool {
    v matches JsonValue::Str(t) && t@ == s
}

/// `v` is `null` for `None` and the string for `Some`.
pub open spec fn is_opt_str_json(v: JsonValue, o: Option<Seq<char>>) -> bool {
    match o {
        None => v is Null,
        Some(s) => is_str_json(v, s),
    }
}

/// The `snake_case` name of a change kind.
pub open spec fn kind_name(k: ChangeKind) -> Seq<char> {
    match k {
        ChangeKind::Added => "added"@,
        ChangeKind::Modified => "modified"@,
        ChangeKind::Deleted => "deleted"@,
        ChangeKind::Renamed => "renamed"@,
        ChangeKind::Typechange => "typechange"@,
    }
}

/// `f` is the field `name` with value `v`.
pub open spec fn is_field(f: (String, JsonValue), name: Seq<char>) -> bool {
    f.0@ == name
}

/// `v` is the JSON object of a file entry.
pub open spec fn is_entry_json(v: JsonValue, e: EntryView) -> bool {
    v matches JsonValue::Object(f) && f@.len() == 4 && is_field(f@[0], "path"@) && is_str_json(
        f@[0].1,
        e.0,
    ) && is_field(f@[1], "kind"@) && is_str_json(f@[1].1, kind_name(e.1)) && is_field(
        f@[2],
        "additions"@,
    ) && is_u32_json(f@[2].1, e.2) && is_field(f@[3], "deletions"@) && is_u32_json(f@[3].1, e.3)
}

/// `v` is the JSON array of the file entries `es`.
pub open spec fn is_entries_json(v: JsonValue, es: Seq<EntryView>) -> bool {
    v matches JsonValue::Array(a) && a@.len() == es.len() && forall|i: int|
        0 <= i < es.len() ==> is_entry_json(#[trigger] a@[i], es[i])
}

/// `v` is the JSON array of the strings `ss`.
pub open spec fn is_strings_json(v: JsonValue, ss: Seq<Seq<char>>) -> bool {
    v matches JsonValue::Array(a) && a@.len() == ss.len() && forall|i: int|
        0 <= i < ss.len() ==> is_str_json(#[trigger] a@[i], ss[i])
}

/// `v` is the JSON object of a repository status.
pub open spec fn is_status_json(v: JsonValue, s: RepoStatus) -> bool {
    v matches JsonValue::Object(f) && f@.len() == 3 && is_field(f@[0], "staged"@)
        && is_entries_json(f@[0].1, s.staged@.map_values(|e: FileEntry| entry_view(e)))
        && is_field(f@[1], "unstaged"@) && is_entries_json(
        f@[1].1,
        s.unstaged@.map_values(|e: FileEntry| entry_view(e)),
    ) && is_field(f@[2], "untracked"@) && is_strings_json(
        f@[2].1,
        s.untracked@.map_values(|p: String| p@),
    )
}

fn key(s: &str) -> (r: String)
    ensures
        r@ == s@,
{
    String::from_str(s)
}

fn str_json(s: &String) -> (v: JsonValue)
    ensures
        is_str_json(v, s@),
{
    JsonValue::Str(s.clone())
}

/// The JSON number of `n`.
pub fn u32_json(n: u32) -> (v: JsonValue)
    ensures
        is_u32_json(v, n),
{
    JsonValue::Number(u64_to_decimal(n as u64))
}

/// `null` or the JSON string.
pub fn opt_str_json(o: &Option<String>) -> (v: JsonValue)
    ensures
        is_opt_str_json(v, match o {
            Some(s) => Some(s@),
            None => None,
        }),
{
    match o {
        Some(s) => str_json(s),
        None => JsonValue::Null,
    }
}

/// A file entry's JSON names its kind in `snake_case`: `added`, `modified`,
/// `deleted`, `renamed` or `typechange`, so that the kind read back from the
/// name is the kind that was written (two entries with the same name have the
/// same kind).
pub proof fn law_entry_json_names_its_kind(v: JsonValue, e: EntryView, w: JsonValue, d: EntryView)
    requires
        is_entry_json(v, e),
        is_entry_json(w, d),
    ensures
        v matches JsonValue::Object(f) && f@[1].0@ == "kind"@ && (f@[1].1 matches JsonValue::Str(t)
            && t@ == (match e.1 {
            ChangeKind::Added => "added"@,
            ChangeKind::Modified => "modified"@,
            ChangeKind::Deleted => "deleted"@,
            ChangeKind::Renamed => "renamed"@,
            ChangeKind::Typechange => "typechange"@,
        })),
        (match (v, w) {
            (JsonValue::Object(f), JsonValue::Object(g)) => f@[1].1 == g@[1].1 ==> e.1 == d.1,
            _ => false,
        }),
{
    reveal_strlit("added");
    reveal_strlit("modified");
    reveal_strlit("deleted");
    reveal_strlit("renamed");
    reveal_strlit("typechange");
    assert("added"@[0] != "modified"@[0]);
    assert("added"@[0] != "deleted"@[0]);
    assert("added"@[0] != "renamed"@[0]);
    assert("added"@[0] != "typechange"@[0]);
    assert("modified"@[0] != "deleted"@[0]);
    assert("modified"@[0] != "renamed"@[0]);
    assert("modified"@[0] != "typechange"@[0]);
    assert("deleted"@[0] != "renamed"@[0]);
    assert("deleted"@[0] != "typechange"@[0]);
    assert("renamed"@[0] != "typechange"@[0]);
}

/// The JSON string of a change kind.
pub fn kind_json(k: ChangeKind) -> (v: JsonValue)
    ensures
        is_str_json(v, kind_name(k)),
        v matches JsonValue::Str(t) && t@ == (match k {
            ChangeKind::Added => "added"@,
            ChangeKind::Modified => "modified"@,
            ChangeKind::Deleted => "deleted"@,
            ChangeKind::Renamed => "renamed"@,
            ChangeKind::Typechange => "typechange"@,
        }),
{
    let s = match k {
        ChangeKind::Added => key("added"),
        ChangeKind::Modified => key("modified"),
        ChangeKind::Deleted => key("deleted"),
        ChangeKind::Renamed => key("renamed"),
        ChangeKind::Typechange => key("typechange"),
    };
    JsonValue::Str(s)
}

/// The JSON object of a file entry.
pub fn entry_json(e: &FileEntry) -> (v: JsonValue)
    ensures
        is_entry_json(v, entry_view(*e)),
{
    let mut f: Vec<(String, JsonValue)> = Vec::new();
    f.push((key("path"), str_json(&e.path)));
    f.push((key("kind"), kind_json(e.kind)));
    f.push((key("additions"), u32_json(e.additions)));
    f.push((key("deletions"), u32_json(e.deletions)));
    JsonValue::Object(f)
}

/// The JSON array of file entries.
pub fn entries_json(es: &Vec<FileEntry>) -> (v: JsonValue)
    ensures
        is_entries_json(v, es@.map_values(|e: FileEntry| entry_view(e))),
{
    let mut a: Vec<JsonValue> = Vec::new();
    let mut i: usize = 0;
    while i < es.len()
        invariant
            i <= es.len(),
            a@.len() == i,
            forall|j: int|
                0 <= j < i ==> is_entry_json(#[trigger] a@[j], entry_view(es@[j])),
        decreases es.len() - i,
    {
        a.push(entry_json(&es[i]));
        i = i + 1;
    }
    JsonValue::Array(a)
}

/// The JSON array of strings.
pub fn strings_json(ss: &Vec<String>) -> (v: JsonValue)
    ensures
        is_strings_json(v, ss@.map_values(|p: String| p@)),
{
    let mut a: Vec<JsonValue> = Vec::new();
    let mut i: usize = 0;
    while i < ss.len()
        invariant
            i <= ss.len(),
            a@.len() == i,
            forall|j: int| 0 <= j < i ==> is_str_json(#[trigger] a@[j], ss@[j]@),
        decreases ss.len() - i,
    {
        a.push(str_json(&ss[i]));
        i = i + 1;
    }
    JsonValue::Array(a)
}

/// The JSON object of a repository status.
pub fn status_json(s: &RepoStatus) -> (v: JsonValue)
    ensures
        is_status_json(v, *s),
{
    let mut f: Vec<(String, JsonValue)> = Vec::new();
    f.push((key("staged"), entries_json(&s.staged)));
    f.push((key("unstaged"), entries_json(&s.unstaged)));
    f.push((key("untracked"), strings_json(&s.untracked)));
    JsonValue::Object(f)
}

/// The JSON of an optional file side or error text: `null` or a string.
pub open spec fn opt_view(o: Option<String>) -> Option<Seq<char>> {
    match o {
        Some(s) => Some(s@),
        None => None,
    }
}

/// `v` is the JSON object of a file-contents response.
pub open spec fn is_contents_json(v: JsonValue, r: FileContentsResponse) -> bool {
    v matches JsonValue::Object(f) && f@.len() == 5 && is_field(f@[0], "name"@) && is_str_json(
        f@[0].1,
        r.name@,
    ) && is_field(f@[1], "old_content"@) && is_opt_str_json(f@[1].1, opt_view(r.old_content))
        && is_field(f@[2], "old_binary"@) && f@[2].1 == JsonValue::Bool(r.old_binary) && is_field(
        f@[3],
        "new_content"@,
    ) && is_opt_str_json(f@[3].1, opt_view(r.new_content)) && is_field(f@[4], "new_binary"@)
        && f@[4].1 == JsonValue::Bool(r.new_binary)
}

/// `v` is the JSON object of a batch item.
pub open spec fn is_item_json(v: JsonValue, it: FileContentsBatchItem) -> bool {
    v matches JsonValue::Object(f) && f@.len() == 3 && is_field(f@[0], "path"@) && is_str_json(
        f@[0].1,
        it.path@,
    ) && is_field(f@[1], "response"@) && (match it.response {
        None => f@[1].1 is Null,
        Some(r) => is_contents_json(f@[1].1, r),
    }) && is_field(f@[2], "error"@) && is_opt_str_json(f@[2].1, opt_view(it.error))
}

/// `v` is the JSON array of batch items.
pub open spec fn is_items_json(v: JsonValue, items: Seq<FileContentsBatchItem>) -> bool {
    v matches JsonValue::Array(a) && a@.len() == items.len() && forall|i: int|
        0 <= i < items.len() ==> is_item_json(#[trigger] a@[i], items[i])
}

/// The JSON object of a file-contents response.
pub fn contents_json(r: &FileContentsResponse) -> (v: JsonValue)
    ensures
        is_contents_json(v, *r),
{
    let mut f: Vec<(String, JsonValue)> = Vec::new();
    f.push((key("name"), str_json(&r.name)));
    f.push((key("old_content"), opt_str_json(&r.old_content)));
    f.push((key("old_binary"), JsonValue::Bool(r.old_binary)));
    f.push((key("new_content"), opt_str_json(&r.new_content)));
    f.push((key("new_binary"), JsonValue::Bool(r.new_binary)));
    JsonValue::Object(f)
}

/// The JSON object of a batch item.
pub fn item_json(it: &FileContentsBatchItem) -> (v: JsonValue)
    ensures
        is_item_json(v, *it),
{
    let mut f: Vec<(String, JsonValue)> = Vec::new();
    f.push((key("path"), str_json(&it.path)));
    let r = match &it.response {
        Some(r) => contents_json(r),
        None => JsonValue::Null,
    };
    f.push((key("response"), r));
    f.push((key("error"), opt_str_json(&it.error)));
    JsonValue::Object(f)
}

/// The JSON array of batch items.
pub fn items_json(items: &Vec<FileContentsBatchItem>) -> (v: JsonValue)
    ensures
        is_items_json(v, items@),
{
    let mut a: Vec<JsonValue> = Vec::new();
    let mut i: usize = 0;
    while i < items.len()
        invariant
            i <= items.len(),
            a@.len() == i,
            forall|j: int| 0 <= j < i ==> is_item_json(#[trigger] a@[j], items@[j]),
        decreases items.len() - i,
    {
        a.push(item_json(&items[i]));
        i = i + 1;
    }
    JsonValue::Array(a)
}

} // verus!
