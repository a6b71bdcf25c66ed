//! The replies that go back to a page: one JSON object on one line each.

use crate::json::{
    ascending, bool_member, bool_text, bool_value, json_member, json_parsed, json_text,
    lemma_bool_texts, lemma_number_of_text, lemma_quoted_text, list_text, list_value, member_texts,
    member_under, null_value, number_member, number_value, object_text, object_value, pair_texts, quoted,
    scalar_text, simple_text, string_member, string_value, text_before, value_text, value_texts,
    with_commas,
};
use crate::text::{decimal, maybe};
use vstd::prelude::*;
use vstd::string::*;

verus! {

/// The reply to request `id` with a result, given by its text.
pub open spec fn ok_text(id: int, result: Seq<char>) -> Seq<char> {
    object_text(
        seq![("id"@, decimal(id)), ("ok"@, bool_text(true)), ("result"@, result)],
    )
}

/// The reply that refuses request `id`.
pub open spec fn error_text(id: int, error: Seq<char>) -> Seq<char> {
    object_text(
        seq![("error"@, quoted(error)), ("id"@, decimal(id)), ("ok"@, bool_text(false))],
    )
}

/// The text of an object with one member.
pub open spec fn single_text(key: Seq<char>, value: Seq<char>) -> Seq<char> {
    object_text(seq![(key, value)])
}

/// True when a text reads back as a reply to request `id`: an object with that
/// number, and with either a result or the text of an error.
pub open spec fn reads_as_reply(text: Seq<char>, id: u64) -> bool {
    &&& json_parsed(text) == Ok::<Seq<char>, Seq<char>>(text)
    &&& number_member(text, "id"@) == Some(id)
    &&& match bool_member(text, "ok"@) {
        Some(true) => json_member(text, "result"@) is Some && json_member(text, "error"@) is None,
        Some(false) => string_member(text, "error"@) is Some && json_member(text, "result"@)
            is None,
        None => false,
    }
}

/// An object of simple values is simple.
pub(crate) proof fn lemma_simple_object(members: Seq<(Seq<char>, Seq<char>)>, depth: nat)
    requires
        depth > 0,
        ascending(members),
        forall|i: int|
            0 <= i < members.len() ==> simple_text((#[trigger] members[i]).1, (depth - 1) as nat),
    ensures
        simple_text(object_text(members), depth),
{
}

/// A list of simple values is simple.
pub(crate) proof fn lemma_simple_list(items: Seq<Seq<char>>, depth: nat)
    requires
        depth > 0,
        forall|i: int| 0 <= i < items.len() ==> simple_text(#[trigger] items[i], (depth - 1) as nat),
    ensures
        simple_text(list_text(items), depth),
{
}

/// Scalars are simple.
pub(crate) proof fn lemma_scalars(b: bool, n: u64, s: Seq<char>, depth: nat)
    ensures
        simple_text("null"@, depth),
        simple_text(bool_text(b), depth),
        simple_text(decimal(n as int), depth),
        simple_text(quoted(s), depth),
{
    assert(scalar_text(bool_text(b)));
    assert(scalar_text(decimal(n as int)));
    assert(scalar_text(quoted(s)));
}

proof fn lemma_members_of_three(members: Seq<(Seq<char>, Seq<char>)>, key: Seq<char>)
    requires
        members.len() == 3,
    ensures
        member_under(members, key) == (if members[2].0 == key {
            Some(members[2].1)
        } else if members[1].0 == key {
            Some(members[1].1)
        } else if members[0].0 == key {
            Some(members[0].1)
        } else {
            None
        }),
{
    reveal_with_fuel(member_under, 4);
    assert(members.drop_last().last() == members[1]);
    assert(members.drop_last().drop_last().last() == members[0]);
}

/// The keys of replies differ.
proof fn lemma_reply_keys()
    ensures
        "id"@ != "ok"@,
        "id"@ != "result"@,
        "id"@ != "error"@,
        "ok"@ != "result"@,
        "ok"@ != "error"@,
        "result"@ != "error"@,
{
    reveal_strlit("id");
    reveal_strlit("ok");
    reveal_strlit("result");
    reveal_strlit("error");
    assert("id"@[0] != "ok"@[0]);
    assert("id"@.len() != "result"@.len());
    assert("id"@.len() != "error"@.len());
    assert("ok"@.len() != "result"@.len());
    assert("ok"@.len() != "error"@.len());
    assert("result"@.len() != "error"@.len());
}

/// Two texts stand in order where their first characters do.
pub(crate) proof fn lemma_before_by_first(a: Seq<char>, b: Seq<char>)
    requires
        a.len() > 0,
        b.len() > 0,
        (a[0] as u32) < (b[0] as u32),
    ensures
        text_before(a, b),
{
    assert(a.take(0) == b.take(0));
}

/// One member of an object.
pub(crate) fn member(key: &str, value: serde_json::Value) -> (m: (String, serde_json::Value))
    ensures
        m.0@ == key@,
        m.1 == value,
{
    (key.to_owned(), value)
}

/// An object with one member.
pub(crate) fn single(key: &str, value: serde_json::Value) -> (r: serde_json::Value)
    ensures
        value_text(r) == single_text(key@, value_text(value)),
        simple_text(value_text(value), 98) ==> simple_text(value_text(r), 99),
{
    let mut members: Vec<(String, serde_json::Value)> = Vec::new();
    members.push(member(key, value));
    let ghost all = seq![(key@, value_text(value))];
    assert(member_texts(members@) == all);
    proof {
        if simple_text(value_text(value), 98) {
            lemma_simple_object(all, 99);
        }
    }
    object_value(members)
}

/// The reply to request `id` with a result.
pub(crate) fn respond(id: u64, result: serde_json::Value) -> (text: String)
    ensures
        text@ == ok_text(id as int, value_text(result)),
        json_member(text@, "result"@) == Some(value_text(result)),
        simple_text(value_text(result), 99) ==> reads_as_reply(text@, id),
{
    let mut members: Vec<(String, serde_json::Value)> = Vec::new();
    members.push(member("id", number_value(id)));
    members.push(member("ok", bool_value(true)));
    members.push(member("result", result));
    proof {
        reveal_strlit("id");
        reveal_strlit("ok");
        reveal_strlit("result");
        lemma_before_by_first("id"@, "ok"@);
        lemma_before_by_first("ok"@, "result"@);
        assert(member_texts(members@) == seq![
            ("id"@, decimal(id as int)),
            ("ok"@, bool_text(true)),
            ("result"@, value_text(result)),
        ]);
    }
    let ghost all = member_texts(members@);
    let text = json_text(&object_value(members));
    proof {
        lemma_reply_keys();
        lemma_members_of_three(all, "id"@);
        lemma_members_of_three(all, "ok"@);
        lemma_members_of_three(all, "result"@);
        lemma_members_of_three(all, "error"@);
        lemma_number_of_text(id);
        lemma_bool_texts();
        if simple_text(value_text(result), 99) {
            lemma_scalars(true, id, Seq::empty(), 99);
            lemma_simple_object(all, 100);
        }
    }
    text
}

/// The reply that refuses request `id`.
pub fn respond_err(id: u64, error: &str) -> (text: String)
    ensures
        text@ == error_text(id as int, error@),
        string_member(text@, "error"@) == Some(error@),
        reads_as_reply(text@, id),
{
    let mut members: Vec<(String, serde_json::Value)> = Vec::new();
    members.push(member("error", string_value(error)));
    members.push(member("id", number_value(id)));
    members.push(member("ok", bool_value(false)));
    proof {
        reveal_strlit("error");
        reveal_strlit("id");
        reveal_strlit("ok");
        lemma_before_by_first("error"@, "id"@);
        lemma_before_by_first("id"@, "ok"@);
        assert(member_texts(members@) == seq![
            ("error"@, quoted(error@)),
            ("id"@, decimal(id as int)),
            ("ok"@, bool_text(false)),
        ]);
    }
    let ghost all = member_texts(members@);
    let text = json_text(&object_value(members));
    proof {
        lemma_reply_keys();
        lemma_members_of_three(all, "id"@);
        lemma_members_of_three(all, "ok"@);
        lemma_members_of_three(all, "result"@);
        lemma_members_of_three(all, "error"@);
        lemma_number_of_text(id);
        lemma_bool_texts();
        lemma_quoted_text(error@);
        lemma_scalars(false, id, error@, 99);
        lemma_simple_object(all, 100);
    }
    text
}

/// A reply whose result is one switch, such as `{"opened":true}`.
pub fn flag_reply(id: u64, key: &str, value: bool) -> (text: String)
    ensures
        text@ == ok_text(id as int, single_text(key@, bool_text(value))),
        reads_as_reply(text@, id),
{
    proof {
        lemma_scalars(value, 0, Seq::empty(), 98);
    }
    respond(id, single(key, bool_value(value)))
}

/// A reply whose result is one text, such as `{"status":"checking"}`.
pub fn text_reply(id: u64, key: &str, value: &str) -> (text: String)
    ensures
        text@ == ok_text(id as int, single_text(key@, quoted(value@))),
        reads_as_reply(text@, id),
{
    proof {
        lemma_scalars(true, 0, value@, 98);
    }
    respond(id, single(key, string_value(value)))
}

/// The result of a call on a file: two members in order.
pub open spec fn pair_text(
    first: Seq<char>,
    a: Seq<char>,
    second: Seq<char>,
    b: Seq<char>,
) -> Seq<char> {
    object_text(seq![(first, a), (second, b)])
}

fn pair(first: &str, a: serde_json::Value, second: &str, b: serde_json::Value) -> (r:
    serde_json::Value)
    requires
        text_before(first@, second@),
    ensures
        value_text(r) == pair_text(first@, value_text(a), second@, value_text(b)),
        first@ != second@ ==> json_member(value_text(r), first@) == Some(value_text(a)),
        json_member(value_text(r), second@) == Some(value_text(b)),
        scalar_text(value_text(a)) && scalar_text(value_text(b)) ==> simple_text(value_text(r), 99),
{
    let mut members: Vec<(String, serde_json::Value)> = Vec::new();
    members.push(member(first, a));
    members.push(member(second, b));
    let ghost all = seq![(first@, value_text(a)), (second@, value_text(b))];
    assert(member_texts(members@) == all);
    proof {
        reveal_with_fuel(member_under, 3);
        assert(all.drop_last().last() == all[0]);
        if scalar_text(value_text(a)) && scalar_text(value_text(b)) {
            lemma_simple_object(all, 99);
        }
    }
    object_value(members)
}

/// True when the result of a reply reads back as the contents of a file and its
/// size.
pub open spec fn reads_as_file(text: Seq<char>, content: Seq<char>, size: u64) -> bool {
    json_member(text, "result"@) matches Some(result) && string_member(result, "content"@) == Some(
        content,
    ) && number_member(result, "size"@) == Some(size)
}

/// The reply with the contents of a file in base64, and its size.
pub fn contents_reply(id: u64, content: &str, size: u64) -> (text: String)
    ensures
        text@ == ok_text(
            id as int,
            pair_text("content"@, quoted(content@), "size"@, decimal(size as int)),
        ),
        reads_as_reply(text@, id),
        reads_as_file(text@, content@, size),
{
    proof {
        reveal_strlit("content");
        reveal_strlit("size");
        lemma_before_by_first("content"@, "size"@);
        assert("content"@.len() != "size"@.len());
        lemma_scalars(true, size, content@, 98);
        lemma_quoted_text(content@);
        lemma_number_of_text(size);
        assert(scalar_text(quoted(content@)) && scalar_text(decimal(size as int)));
    }
    respond(id, pair("content", string_value(content), "size", number_value(size)))
}

/// The reply after a file was written.
pub fn written_reply(id: u64, size: u64) -> (text: String)
    ensures
        text@ == ok_text(
            id as int,
            pair_text("ok"@, bool_text(true), "size"@, decimal(size as int)),
        ),
        reads_as_reply(text@, id),
{
    proof {
        reveal_strlit("ok");
        reveal_strlit("size");
        lemma_before_by_first("ok"@, "size"@);
        assert(scalar_text(bool_text(true)) && scalar_text(decimal(size as int)));
    }
    respond(id, pair("ok", bool_value(true), "size", number_value(size)))
}

/// The reply that says what stands at a path.
pub fn exists_reply(id: u64, exists: bool, is_dir: bool) -> (text: String)
    ensures
        text@ == ok_text(
            id as int,
            pair_text("exists"@, bool_text(exists), "isDir"@, bool_text(is_dir)),
        ),
        reads_as_reply(text@, id),
{
    proof {
        reveal_strlit("exists");
        reveal_strlit("isDir");
        lemma_before_by_first("exists"@, "isDir"@);
        assert(scalar_text(bool_text(exists)) && scalar_text(bool_text(is_dir)));
    }
    respond(id, pair("exists", bool_value(exists), "isDir", bool_value(is_dir)))
}

/// The reply that names a staged update.
pub fn staged_reply(id: u64, path: &str) -> (text: String)
    ensures
        text@ == ok_text(
            id as int,
            pair_text("path"@, quoted(path@), "status"@, quoted("ready"@)),
        ),
        reads_as_reply(text@, id),
{
    proof {
        reveal_strlit("path");
        reveal_strlit("status");
        lemma_before_by_first("path"@, "status"@);
        assert(scalar_text(quoted(path@)) && scalar_text(quoted("ready"@)));
    }
    respond(id, pair("path", string_value(path), "status", string_value("ready")))
}

/// One entry of a directory.
#[derive(Debug)]
pub struct DirEntry {
    pub name: String,
    pub is_dir: bool,
    pub is_file: bool,
    pub len: u64,
}

/// The text of a directory entry. Only a file has a size.
pub open spec fn entry_text(entry: DirEntry) -> Seq<char> {
    object_text(
        seq![
            ("isDir"@, bool_text(entry.is_dir)),
            ("name"@, quoted(entry.name@)),
            (
                "size"@,
                decimal(
                    if entry.is_file {
                        entry.len as int
                    } else {
                        0
                    },
                ),
            ),
        ],
    )
}

fn entry_value(entry: &DirEntry) -> (r: serde_json::Value)
    ensures
        value_text(r) == entry_text(*entry),
        simple_text(value_text(r), 97),
{
    let size: u64 = if entry.is_file {
        entry.len
    } else {
        0
    };
    let mut members: Vec<(String, serde_json::Value)> = Vec::new();
    members.push(member("isDir", bool_value(entry.is_dir)));
    members.push(member("name", string_value(&entry.name)));
    members.push(member("size", number_value(size)));
    proof {
        reveal_strlit("isDir");
        reveal_strlit("name");
        reveal_strlit("size");
        lemma_before_by_first("isDir"@, "name"@);
        lemma_before_by_first("name"@, "size"@);
        assert(member_texts(members@) == seq![
            ("isDir"@, bool_text(entry.is_dir)),
            ("name"@, quoted(entry.name@)),
            ("size"@, decimal(size as int)),
        ]);
        lemma_scalars(entry.is_dir, size, entry.name@, 96);
        lemma_simple_object(member_texts(members@), 97);
    }
    object_value(members)
}

/// The reply with the entries of a directory, in the order given.
pub fn entries_reply(id: u64, entries: &[DirEntry]) -> (text: String)
    ensures
        text@ == ok_text(
            id as int,
            single_text(
                "entries"@,
                list_text(entries@.map_values(|entry: DirEntry| entry_text(entry))),
            ),
        ),
        reads_as_reply(text@, id),
{
    let mut values: Vec<serde_json::Value> = Vec::new();
    let mut i: usize = 0;
    while i < entries.len()
        invariant
            i <= entries.len(),
            value_texts(values@) == entries@.take(i as int).map_values(
                |entry: DirEntry| entry_text(entry),
            ),
            forall|k: int|
                0 <= k < value_texts(values@).len() ==> simple_text(
                    #[trigger] value_texts(values@)[k],
                    97,
                ),
        decreases entries.len() - i,
    {
        let ghost done = values@;
        values.push(entry_value(&entries[i]));
        assert(value_texts(values@) == value_texts(done).push(entry_text(entries@[i as int])));
        assert(entries@.take(i + 1).map_values(|entry: DirEntry| entry_text(entry))
            == entries@.take(i as int).map_values(|entry: DirEntry| entry_text(entry)).push(
            entry_text(entries@[i as int]),
        ));
        i += 1;
    }
    assert(entries@.take(i as int) == entries@);
    proof {
        lemma_simple_list(value_texts(values@), 98);
    }
    respond(id, single("entries", list_value(values)))
}

/// What the host knows of the machine and of itself.
#[derive(Debug)]
pub struct SystemInfo {
    pub app_name: String,
    pub app_version: String,
    pub os: String,
    pub arch: String,
    pub cpus: u64,
    pub data_dir: String,
    pub exe_path: Option<String>,
}

/// The text of a string that may be missing.
pub open spec fn optional_text(s: Option<Seq<char>>) -> Seq<char> {
    match s {
        Some(s) => quoted(s),
        None => "null"@,
    }
}

pub(crate) fn optional_value(s: &Option<String>) -> (r: serde_json::Value)
    ensures
        value_text(r) == optional_text(maybe(*s)),
{
    match s {
        Some(s) => string_value(s),
        None => null_value(),
    }
}

/// The members of the system information, in the order of their keys.
pub open spec fn system_info_members(info: SystemInfo) -> Seq<(Seq<char>, Seq<char>)> {
    seq![
        ("appName"@, quoted(info.app_name@)),
        ("appVersion"@, quoted(info.app_version@)),
        ("arch"@, quoted(info.arch@)),
        ("cpus"@, decimal(info.cpus as int)),
        ("dataDir"@, quoted(info.data_dir@)),
        ("exePath"@, optional_text(maybe(info.exe_path))),
        ("os"@, quoted(info.os@)),
    ]
}

/// The reply with the system information.
pub fn system_info_reply(id: u64, info: &SystemInfo) -> (text: String)
    ensures
        text@ == ok_text(id as int, object_text(system_info_members(*info))),
        reads_as_reply(text@, id),
{
    let mut members: Vec<(String, serde_json::Value)> = Vec::new();
    members.push(member("appName", string_value(&info.app_name)));
    members.push(member("appVersion", string_value(&info.app_version)));
    members.push(member("arch", string_value(&info.arch)));
    members.push(member("cpus", number_value(info.cpus)));
    members.push(member("dataDir", string_value(&info.data_dir)));
    members.push(member("exePath", optional_value(&info.exe_path)));
    members.push(member("os", string_value(&info.os)));
    proof {
        assert(member_texts(members@) == system_info_members(*info));
        lemma_system_info_order(*info);
        lemma_system_info_is_simple(*info);
    }
    respond(id, object_value(members))
}

proof fn lemma_system_info_is_simple(info: SystemInfo)
    ensures
        simple_text(object_text(system_info_members(info)), 99),
{
    let members = system_info_members(info);
    lemma_system_info_order(info);
    assert forall|i: int| 0 <= i < members.len() implies simple_text(
        (#[trigger] members[i]).1,
        98,
    ) by {
        assert(scalar_text(quoted(info.app_name@)));
        assert(scalar_text(quoted(info.app_version@)));
        assert(scalar_text(quoted(info.arch@)));
        assert(scalar_text(decimal(info.cpus as int)));
        assert(scalar_text(quoted(info.data_dir@)));
        assert(scalar_text(optional_text(maybe(info.exe_path)))) by {
            if info.exe_path is Some {
                assert(scalar_text(quoted(info.exe_path->Some_0@)));
            }
        }
        assert(scalar_text(quoted(info.os@)));
        assert(i == 0 || i == 1 || i == 2 || i == 3 || i == 4 || i == 5 || i == 6);
    }
    lemma_simple_object(members, 99);
}

proof fn lemma_system_info_order(info: SystemInfo)
    ensures
        ascending(system_info_members(info)),
{
    let keys = system_info_members(info);
    reveal_strlit("appName");
    reveal_strlit("appVersion");
    reveal_strlit("arch");
    reveal_strlit("cpus");
    reveal_strlit("dataDir");
    reveal_strlit("exePath");
    reveal_strlit("os");
    assert("appName"@.take(3) == "appVersion"@.take(3));
    assert("appVersion"@.take(1) == "arch"@.take(1));
    lemma_before_by_first("arch"@, "cpus"@);
    lemma_before_by_first("cpus"@, "dataDir"@);
    lemma_before_by_first("dataDir"@, "exePath"@);
    lemma_before_by_first("exePath"@, "os"@);
    assert(text_before(keys[0].0, keys[1].0));
    assert(text_before(keys[1].0, keys[2].0));
    assert forall|i: int| 0 <= i < keys.len() - 1 implies text_before(
        #[trigger] keys[i].0,
        keys[i + 1].0,
    ) by {
        if i >= 2 {
            assert(i == 2 || i == 3 || i == 4 || i == 5);
        } else {
            assert(i == 0 || i == 1);
        }
    }
}

/// A member of an object as it is written: its key in quotation marks, a colon, and
/// its value.
pub open spec fn written(key: Seq<char>, value: Seq<char>) -> Seq<char> {
    quoted(key) + seq![':'] + value
}

/// The replies as they are written, and the objects in them: the members in order
/// in braces, with commas between them.
pub proof fn law_replies_as_written(
    id: int,
    text: Seq<char>,
    key: Seq<char>,
    value: Seq<char>,
    second: Seq<char>,
    other: Seq<char>,
)
    ensures
        ok_text(id, text) == seq!['{'] + written("id"@, decimal(id)) + seq![','] + written(
            "ok"@,
            "true"@,
        ) + seq![','] + written("result"@, text) + seq!['}'],
        error_text(id, text) == seq!['{'] + written("error"@, quoted(text)) + seq![','] + written(
            "id"@,
            decimal(id),
        ) + seq![','] + written("ok"@, "false"@) + seq!['}'],
        single_text(key, value) == seq!['{'] + written(key, value) + seq!['}'],
        pair_text(key, value, second, other) == seq!['{'] + written(key, value) + seq![',']
            + written(second, other) + seq!['}'],
{
    lemma_three_members(
        seq![("id"@, decimal(id)), ("ok"@, bool_text(true)), ("result"@, text)],
    );
    lemma_three_members(
        seq![("error"@, quoted(text)), ("id"@, decimal(id)), ("ok"@, bool_text(false))],
    );
    lemma_two_members(seq![(key, value), (second, other)]);
    assert(pair_texts(seq![(key, value)]) == seq![written(key, value)]);
}

pub(crate) proof fn lemma_two_members(members: Seq<(Seq<char>, Seq<char>)>)
    requires
        members.len() == 2,
    ensures
        object_text(members) == seq!['{'] + written(members[0].0, members[0].1) + seq![',']
            + written(members[1].0, members[1].1) + seq!['}'],
{
    let texts = pair_texts(members);
    assert(texts.drop_last().len() == 1 && texts.drop_last()[0] == texts[0]);
    reveal_with_fuel(with_commas, 3);
    assert(with_commas(texts) == texts[0] + seq![','] + texts[1]);
    assert(object_text(members) =~= seq!['{'] + texts[0] + seq![','] + texts[1] + seq!['}']);
}

pub(crate) proof fn lemma_three_members(members: Seq<(Seq<char>, Seq<char>)>)
    requires
        members.len() == 3,
    ensures
        object_text(members) == seq!['{'] + written(members[0].0, members[0].1) + seq![',']
            + written(members[1].0, members[1].1) + seq![','] + written(
            members[2].0,
            members[2].1,
        ) + seq!['}'],
{
    let texts = pair_texts(members);
    let two = texts.drop_last();
    assert(two.drop_last().len() == 1 && two.drop_last()[0] == texts[0]);
    assert(two.last() == texts[1] && texts.last() == texts[2]);
    reveal_with_fuel(with_commas, 4);
    assert(with_commas(two) == texts[0] + seq![','] + texts[1]);
    assert(with_commas(texts) == with_commas(two) + seq![','] + texts[2]);
    assert(object_text(members) =~= seq!['{'] + texts[0] + seq![','] + texts[1] + seq![',']
        + texts[2] + seq!['}']);
}

pub(crate) proof fn lemma_four_members(members: Seq<(Seq<char>, Seq<char>)>)
    requires
        members.len() == 4,
    ensures
        object_text(members) == seq!['{'] + written(members[0].0, members[0].1) + seq![',']
            + written(members[1].0, members[1].1) + seq![','] + written(
            members[2].0,
            members[2].1,
        ) + seq![','] + written(members[3].0, members[3].1) + seq!['}'],
{
    let texts = pair_texts(members);
    let three = texts.drop_last();
    let two = three.drop_last();
    assert(two.drop_last().len() == 1 && two.drop_last()[0] == texts[0]);
    assert(two.last() == texts[1] && three.last() == texts[2] && texts.last() == texts[3]);
    reveal_with_fuel(with_commas, 5);
    assert(with_commas(two) == texts[0] + seq![','] + texts[1]);
    assert(with_commas(three) == with_commas(two) + seq![','] + texts[2]);
    assert(with_commas(texts) == with_commas(three) + seq![','] + texts[3]);
    assert(object_text(members) =~= seq!['{'] + texts[0] + seq![','] + texts[1] + seq![',']
        + texts[2] + seq![','] + texts[3] + seq!['}']);
}

/// An entry of a directory is written with what it is, its name, and its size,
/// which is 0 for all that is no file.
pub proof fn law_entries_as_written(entry: DirEntry, size: int)
    requires
        size == (if entry.is_file {
            entry.len as int
        } else {
            0
        }),
    ensures
        entry.is_dir ==> entry_text(entry) == seq!['{'] + written("isDir"@, "true"@) + seq![',']
            + written("name"@, quoted(entry.name@)) + seq![','] + written("size"@, decimal(size))
            + seq!['}'],
        !entry.is_dir ==> entry_text(entry) == seq!['{'] + written("isDir"@, "false"@) + seq![',']
            + written("name"@, quoted(entry.name@)) + seq![','] + written("size"@, decimal(size))
            + seq!['}'],
{
    lemma_three_members(
        seq![
            ("isDir"@, bool_text(entry.is_dir)),
            ("name"@, quoted(entry.name@)),
            ("size"@, decimal(size)),
        ],
    );
}

/// The system information names the app and its version, the system, its kind of
/// processor and how many there are, the data directory and the path of the
/// program, which is null where it is not known; and nothing else.
pub proof fn law_system_information(info: SystemInfo)
    ensures
        system_info_members(info).len() == 7,
        system_info_members(info).contains(("appName"@, quoted(info.app_name@))),
        system_info_members(info).contains(("appVersion"@, quoted(info.app_version@))),
        system_info_members(info).contains(("os"@, quoted(info.os@))),
        system_info_members(info).contains(("arch"@, quoted(info.arch@))),
        system_info_members(info).contains(("cpus"@, decimal(info.cpus as int))),
        system_info_members(info).contains(("dataDir"@, quoted(info.data_dir@))),
        info.exe_path matches Some(path) ==> system_info_members(info).contains(
            ("exePath"@, quoted(path@)),
        ),
        info.exe_path is None ==> system_info_members(info).contains(("exePath"@, "null"@)),
{
    let all = system_info_members(info);
    assert(all[0] == ("appName"@, quoted(info.app_name@)));
    assert(all[1] == ("appVersion"@, quoted(info.app_version@)));
    assert(all[2] == ("arch"@, quoted(info.arch@)));
    assert(all[3] == ("cpus"@, decimal(info.cpus as int)));
    assert(all[4] == ("dataDir"@, quoted(info.data_dir@)));
    assert(all[5] == ("exePath"@, optional_text(maybe(info.exe_path))));
    assert(all[6] == ("os"@, quoted(info.os@)));
}

/// A text that may be missing is written as a string, or as null.
pub proof fn law_missing_text_is_null(s: Seq<char>)
    ensures
        optional_text(Some(s)) == quoted(s),
        optional_text(None) == "null"@,
{
}

} // verus!
