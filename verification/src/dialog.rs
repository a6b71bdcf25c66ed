//! File dialogs: what a page asks for, and what it is told.

use crate::json::{
    bool_at, bool_member, json_array, json_get, json_items, json_member, json_str, lemma_quoted_text,
    lemma_string_of_text, list_text, list_value, null_value, quoted, scalar_text, simple_text, string_at, string_member,
    string_of_text, string_value, value_text, value_texts, with_commas,
};
use crate::reply::{lemma_simple_list, ok_text, reads_as_reply, respond};
use crate::text::{maybe, same_text, views};
use vstd::prelude::*;
use vstd::string::*;

verus! {

/// The kinds of file dialogs.
#[derive(Debug, PartialEq, Eq, Structural, Clone, Copy)]
pub enum DialogKind {
    Save,
    Folder,
    OpenMany,
    OpenOne,
}

/// A kind of files: its name and their extensions.
#[derive(Debug)]
pub struct FileFilter {
    pub name: String,
    pub extensions: Vec<String>,
}

/// A file dialog that a page asks for.
#[derive(Debug)]
pub struct FileDialog {
    pub kind: DialogKind,
    pub title: Option<String>,
    pub directory: Option<String>,
    pub filters: Vec<FileFilter>,
}

/// A file dialog as plain values.
#[verifier::ext_equal]
pub ghost struct DialogView {
    pub kind: DialogKind,
    pub title: Option<Seq<char>>,
    pub directory: Option<Seq<char>>,
    pub filters: Seq<(Seq<char>, Seq<Seq<char>>)>,
}

/// Filters as plain sequences.
pub open spec fn filter_views(filters: Seq<FileFilter>) -> Seq<(Seq<char>, Seq<Seq<char>>)> {
    filters.map_values(|f: FileFilter| (f.name@, views(f.extensions@)))
}

impl View for FileDialog {
    type V = DialogView;

    open spec fn view(&self) -> DialogView {
        DialogView {
            kind: self.kind,
            title: maybe(self.title),
            directory: maybe(self.directory),
            filters: filter_views(self.filters@),
        }
    }
}

/// The kind of dialog that two words ask for: `save` and `dir` by name, and any
/// other opens files, several where several are wanted.
pub open spec fn kind_of(kind: Option<Seq<char>>, multi: Option<bool>) -> DialogKind {
    if kind == Some("save"@) {
        DialogKind::Save
    } else if kind == Some("dir"@) {
        DialogKind::Folder
    } else if multi == Some(true) {
        DialogKind::OpenMany
    } else {
        DialogKind::OpenOne
    }
}

/// The kind of dialog that two words ask for.
pub fn dialog_kind(kind: &Option<String>, multi: Option<bool>) -> (r: DialogKind)
    ensures
        r == kind_of(maybe(*kind), multi),
{
    proof {
        reveal_strlit("save");
        reveal_strlit("dir");
    }
    let multi = match multi {
        Some(multi) => multi,
        None => false,
    };
    match kind {
        Some(kind) => if same_text(kind.as_str(), "save") {
            DialogKind::Save
        } else if same_text(kind.as_str(), "dir") {
            DialogKind::Folder
        } else if multi {
            DialogKind::OpenMany
        } else {
            DialogKind::OpenOne
        },
        None => if multi {
            DialogKind::OpenMany
        } else {
            DialogKind::OpenOne
        },
    }
}

/// The word for the kind of dialog: under `kind`, or else under `dialog`.
pub open spec fn kind_word(args: Seq<char>) -> Option<Seq<char>> {
    match string_member(args, "kind"@) {
        Some(kind) => Some(kind),
        None => string_member(args, "dialog"@),
    }
}

/// The strings among some values.
pub open spec fn strings_of(items: Seq<Seq<char>>) -> Seq<Seq<char>>
    decreases items.len(),
{
    if items.len() == 0 {
        Seq::empty()
    } else {
        match string_of_text(items.last()) {
            Some(s) => strings_of(items.drop_last()).push(s),
            None => strings_of(items.drop_last()),
        }
    }
}

/// A filter of a name and a list: both must be there, and the list must not be
/// empty.
pub open spec fn usable(name: Option<Seq<char>>, extensions: Option<Seq<Seq<char>>>) -> Option<
    (Seq<char>, Seq<Seq<char>>),
> {
    match (name, extensions) {
        (Some(name), Some(extensions)) => if extensions.len() > 0 {
            Some((name, extensions))
        } else {
            None
        },
        _ => None,
    }
}

/// The extensions that a filter lists: the strings of its list.
pub open spec fn extensions_in(text: Seq<char>) -> Option<Seq<Seq<char>>> {
    match json_member(text, "extensions"@) {
        Some(list) => match json_items(list) {
            Some(items) => Some(strings_of(items)),
            None => None,
        },
        None => None,
    }
}

/// The filter in a value.
pub open spec fn filter_in(text: Seq<char>) -> Option<(Seq<char>, Seq<Seq<char>>)> {
    usable(string_member(text, "name"@), extensions_in(text))
}

/// The filters among some values.
pub open spec fn filters_in(items: Seq<Seq<char>>) -> Seq<(Seq<char>, Seq<Seq<char>>)>
    decreases items.len(),
{
    if items.len() == 0 {
        Seq::empty()
    } else {
        match filter_in(items.last()) {
            Some(filter) => filters_in(items.drop_last()).push(filter),
            None => filters_in(items.drop_last()),
        }
    }
}

/// The filters that a request names.
pub open spec fn filters_of(args: Seq<char>) -> Seq<(Seq<char>, Seq<Seq<char>>)> {
    match json_member(args, "filters"@) {
        Some(list) => match json_items(list) {
            Some(items) => filters_in(items),
            None => Seq::empty(),
        },
        None => Seq::empty(),
    }
}

/// The dialog that a request asks for.
pub open spec fn dialog_of(args: Seq<char>) -> DialogView {
    DialogView {
        kind: kind_of(kind_word(args), bool_member(args, "multi"@)),
        title: string_member(args, "title"@),
        directory: string_member(args, "defaultPath"@),
        filters: filters_of(args),
    }
}

fn read_strings(items: &Vec<serde_json::Value>) -> (r: Vec<String>)
    ensures
        views(r@) == strings_of(value_texts(items@)),
{
    let mut r: Vec<String> = Vec::new();
    let mut i: usize = 0;
    while i < items.len()
        invariant
            i <= items.len(),
            views(r@) == strings_of(value_texts(items@).take(i as int)),
        decreases items.len() - i,
    {
        let ghost done = r@;
        assert(value_texts(items@).take(i + 1).drop_last() == value_texts(items@).take(i as int));
        assert(value_texts(items@).take(i + 1).last() == value_text(items@[i as int]));
        let s = json_str(&items[i]);
        proof {
            lemma_string_of_text(s, value_text(items@[i as int]));
        }
        match s {
            Some(s) => {
                let ghost text = s@;
                r.push(s);
                assert(views(r@) == views(done).push(text));
            },
            None => {},
        }
        i += 1;
    }
    assert(value_texts(items@).take(i as int) == value_texts(items@));
    r
}

/// A filter of a name and a list, where they make one.
pub fn usable_filter(name: Option<String>, extensions: Option<Vec<String>>) -> (r: Option<
    FileFilter,
>)
    ensures
        usable(
            maybe(name),
            match extensions {
                Some(extensions) => Some(views(extensions@)),
                None => None,
            },
        ) == match r {
            Some(filter) => Some((filter.name@, views(filter.extensions@))),
            None => None,
        },
{
    match (name, extensions) {
        (Some(name), Some(extensions)) => {
            assert(views(extensions@).len() == extensions@.len());
            if extensions.len() > 0 {
                Some(FileFilter { name, extensions })
            } else {
                None
            }
        },
        _ => None,
    }
}

fn read_filter(value: &serde_json::Value) -> (r: Option<FileFilter>)
    ensures
        match r {
            Some(filter) => filter_in(value_text(*value)) == Some(
                (filter.name@, views(filter.extensions@)),
            ),
            None => filter_in(value_text(*value)) is None,
        },
{
    let name = string_at(value, "name");
    let extensions = match json_get(value, "extensions") {
        Some(list) => match json_array(list) {
            Some(items) => Some(read_strings(items)),
            None => None,
        },
        None => None,
    };
    usable_filter(name, extensions)
}

fn read_filters(args: &serde_json::Value) -> (r: Vec<FileFilter>)
    ensures
        filter_views(r@) == filters_of(value_text(*args)),
{
    let mut r: Vec<FileFilter> = Vec::new();
    match json_get(args, "filters") {
        Some(list) => match json_array(list) {
            Some(items) => {
                let mut i: usize = 0;
                while i < items.len()
                    invariant
                        i <= items.len(),
                        filter_views(r@) == filters_in(value_texts(items@).take(i as int)),
                    decreases items.len() - i,
                {
                    let ghost done = r@;
                    assert(value_texts(items@).take(i + 1).drop_last() == value_texts(items@).take(
                        i as int,
                    ));
                    assert(value_texts(items@).take(i + 1).last() == value_text(
                        items@[i as int],
                    ));
                    match read_filter(&items[i]) {
                        Some(filter) => {
                            let ghost view = (filter.name@, views(filter.extensions@));
                            r.push(filter);
                            assert(filter_views(r@) == filter_views(done).push(view));
                        },
                        None => {},
                    }
                    i += 1;
                }
                assert(value_texts(items@).take(i as int) == value_texts(items@));
            },
            None => {},
        },
        None => {},
    }
    assert(filter_views(r@) =~= filters_of(value_text(*args)));
    r
}

/// The dialog that a request asks for.
pub fn file_dialog(args: &serde_json::Value) -> (dialog: FileDialog)
    ensures
        dialog@ == dialog_of(value_text(*args)),
{
    let kind = match string_at(args, "kind") {
        Some(kind) => Some(kind),
        None => string_at(args, "dialog"),
    };
    FileDialog {
        kind: dialog_kind(&kind, bool_at(args, "multi")),
        title: string_at(args, "title"),
        directory: string_at(args, "defaultPath"),
        filters: read_filters(args),
    }
}

/// What the user picked: one path or none, or several or none.
#[derive(Debug)]
pub enum Picked {
    One(Option<String>),
    Many(Option<Vec<String>>),
}

/// The text of what the user picked. A dialog for several files gives a list in
/// any case; the others give nothing where it was closed.
pub open spec fn picked_text(picked: Picked) -> Seq<char> {
    match picked {
        Picked::One(path) => match maybe(path) {
            Some(path) => quoted(path),
            None => "null"@,
        },
        Picked::Many(paths) => match paths {
            Some(paths) => list_text(views(paths@).map_values(|path: Seq<char>| quoted(path))),
            None => list_text(Seq::empty()),
        },
    }
}

fn path_values(paths: &Vec<String>) -> (values: Vec<serde_json::Value>)
    ensures
        value_texts(values@) == views(paths@).map_values(|path: Seq<char>| quoted(path)),
{
    let mut values: Vec<serde_json::Value> = Vec::new();
    let mut i: usize = 0;
    while i < paths.len()
        invariant
            i <= paths.len(),
            values@.len() == i,
            forall|k: int| 0 <= k < i ==> value_text(#[trigger] values@[k]) == quoted(paths@[k]@),
        decreases paths.len() - i,
    {
        values.push(string_value(paths[i].as_str()));
        i += 1;
    }
    assert(value_texts(values@) =~= views(paths@).map_values(|path: Seq<char>| quoted(path)));
    values
}

proof fn lemma_picked_is_simple(picked: Picked)
    ensures
        simple_text(picked_text(picked), 99),
{
    match picked {
        Picked::One(path) => {
            if path is Some {
                assert(scalar_text(quoted(path->Some_0@)));
            }
        },
        Picked::Many(paths) => match paths {
            Some(paths) => {
                let items = views(paths@).map_values(|path: Seq<char>| quoted(path));
                assert forall|i: int| 0 <= i < items.len() implies simple_text(
                    #[trigger] items[i],
                    98,
                ) by {
                    assert(scalar_text(quoted(views(paths@)[i])));
                }
                lemma_simple_list(items, 99);
            },
            None => {
                lemma_simple_list(Seq::empty(), 99);
            },
        },
    }
}

/// The reply after a file dialog.
pub fn dialog_reply(id: u64, picked: &Picked) -> (text: String)
    ensures
        text@ == ok_text(id as int, picked_text(*picked)),
        reads_as_reply(text@, id),
{
    proof {
        lemma_picked_is_simple(*picked);
    }
    match picked {
        Picked::One(path) => match path {
            Some(path) => respond(id, string_value(path.as_str())),
            None => respond(id, null_value()),
        },
        Picked::Many(paths) => match paths {
            Some(paths) => respond(id, list_value(path_values(paths))),
            None => {
                let none: Vec<serde_json::Value> = Vec::new();
                assert(value_texts(none@) =~= Seq::<Seq<char>>::empty());
                respond(id, list_value(none))
            },
        },
    }
}

/// The words `save` and `dir` ask for their dialogs, whatever else is asked. With
/// any other word, or with none, several files are picked where that is asked for
/// and one otherwise.
pub proof fn law_words_ask_for_their_dialog(word: Option<Seq<char>>, multi: Option<bool>)
    ensures
        kind_of(Some("save"@), multi) == DialogKind::Save,
        kind_of(Some("dir"@), multi) == DialogKind::Folder,
        word != Some("save"@) && word != Some("dir"@) ==> kind_of(word, Some(true))
            == DialogKind::OpenMany && kind_of(word, Some(false)) == DialogKind::OpenOne && kind_of(
            word,
            None,
        ) == DialogKind::OpenOne,
{
    reveal_strlit("save");
    reveal_strlit("dir");
    assert("save"@.len() != "dir"@.len());
}

/// A dialog is what the members of the request say, each by itself; the kind may
/// stand under either of two names, of which `kind` comes first.
pub proof fn law_dialogs_follow_their_request(args: Seq<char>)
    ensures
        dialog_of(args).title == string_member(args, "title"@),
        dialog_of(args).directory == string_member(args, "defaultPath"@),
        string_member(args, "kind"@) matches Some(word) ==> dialog_of(args).kind == kind_of(
            Some(word),
            bool_member(args, "multi"@),
        ),
        string_member(args, "kind"@) is None ==> dialog_of(args).kind == kind_of(
            string_member(args, "dialog"@),
            bool_member(args, "multi"@),
        ),
        json_member(args, "filters"@) is None ==> dialog_of(args).filters.len() == 0,
        json_member(args, "filters"@) matches Some(list) ==> (json_items(list) is None
            ==> dialog_of(args).filters.len() == 0) && (json_items(list) matches Some(items)
            ==> dialog_of(args).filters == filters_in(items)),
{
}

/// Filters are read one after the other, and strings in them too: those of two
/// lists, one behind the other, are those of the first and then those of the second.
pub proof fn law_filters_keep_their_order(first: Seq<Seq<char>>, second: Seq<Seq<char>>)
    ensures
        filters_in(first + second) == filters_in(first) + filters_in(second),
        strings_of(first + second) == strings_of(first) + strings_of(second),
    decreases second.len(),
{
    if second.len() == 0 {
        assert(first + second == first);
        assert(filters_in(first) + filters_in(second) == filters_in(first));
        assert(strings_of(first) + strings_of(second) == strings_of(first));
    } else {
        let shorter = second.drop_last();
        law_filters_keep_their_order(first, shorter);
        assert((first + second).drop_last() == first + shorter);
        assert((first + second).last() == second.last());
        if filter_in(second.last()) is Some {
            let filter = filter_in(second.last())->0;
            assert((filters_in(first) + filters_in(shorter)).push(filter) == filters_in(first)
                + filters_in(shorter).push(filter));
        }
        if string_of_text(second.last()) is Some {
            let s = string_of_text(second.last())->0;
            assert((strings_of(first) + strings_of(shorter)).push(s) == strings_of(first)
                + strings_of(shorter).push(s));
        }
    }
}

/// A filter with a name and at least one extension is used with just these. One
/// that lacks its name, its list or all extensions is passed over, and so is what
/// is no string in a list.
pub proof fn law_filters_need_a_name_and_an_extension(
    text: Seq<char>,
    name: Seq<char>,
    list: Seq<char>,
    items: Seq<Seq<char>>,
    s: Seq<char>,
    other: Seq<char>,
)
    ensures
        string_member(text, "name"@) == Some(name) && json_member(text, "extensions"@) == Some(list)
            && json_items(list) == Some(items) && strings_of(items).len() > 0 ==> filters_in(
            seq![text],
        ) == seq![(name, strings_of(items))],
        string_member(text, "name"@) is None || json_member(text, "extensions"@) is None ==> filters_in(
            seq![text],
        ).len() == 0,
        json_member(text, "extensions"@) == Some(list) && (json_items(list) is None || (json_items(
            list,
        ) == Some(items) && strings_of(items).len() == 0)) ==> filters_in(seq![text]).len() == 0,
        strings_of(seq![quoted(s)]) == seq![s],
        (forall|t: Seq<char>| other != #[trigger] quoted(t)) ==> strings_of(seq![other]).len() == 0,
        strings_of(Seq::empty()).len() == 0,
        filters_in(Seq::empty()).len() == 0,
{
    assert(seq![text].drop_last() =~= Seq::<Seq<char>>::empty());
    assert(seq![text].last() == text);
    assert(filters_in(seq![text].drop_last()) =~= Seq::empty());
    lemma_quoted_text(s);
    assert(seq![quoted(s)].drop_last() =~= Seq::<Seq<char>>::empty());
    assert(seq![quoted(s)].last() == quoted(s));
    assert(strings_of(seq![quoted(s)].drop_last()) =~= Seq::<Seq<char>>::empty());
    assert(seq![other].drop_last() =~= Seq::<Seq<char>>::empty());
    assert(seq![other].last() == other);
}

/// What was picked is written as a string, several paths as a list of strings in
/// their order; a dialog that was closed gives null, or an empty list.
pub proof fn law_picked_paths_as_written(one: String, many: Vec<String>)
    ensures
        picked_text(Picked::One(Some(one))) == quoted(one@),
        picked_text(Picked::One(None)) == "null"@,
        picked_text(Picked::Many(None)) == seq!['[', ']'],
        picked_text(Picked::Many(Some(many))) == seq!['['] + with_commas(
            Seq::new(many@.len(), |i: int| quoted(many@[i]@)),
        ) + seq![']'],
{
    assert(list_text(Seq::empty()) =~= seq!['[', ']']);
    assert(views(many@).map_values(|path: Seq<char>| quoted(path)) =~= Seq::new(
        many@.len(),
        |i: int| quoted(many@[i]@),
    ));
}

} // verus!
