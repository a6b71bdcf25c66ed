//! The files of the bundle, served to the pages of the app.

use crate::archive::{
    archive_files, index_of, law_every_name_is_indexed, lowercase, open_archive, to_lowercase,
    try_read, zip_opened, NameIndex,
};
use crate::bridge::BRIDGE_JS;
use crate::codec::utf8_text;
use crate::html::{inject_after_head, injected, injection_point, law_injection_keeps_the_page};
use crate::mime::{is_known_asset_ext, mime_of, static_file};
use crate::text::{
    chars_of, concat3, last_place, law_first_and_last_separator, law_leading_characters_go,
    law_occurrences_are_replaced, maybe, replace, replaced, rfind, same_text, stands_before,
    string_range, trim_start_char, views, without_leading,
};
use crate::urls::{parse_url, url_parsed, UrlView};
use vstd::prelude::*;
use vstd::string::*;
use vstd::utf8::{decode_utf8, encode_utf8, encode_utf8_decode_utf8, valid_utf8};

verus! {

/// What `percent_encoding::percent_decode_str` and its lossy UTF-8 reading make
/// of a text.
pub uninterp spec fn percent_decoded(text: Seq<char>) -> Seq<char>;

/// `percent_encoding::percent_decode_str` with `decode_utf8_lossy`. A text
/// without a percent sign stays as it is.
#[verifier::external_body]
pub(crate) fn percent_decode(text: &str) -> (r: String)
    ensures
        r@ == percent_decoded(text@),
        !text@.contains('%') ==> r@ == text@,
{
    percent_encoding::percent_decode_str(text).decode_utf8_lossy().to_string()
}

// ---------------------------------------------------------------------------
// What is asked for
// ---------------------------------------------------------------------------

/// The path of a request whose address cannot be parsed: the address without
/// the scheme and the host of the app.
pub open spec fn bare_path(uri: Seq<char>) -> Seq<char> {
    let a = replaced(uri, "brix://app/"@, ""@);
    let b = replaced(a, "brix://"@, ""@);
    let c = replaced(b, "http://brix.app/"@, ""@);
    replaced(c, "https://brix.app/"@, ""@)
}

/// The file that a decoded path asks for: the entry of the app for the root.
pub open spec fn asked_file(decoded: Seq<char>, entry: Seq<char>) -> Seq<char> {
    let path = without_leading(decoded, '/');
    if path.len() == 0 {
        entry
    } else {
        path
    }
}

/// The file that a request asks for.
pub open spec fn requested_file(uri: Seq<char>, entry: Seq<char>) -> Seq<char> {
    let raw = match url_parsed(uri) {
        Ok(url) => url.path,
        Err(_) => bare_path(uri),
    };
    asked_file(percent_decoded(raw), entry)
}

/// The file that a decoded path asks for: the entry of the app for the root.
pub fn file_of_path(decoded: &str, entry_path: &str) -> (r: String)
    ensures
        r@ == asked_file(decoded@, entry_path@),
{
    let path = trim_start_char(decoded, '/');
    if path.as_str().is_empty() {
        entry_path.to_owned()
    } else {
        path
    }
}

/// The file that a request asks for.
pub fn request_file(uri: &str, entry_path: &str) -> (r: String)
    ensures
        r@ == requested_file(uri@, entry_path@),
{
    let raw = match parse_url(uri) {
        Ok(url) => url.path,
        Err(_) => {
            proof {
                reveal_strlit("brix://app/");
                reveal_strlit("brix://");
                reveal_strlit("http://brix.app/");
                reveal_strlit("https://brix.app/");
            }
            let a = replace(uri, "brix://app/", "");
            let b = replace(a.as_str(), "brix://", "");
            let c = replace(b.as_str(), "http://brix.app/", "");
            replace(c.as_str(), "https://brix.app/", "")
        },
    };
    let decoded = percent_decode(raw.as_str());
    file_of_path(decoded.as_str(), entry_path)
}

// ---------------------------------------------------------------------------
// Which file answers
// ---------------------------------------------------------------------------

/// The name that an index has under the lower case of a name.
pub open spec fn indexed(index: Map<Seq<char>, Seq<char>>, name: Seq<char>) -> Option<Seq<char>> {
    if index.contains_key(lowercase(name)) {
        Some(index[lowercase(name)])
    } else {
        None
    }
}

/// The path beside the entry, where the entry lies in a directory.
pub open spec fn beside_entry(path: Seq<char>, entry: Seq<char>) -> Option<Seq<char>> {
    if last_place(entry, '/') >= 0 {
        Some(entry.take(last_place(entry, '/')) + seq!['/'] + path)
    } else {
        None
    }
}

/// A name, if it is there.
pub open spec fn listed(name: Option<Seq<char>>) -> Seq<Seq<char>> {
    match name {
        Some(name) => seq![name],
        None => Seq::empty(),
    }
}

/// The files that may answer a request, in the order in which they are tried:
/// the path itself, the same in another letter case, or else the path beside
/// the entry, in its own letter case and in another; and for what is no static
/// file the entry, since it is a route inside the page.
pub open spec fn ordered(
    path: Seq<char>,
    entry: Seq<char>,
    other_case: Option<Seq<char>>,
    beside_case: Option<Seq<char>>,
) -> Seq<Seq<char>> {
    let others = if other_case is Some {
        listed(other_case)
    } else if beside_entry(path, entry) is Some {
        listed(beside_entry(path, entry)) + listed(beside_case)
    } else {
        Seq::empty()
    };
    let route = if static_file(path) {
        Seq::empty()
    } else {
        seq![entry]
    };
    seq![path] + others + route
}

/// The name in an index of the path beside the entry.
pub open spec fn indexed_beside(
    path: Seq<char>,
    entry: Seq<char>,
    index: Map<Seq<char>, Seq<char>>,
) -> Option<Seq<char>> {
    match beside_entry(path, entry) {
        Some(beside) => indexed(index, beside),
        None => None,
    }
}

/// The files that may answer a request, with other letter cases looked up in an
/// index.
pub open spec fn candidates(
    path: Seq<char>,
    entry: Seq<char>,
    index: Map<Seq<char>, Seq<char>>,
) -> Seq<Seq<char>> {
    ordered(path, entry, indexed(index, path), indexed_beside(path, entry, index))
}

fn path_beside(path: &str, entry_path: &str) -> (r: Option<String>)
    ensures
        maybe(r) == beside_entry(path@, entry_path@),
{
    let chars = chars_of(entry_path);
    match rfind(&chars, '/') {
        Some(place) => {
            assert(chars@.subrange(0, place as int) == entry_path@.take(place as int));
            let dir = string_range(&chars, 0, place);
            proof {
                reveal_strlit("/");
                assert("/"@ == seq!['/']);
            }
            Some(concat3(dir.as_str(), "/", path))
        },
        None => None,
    }
}

/// The files that may answer a request, in the order in which they are tried,
/// given the names that the path and the path beside the entry have in another
/// letter case.
pub fn asset_order(
    path: &str,
    entry_path: &str,
    other_case: Option<String>,
    beside_case: Option<String>,
) -> (names: Vec<String>)
    ensures
        views(names@) == ordered(path@, entry_path@, maybe(other_case), maybe(beside_case)),
{
    let ghost expected = ordered(path@, entry_path@, maybe(other_case), maybe(beside_case));
    let mut names: Vec<String> = Vec::new();
    names.push(path.to_owned());
    match other_case {
        Some(name) => {
            names.push(name);
        },
        None => match path_beside(path, entry_path) {
            Some(beside) => {
                names.push(beside);
                match beside_case {
                    Some(name) => {
                        names.push(name);
                    },
                    None => {},
                }
            },
            None => {},
        },
    }
    if !is_known_asset_ext(path) {
        names.push(entry_path.to_owned());
    }
    assert(views(names@) =~= expected);
    names
}

/// The files that may answer a request, in the order in which they are tried.
pub fn asset_names(path: &str, entry_path: &str, index: &NameIndex) -> (names: Vec<String>)
    ensures
        views(names@) == candidates(path@, entry_path@, index@),
{
    let lower = to_lowercase(path);
    let other_case = index.get(lower.as_str());
    let beside_case = match path_beside(path, entry_path) {
        Some(beside) => {
            let lower = to_lowercase(beside.as_str());
            index.get(lower.as_str())
        },
        None => None,
    };
    asset_order(path, entry_path, other_case, beside_case)
}

/// The first of some names that is a file.
pub open spec fn first_file(files: Map<Seq<char>, Seq<u8>>, names: Seq<Seq<char>>) -> Option<
    Seq<char>,
>
    decreases names.len(),
{
    if names.len() == 0 {
        None
    } else if files.contains_key(names[0]) {
        Some(names[0])
    } else {
        first_file(files, names.drop_first())
    }
}

fn read_first(
    archive: &mut zip::ZipArchive<std::io::Cursor<&[u8]>>,
    names: &Vec<String>,
) -> (r: Option<(String, Vec<u8>)>)
    ensures
        match r {
            Some((mime, bytes)) => first_file(archive_files(*old(archive)), views(names@)) matches Some(
                name,
            ) && mime@ == mime_of(name) && bytes@ == archive_files(*old(archive))[name],
            None => first_file(archive_files(*old(archive)), views(names@)) is None,
        },
{
    let ghost files = archive_files(*archive);
    let mut i: usize = 0;
    assert(views(names@).skip(0) == views(names@));
    while i < names.len()
        invariant
            i <= names.len(),
            files == archive_files(*archive),
            files == archive_files(*old(archive)),
            first_file(files, views(names@)) == first_file(files, views(names@).skip(i as int)),
        decreases names.len() - i,
    {
        assert(views(names@).skip(i as int)[0] == names@[i as int]@);
        assert(views(names@).skip(i as int).drop_first() == views(names@).skip(i + 1));
        match try_read(archive, names[i].as_str()) {
            Some(found) => {
                return Some(found);
            },
            None => {},
        }
        i += 1;
    }
    assert(views(names@).skip(i as int).len() == 0);
    None
}

// ---------------------------------------------------------------------------
// The answer
// ---------------------------------------------------------------------------

/// An answer to a page.
#[derive(Debug)]
pub struct AssetResponse {
    pub status: u16,
    pub headers: Vec<(String, String)>,
    pub body: Vec<u8>,
}

/// The script tag with the bridge.
pub open spec fn bridge_tag() -> Seq<char> {
    "<script>"@ + BRIDGE_JS@ + "</script>"@
}

/// The bytes that are sent for a file. A page gets the bridge, so that it is
/// there before the page's own scripts run; bytes that are no text are sent as
/// they are.
pub open spec fn sent_bytes(mime: Seq<char>, bytes: Seq<u8>) -> Seq<u8> {
    if mime == "text/html"@ && valid_utf8(bytes) {
        encode_utf8(injected(decode_utf8(bytes), bridge_tag()))
    } else {
        bytes
    }
}

/// The headers of a file: its media type, and the leave for every origin to
/// read it, since in server mode the page is not of the app's own origin.
pub open spec fn sent_headers(mime: Seq<char>) -> Seq<(Seq<char>, Seq<char>)> {
    seq![("Content-Type"@, mime), ("Access-Control-Allow-Origin"@, "*"@)]
}

/// Headers as plain sequences.
pub open spec fn header_views(headers: Seq<(String, String)>) -> Seq<(Seq<char>, Seq<char>)> {
    headers.map_values(|h: (String, String)| (h.0@, h.1@))
}

/// The answer with a file, or that there is none.
pub fn asset_response(found: Option<(String, Vec<u8>)>) -> (r: AssetResponse)
    ensures
        match found {
            Some((mime, bytes)) => r.status == 200 && header_views(r.headers@) == sent_headers(
                mime@,
            ) && r.body@ == sent_bytes(mime@, bytes@),
            None => r.status == 404 && r.headers@.len() == 0 && r.body@.len() == 0,
        },
{
    match found {
        Some((mime, bytes)) => {
            let html = same_text(mime.as_str(), "text/html");
            let body = if html {
                match utf8_text(bytes) {
                    Ok(page) => {
                        let tag = concat3("<script>", BRIDGE_JS, "</script>");
                        let whole = inject_after_head(page.as_str(), tag.as_str());
                        whole.as_str().as_bytes_vec()
                    },
                    Err(bytes) => bytes,
                }
            } else {
                bytes
            };
            let mut headers: Vec<(String, String)> = Vec::new();
            let ghost kind = mime@;
            headers.push(("Content-Type".to_owned(), mime));
            headers.push(("Access-Control-Allow-Origin".to_owned(), "*".to_owned()));
            assert(header_views(headers@) =~= sent_headers(kind));
            AssetResponse { status: 200, headers, body }
        },
        None => AssetResponse { status: 404, headers: Vec::new(), body: Vec::new() },
    }
}

/// The file that answers a request from a bundle.
pub open spec fn answering_file(
    bundle: Seq<u8>,
    index: Map<Seq<char>, Seq<char>>,
    entry: Seq<char>,
    uri: Seq<char>,
) -> Option<(Seq<char>, Seq<u8>)> {
    match zip_opened(bundle) {
        Some((_, files)) => match first_file(
            files,
            candidates(requested_file(uri, entry), entry, index),
        ) {
            Some(name) => Some((name, files[name])),
            None => None,
        },
        None => None,
    }
}

/// Serves one request of a page from the bundle. The archive is opened anew
/// each time, so requests never wait for each other.
pub fn serve_asset(bundle: &[u8], index: &NameIndex, entry_path: &str, uri: &str) -> (r:
    AssetResponse)
    ensures
        match answering_file(bundle@, index@, entry_path@, uri@) {
            Some((name, bytes)) => r.status == 200 && header_views(r.headers@) == sent_headers(
                mime_of(name),
            ) && r.body@ == sent_bytes(mime_of(name), bytes),
            None => r.status == 404 && r.headers@.len() == 0 && r.body@.len() == 0,
        },
{
    let path = request_file(uri, entry_path);
    let found = match open_archive(bundle) {
        Some(mut archive) => {
            let names = asset_names(path.as_str(), entry_path, index);
            read_first(&mut archive, &names)
        },
        None => None,
    };
    asset_response(found)
}

// ---------------------------------------------------------------------------
// Laws
// ---------------------------------------------------------------------------

/// A file of the bundle answers a request for its own name.
pub proof fn law_exact_name_wins(
    files: Map<Seq<char>, Seq<u8>>,
    path: Seq<char>,
    entry: Seq<char>,
    index: Map<Seq<char>, Seq<char>>,
)
    requires
        files.contains_key(path),
    ensures
        first_file(files, candidates(path, entry, index)) == Some(path),
{
    assert(candidates(path, entry, index)[0] == path);
}

/// With the index of its own bundle, a request is answered by a file that has its
/// name in any letter case.
pub proof fn law_any_letter_case_finds_the_file(
    bundle: Seq<u8>,
    names: Seq<Option<Seq<char>>>,
    files: Map<Seq<char>, Seq<u8>>,
    i: int,
    entry: Seq<char>,
    uri: Seq<char>,
)
    requires
        zip_opened(bundle) == Some((names, files)),
        0 <= i < names.len(),
        names[i] is Some,
        lowercase(requested_file(uri, entry)) == lowercase(names[i]->Some_0),
        files.contains_key(index_of(names)[lowercase(names[i]->Some_0)]),
    ensures
        answering_file(bundle, index_of(names), entry, uri) matches Some((name, bytes))
            && lowercase(name) == lowercase(names[i]->Some_0) && files.contains_pair(name, bytes),
{
    let path = requested_file(uri, entry);
    let order = candidates(path, entry, index_of(names));
    law_every_name_is_indexed(names, i);
    assert(order[0] == path);
    let first = index_of(names)[lowercase(path)];
    assert(order[1] == first);
    assert(order.drop_first()[0] == first);
    reveal_with_fuel(first_file, 3);
}

/// A route of the page, which is no static file, is always answered where the
/// entry is there: by the entry, unless a file comes first.
pub proof fn law_routes_fall_back_to_the_entry(
    files: Map<Seq<char>, Seq<u8>>,
    path: Seq<char>,
    entry: Seq<char>,
    index: Map<Seq<char>, Seq<char>>,
)
    requires
        !static_file(path),
        files.contains_key(entry),
    ensures
        first_file(files, candidates(path, entry, index)) is Some,
        (forall|i: int|
            0 <= i < candidates(path, entry, index).len() - 1 ==> !files.contains_key(
                #[trigger] candidates(path, entry, index)[i],
            )) ==> first_file(files, candidates(path, entry, index)) == Some(entry),
{
    let names = candidates(path, entry, index);
    assert(names.last() == entry);
    lemma_last_is_found(files, names);
}

proof fn lemma_last_is_found(files: Map<Seq<char>, Seq<u8>>, names: Seq<Seq<char>>)
    requires
        names.len() > 0,
        files.contains_key(names.last()),
    ensures
        first_file(files, names) is Some,
        (forall|i: int| 0 <= i < names.len() - 1 ==> !files.contains_key(#[trigger] names[i]))
            ==> first_file(files, names) == Some(names.last()),
    decreases names.len(),
{
    if !files.contains_key(names[0]) {
        let rest = names.drop_first();
        assert(rest.last() == names.last());
        lemma_last_is_found(files, rest);
        if forall|i: int| 0 <= i < names.len() - 1 ==> !files.contains_key(#[trigger] names[i]) {
            assert forall|i: int| 0 <= i < rest.len() - 1 implies !files.contains_key(
                #[trigger] rest[i],
            ) by {
                assert(rest[i] == names[i + 1]);
            }
        }
    }
}

/// A static file that is nowhere in the bundle is not answered by the entry:
/// unless one of the names that are tried for it is a file, there is none.
pub proof fn law_missing_static_files_are_not_found(
    files: Map<Seq<char>, Seq<u8>>,
    path: Seq<char>,
    entry: Seq<char>,
    index: Map<Seq<char>, Seq<char>>,
)
    requires
        static_file(path),
        !files.contains_key(path),
        indexed(index, path) matches Some(name) ==> !files.contains_key(name),
        beside_entry(path, entry) matches Some(name) ==> !files.contains_key(name),
        indexed_beside(path, entry, index) matches Some(name) ==> !files.contains_key(name),
    ensures
        first_file(files, candidates(path, entry, index)) is None,
{
    let names = candidates(path, entry, index);
    assert forall|i: int| 0 <= i < names.len() implies !files.contains_key(#[trigger] names[i]) by {
        if i == 1 {
            if indexed(index, path) is Some {
                assert(names[i] == indexed(index, path)->Some_0);
            } else {
                assert(names[i] == beside_entry(path, entry)->Some_0);
            }
        } else if i == 2 {
            assert(names[i] == indexed_beside(path, entry, index)->Some_0);
        }
    }
    lemma_none_is_found(files, names);
}

proof fn lemma_none_is_found(files: Map<Seq<char>, Seq<u8>>, names: Seq<Seq<char>>)
    requires
        forall|i: int| 0 <= i < names.len() ==> !files.contains_key(#[trigger] names[i]),
    ensures
        first_file(files, names) is None,
    decreases names.len(),
{
    if names.len() > 0 {
        assert(!files.contains_key(names[0]));
        assert forall|i: int| 0 <= i < names.drop_first().len() implies !files.contains_key(
            #[trigger] names.drop_first()[i],
        ) by {
            assert(names.drop_first()[i] == names[i + 1]);
        }
        lemma_none_is_found(files, names.drop_first());
    }
}

/// Every page that is text is sent with the bridge in it, and with nothing of
/// its own lost.
pub proof fn law_pages_get_the_bridge(bytes: Seq<u8>)
    requires
        valid_utf8(bytes),
    ensures
        valid_utf8(sent_bytes("text/html"@, bytes)),
        ({
            let page = decode_utf8(bytes);
            let sent = decode_utf8(sent_bytes("text/html"@, bytes));
            let at = injection_point(page);
            &&& sent.subrange(at, at + bridge_tag().len()) == bridge_tag()
            &&& sent.take(at) + sent.skip(at + bridge_tag().len()) == page
        }),
{
    let page = decode_utf8(bytes);
    let whole = injected(page, bridge_tag());
    encode_utf8_decode_utf8(whole);
    vstd::utf8::encode_utf8_valid_utf8(whole);
    law_injection_keeps_the_page(page, bridge_tag());
}

/// The path beside the entry lies in the directory of the entry, which is all that
/// stands before the entry's last slash. An entry without a slash has nothing
/// beside it.
pub proof fn law_beside_is_in_the_entry_directory(
    directory: Seq<char>,
    file: Seq<char>,
    path: Seq<char>,
)
    requires
        !file.contains('/'),
    ensures
        beside_entry(path, directory + seq!['/'] + file) == Some(directory + seq!['/'] + path),
        beside_entry(path, file) is None,
{
    let entry = directory + seq!['/'] + file;
    assert(entry == directory.push('/') + file);
    law_first_and_last_separator(directory, '/', file);
    assert(entry.take(directory.len() as int) == directory);
}

/// The first of the names that are tried which is a file is the one that answers.
pub proof fn law_first_file_answers(
    files: Map<Seq<char>, Seq<u8>>,
    missing: Seq<Seq<char>>,
    name: Seq<char>,
    more: Seq<Seq<char>>,
)
    requires
        forall|i: int| 0 <= i < missing.len() ==> !files.contains_key(#[trigger] missing[i]),
    ensures
        files.contains_key(name) ==> first_file(files, missing.push(name) + more) == Some(name),
        first_file(files, missing) is None,
    decreases missing.len(),
{
    lemma_none_is_found(files, missing);
    let names = missing.push(name) + more;
    if missing.len() > 0 {
        assert(names[0] == missing[0]);
        let rest = missing.drop_first();
        assert forall|i: int| 0 <= i < rest.len() implies !files.contains_key(
            #[trigger] rest[i],
        ) by {
            assert(rest[i] == missing[i + 1]);
        }
        law_first_file_answers(files, rest, name, more);
        assert(names.drop_first() == rest.push(name) + more);
    } else {
        assert(names[0] == name);
    }
}

/// A request for a path that is no file of the bundle is answered by the file with
/// the name that the index has for it.
pub proof fn law_indexed_name_answers(
    files: Map<Seq<char>, Seq<u8>>,
    path: Seq<char>,
    entry: Seq<char>,
    index: Map<Seq<char>, Seq<char>>,
)
    requires
        !files.contains_key(path),
        index.contains_key(lowercase(path)),
        files.contains_key(index[lowercase(path)]),
    ensures
        first_file(files, candidates(path, entry, index)) == Some(index[lowercase(path)]),
{
    let names = candidates(path, entry, index);
    let name = index[lowercase(path)];
    assert(names[0] == path && names[1] == name);
    assert(names == seq![path].push(name) + names.skip(2));
    law_first_file_answers(files, seq![path], name, names.skip(2));
}

/// A request for a path that the bundle has in no letter case is answered by the
/// file of that path in the directory of the entry, where there is one, or else
/// by the one that the index has for it.
pub proof fn law_files_beside_the_entry_answer(
    files: Map<Seq<char>, Seq<u8>>,
    path: Seq<char>,
    directory: Seq<char>,
    file: Seq<char>,
    index: Map<Seq<char>, Seq<char>>,
)
    requires
        !file.contains('/'),
        !files.contains_key(path),
        !index.contains_key(lowercase(path)),
    ensures
        ({
            let beside = directory + seq!['/'] + path;
            let found = first_file(files, candidates(path, directory + seq!['/'] + file, index));
            &&& files.contains_key(beside) ==> found == Some(beside)
            &&& !files.contains_key(beside) && index.contains_key(lowercase(beside))
                && files.contains_key(index[lowercase(beside)]) ==> found == Some(
                index[lowercase(beside)],
            )
        }),
{
    let entry = directory + seq!['/'] + file;
    let beside = directory + seq!['/'] + path;
    law_beside_is_in_the_entry_directory(directory, file, path);
    let names = candidates(path, entry, index);
    assert(names[0] == path && names[1] == beside);
    if files.contains_key(beside) {
        assert(names == seq![path].push(beside) + names.skip(2));
        law_first_file_answers(files, seq![path], beside, names.skip(2));
    } else if index.contains_key(lowercase(beside)) && files.contains_key(
        index[lowercase(beside)],
    ) {
        let name = index[lowercase(beside)];
        assert(names[2] == name);
        let missing = seq![path, beside];
        assert(names == missing.push(name) + names.skip(3));
        assert forall|i: int| 0 <= i < missing.len() implies !files.contains_key(
            #[trigger] missing[i],
        ) by {
            assert(i == 0 || i == 1);
        }
        law_first_file_answers(files, missing, name, names.skip(3));
    }
}

/// A path that is in the bundle neither by itself nor beside the entry, in any
/// letter case, is answered by the entry, unless it names a static file: then
/// there is no answer.
pub proof fn law_unknown_paths_are_routes(
    files: Map<Seq<char>, Seq<u8>>,
    path: Seq<char>,
    directory: Seq<char>,
    file: Seq<char>,
    index: Map<Seq<char>, Seq<char>>,
    below: bool,
)
    requires
        !file.contains('/'),
        !files.contains_key(path),
        !index.contains_key(lowercase(path)),
        below ==> !files.contains_key(directory + seq!['/'] + path) && !index.contains_key(
            lowercase(directory + seq!['/'] + path),
        ),
    ensures
        ({
            let entry = if below {
                directory + seq!['/'] + file
            } else {
                file
            };
            let found = first_file(files, candidates(path, entry, index));
            &&& static_file(path) ==> found is None
            &&& !static_file(path) && files.contains_key(entry) ==> found == Some(entry)
            &&& !files.contains_key(entry) ==> found is None
        }),
{
    let entry = if below {
        directory + seq!['/'] + file
    } else {
        file
    };
    law_beside_is_in_the_entry_directory(directory, file, path);
    let names = candidates(path, entry, index);
    let missing = if below {
        seq![path, directory + seq!['/'] + path]
    } else {
        seq![path]
    };
    assert forall|i: int| 0 <= i < missing.len() implies !files.contains_key(
        #[trigger] missing[i],
    ) by {
        assert(i == 0 || i == 1);
    }
    if static_file(path) {
        assert(names == missing);
    } else {
        assert(names == missing.push(entry) + Seq::<Seq<char>>::empty());
    }
    law_first_file_answers(files, missing, entry, Seq::empty());
    if !files.contains_key(entry) {
        assert forall|i: int| 0 <= i < names.len() implies !files.contains_key(
            #[trigger] names[i],
        ) by {
            if i < missing.len() {
                assert(names[i] == missing[i]);
            }
        }
        lemma_none_is_found(files, names);
    }
}

/// A request is answered with the bytes that the bundle has under the name that was
/// found, and a bundle that is no archive answers nothing.
pub proof fn law_answers_come_from_the_bundle(
    bundle: Seq<u8>,
    names: Seq<Option<Seq<char>>>,
    files: Map<Seq<char>, Seq<u8>>,
    index: Map<Seq<char>, Seq<char>>,
    entry: Seq<char>,
    uri: Seq<char>,
    name: Seq<char>,
)
    ensures
        zip_opened(bundle) is None ==> answering_file(bundle, index, entry, uri) is None,
        zip_opened(bundle) == Some((names, files)) && first_file(
            files,
            candidates(requested_file(uri, entry), entry, index),
        ) == Some(name) ==> answering_file(bundle, index, entry, uri) == Some((name, files[name])),
        zip_opened(bundle) == Some((names, files)) && files.contains_key(
            requested_file(uri, entry),
        ) ==> answering_file(bundle, index, entry, uri) == Some(
            (requested_file(uri, entry), files[requested_file(uri, entry)]),
        ),
{
    if zip_opened(bundle) == Some((names, files)) && files.contains_key(
        requested_file(uri, entry),
    ) {
        law_exact_name_wins(files, requested_file(uri, entry), entry, index);
    }
}

/// A request asks for the path of its address, decoded, without the slashes at its
/// start; for the entry of the app where nothing else is left.
pub proof fn law_requests_ask_for_their_path(
    uri: Seq<char>,
    url: UrlView,
    slashes: nat,
    path: Seq<char>,
    entry: Seq<char>,
)
    requires
        url_parsed(uri) == Ok::<UrlView, Seq<char>>(url),
        percent_decoded(url.path) == Seq::new(slashes, |i: int| '/') + path,
        path.len() > 0 ==> path[0] != '/',
    ensures
        path.len() > 0 ==> requested_file(uri, entry) == path,
        path.len() == 0 ==> requested_file(uri, entry) == entry,
{
    law_leading_characters_go('/', slashes, path);
}

/// Where the address of a request cannot be parsed, the scheme and the host of the
/// app are taken off its start.
pub proof fn law_unparsed_requests_ask_for_the_rest(
    uri: Seq<char>,
    message: Seq<char>,
    path: Seq<char>,
    entry: Seq<char>,
)
    requires
        url_parsed(uri) == Err::<UrlView, Seq<char>>(message),
        !path.contains(':'),
        uri == path || uri == "brix://app/"@ + path || (uri == "brix://"@ + path && !(
        "app/"@.is_prefix_of(path))) || uri == "http://brix.app/"@ + path || uri
            == "https://brix.app/"@ + path,
        percent_decoded(path).len() > 0,
        percent_decoded(path)[0] != '/',
    ensures
        requested_file(uri, entry) == percent_decoded(path),
{
    reveal_strlit("brix://app/");
    reveal_strlit("brix://");
    reveal_strlit("http://brix.app/");
    reveal_strlit("https://brix.app/");
    reveal_strlit("app/");
    reveal_strlit("");
    let p1 = "brix://app/"@;
    let p2 = "brix://"@;
    let p3 = "http://brix.app/"@;
    let p4 = "https://brix.app/"@;
    assert(""@ == Seq::<char>::empty());
    assert(p1[4] == ':' && p2[4] == ':' && p3[4] == ':' && p4[5] == ':');
    lemma_kept(path, p1, 4);
    lemma_kept(path, p2, 4);
    lemma_kept(path, p3, 4);
    lemma_kept(path, p4, 5);
    if uri == path {
    } else if uri == p1 + path {
        lemma_start_goes(p1, path);
    } else if uri == p2 + path {
        lemma_start_goes(p2, path);
        assert(!p1.is_prefix_of(uri)) by {
            if p1.is_prefix_of(uri) {
                assert forall|i: int| 0 <= i < 4 implies "app/"@[i] == path[i] by {
                    assert(p1[i + 7] == uri[i + 7]);
                }
                assert(p1.len() <= uri.len());
                assert("app/"@.is_prefix_of(path));
            }
        }
        lemma_one_colon_kept(uri, 4, p1, 4);
    } else if uri == p3 + path {
        lemma_start_goes(p3, path);
        assert(uri[4] == ':' && uri[0] == 'h');
        assert(p1[0] == 'b' && p2[0] == 'b');
        lemma_one_colon_kept(uri, 4, p1, 4);
        lemma_one_colon_kept(uri, 4, p2, 4);
    } else {
        lemma_start_goes(p4, path);
        assert(uri[5] == ':' && uri[1] == 't');
        assert(p1[0] == 'b' && p2[0] == 'b' && p3[0] == 'h');
        lemma_one_colon_kept(uri, 5, p1, 4);
        lemma_one_colon_kept(uri, 5, p2, 4);
        lemma_one_colon_kept(uri, 5, p3, 4);
    }
    assert(bare_path(uri) == path);
    law_leading_characters_go('/', 0, percent_decoded(path));
    assert(Seq::new(0, |i: int| '/') + percent_decoded(path) == percent_decoded(path));
}

proof fn lemma_kept(s: Seq<char>, pattern: Seq<char>, colon: int)
    requires
        !s.contains(':'),
        0 <= colon < pattern.len(),
        pattern[colon] == ':',
    ensures
        replaced(s, pattern, ""@) == s,
{
    if stands_before(s, pattern, s.len() as int) {
        let i = choose|i: int| 0 <= i < s.len() && pattern.is_prefix_of(#[trigger] s.skip(i));
        assert(s.skip(i)[colon] == pattern[colon]);
        assert(s[i + colon] == ':');
    }
    law_occurrences_are_replaced(s, pattern, Seq::empty(), ""@);
}

proof fn lemma_one_colon_kept(s: Seq<char>, place: int, pattern: Seq<char>, colon: int)
    requires
        forall|i: int| 0 <= i < s.len() && i != place ==> s[i] != ':',
        0 <= colon < pattern.len(),
        pattern[colon] == ':',
        colon <= place < s.len(),
        !pattern.is_prefix_of(s.skip(place - colon)),
    ensures
        replaced(s, pattern, ""@) == s,
{
    if stands_before(s, pattern, s.len() as int) {
        let i = choose|i: int| 0 <= i < s.len() && pattern.is_prefix_of(#[trigger] s.skip(i));
        assert(s.skip(i)[colon] == pattern[colon]);
        assert(s[i + colon] == ':');
        assert(i == place - colon);
    }
    law_occurrences_are_replaced(s, pattern, Seq::empty(), ""@);
}

proof fn lemma_start_goes(pattern: Seq<char>, s: Seq<char>)
    requires
        pattern.len() > 0,
        replaced(s, pattern, ""@) == s,
    ensures
        replaced(pattern + s, pattern, ""@) == s,
{
    reveal_strlit("");
    law_occurrences_are_replaced(Seq::empty(), pattern, s, ""@);
    assert(Seq::<char>::empty() + pattern + s == pattern + s);
    assert(Seq::<char>::empty() + ""@ + s == s);
}

/// Every file is sent with its media type and with the leave for every origin to
/// read it, and with no other header.
pub proof fn law_files_are_sent_with_two_headers(mime: Seq<char>)
    ensures
        sent_headers(mime).len() == 2,
        sent_headers(mime).contains(("Content-Type"@, mime)),
        sent_headers(mime).contains(("Access-Control-Allow-Origin"@, "*"@)),
{
    let headers = sent_headers(mime);
    assert(headers[0] == ("Content-Type"@, mime));
    assert(headers[1] == ("Access-Control-Allow-Origin"@, "*"@));
}

/// What is no page is sent byte for byte, and so is a page that is no text.
pub proof fn law_other_files_are_sent_as_they_are(mime: Seq<char>, bytes: Seq<u8>)
    requires
        mime != "text/html"@ || !valid_utf8(bytes),
    ensures
        sent_bytes(mime, bytes) == bytes,
{
}

/// The bridge comes to a page between an opening and a closing script tag.
pub proof fn law_bridge_is_a_script()
    ensures
        "<script>"@.is_prefix_of(bridge_tag()),
        bridge_tag() == "<script>"@ + BRIDGE_JS@ + "</script>"@,
{
}

/// Where the index has a name for a path and neither is a file, nothing beside the
/// entry is tried: a static file is not found, and anything else is a route.
pub proof fn law_indexed_names_that_are_missing(
    files: Map<Seq<char>, Seq<u8>>,
    path: Seq<char>,
    entry: Seq<char>,
    index: Map<Seq<char>, Seq<char>>,
)
    requires
        !files.contains_key(path),
        index.contains_key(lowercase(path)),
        !files.contains_key(index[lowercase(path)]),
    ensures
        ({
            let found = first_file(files, candidates(path, entry, index));
            &&& static_file(path) || !files.contains_key(entry) ==> found is None
            &&& !static_file(path) && files.contains_key(entry) ==> found == Some(entry)
        }),
{
    let names = candidates(path, entry, index);
    let missing = seq![path, index[lowercase(path)]];
    assert forall|i: int| 0 <= i < missing.len() implies !files.contains_key(
        #[trigger] missing[i],
    ) by {
        assert(i == 0 || i == 1);
    }
    if static_file(path) {
        assert(names == missing);
    } else {
        assert(names == missing.push(entry) + Seq::<Seq<char>>::empty());
    }
    law_first_file_answers(files, missing, entry, Seq::empty());
    if !files.contains_key(entry) {
        assert forall|i: int| 0 <= i < names.len() implies !files.contains_key(
            #[trigger] names[i],
        ) by {
            if i < missing.len() {
                assert(names[i] == missing[i]);
            }
        }
        lemma_none_is_found(files, names);
    }
}

} // verus!
