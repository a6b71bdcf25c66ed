//! The files of a bundle: reading them by name, the index of their names, and
//! where they go when the bundle is extracted for a backend.

use crate::codec::utf8_text;
use crate::mime::{get_mime_type, mime_of};
use crate::text::{
    chars_of, decimal, ends_with, is_digit, law_occurrences_are_replaced, lemma_decimal, maybe,
    replace, replaced, same_text, stands_before, starts_with, to_decimal, trim, trimmed,
};
use crate::winpath::{
    body_parts, child_text, folded_parts, is_name, is_sep, join_text, joined, name_at,
    parse_path, parse_prefix, sep_place, unified, PathView, WinPath,
};
use vstd::prelude::*;
use vstd::string::*;
use vstd::utf8::{decode_utf8, valid_utf8};

verus! {

/// `zip::ZipArchive`: an open archive.
#[verifier::external_type_specification]
#[verifier::external_body]
#[verifier::reject_recursive_types(R)]
pub struct ExZipArchive<R>(zip::ZipArchive<R>);

/// `std::io::Cursor`: bytes that are read like a file.
#[verifier::external_type_specification]
#[verifier::external_body]
#[verifier::reject_recursive_types(T)]
pub struct ExCursor<T>(std::io::Cursor<T>);

/// The names in an archive, one for each entry in order; none for an entry that
/// cannot be opened.
pub uninterp spec fn archive_names(
    archive: zip::ZipArchive<std::io::Cursor<&[u8]>>,
) -> Seq<Option<Seq<char>>>;

/// The contents of an archive: for each name whose entry can be read to its
/// end, its bytes.
pub uninterp spec fn archive_files(
    archive: zip::ZipArchive<std::io::Cursor<&[u8]>>,
) -> Map<Seq<char>, Seq<u8>>;

/// The names and the contents of the archive that `zip::ZipArchive::new` opens
/// in some bytes, where they are an archive.
pub uninterp spec fn zip_opened(bytes: Seq<u8>) -> Option<
    (Seq<Option<Seq<char>>>, Map<Seq<char>, Seq<u8>>),
>;

/// The text in lower case, as `str::to_lowercase` gives it.
pub uninterp spec fn lowercase(text: Seq<char>) -> Seq<char>;

/// `zip::ZipArchive::new` on bytes: the archive, where they are one.
#[verifier::external_body]
pub(crate) fn open_archive<'a>(bytes: &'a [u8]) -> (r: Option<zip::ZipArchive<std::io::Cursor<&'a [u8]>>>)
    ensures
        match r {
            Some(archive) => zip_opened(bytes@) == Some(
                (archive_names(archive), archive_files(archive)),
            ),
            None => zip_opened(bytes@) is None,
        },
{
    zip::ZipArchive::new(std::io::Cursor::new(bytes)).ok()
}

/// `zip::ZipArchive::len`: the number of entries.
#[verifier::external_body]
pub(crate) fn entry_count(archive: &zip::ZipArchive<std::io::Cursor<&[u8]>>) -> (n: usize)
    ensures
        n == archive_names(*archive).len(),
{
    archive.len()
}

/// `zip::ZipArchive::by_index` and the name of the entry. The archive keeps
/// what it holds.
#[verifier::external_body]
pub(crate) fn entry_name(
    archive: &mut zip::ZipArchive<std::io::Cursor<&[u8]>>,
    index: usize,
) -> (r: Option<String>)
    requires
        index < archive_names(*old(archive)).len(),
    ensures
        maybe(r) == archive_names(*old(archive))[index as int],
        archive_names(*final(archive)) == archive_names(*old(archive)),
        archive_files(*final(archive)) == archive_files(*old(archive)),
{
    archive.by_index(index).ok().map(|file| file.name().to_owned())
}

/// `zip::ZipArchive::by_name`, read to the end. The archive keeps what it
/// holds.
#[verifier::external_body]
pub(crate) fn read_entry(
    archive: &mut zip::ZipArchive<std::io::Cursor<&[u8]>>,
    name: &str,
) -> (r: Option<Vec<u8>>)
    ensures
        match r {
            Some(bytes) => archive_files(*old(archive)).contains_pair(name@, bytes@),
            None => !archive_files(*old(archive)).contains_key(name@),
        },
        archive_names(*final(archive)) == archive_names(*old(archive)),
        archive_files(*final(archive)) == archive_files(*old(archive)),
{
    let mut file = archive.by_name(name).ok()?;
    let mut bytes = Vec::new();
    std::io::Read::read_to_end(&mut file, &mut bytes).ok()?;
    Some(bytes)
}

/// `str::to_lowercase`.
#[verifier::external_body]
pub(crate) fn to_lowercase(text: &str) -> (r: String)
    ensures
        r@ == lowercase(text@),
{
    text.to_lowercase()
}

/// Reads one file of the bundle: its media type and its bytes.
pub fn try_read(archive: &mut zip::ZipArchive<std::io::Cursor<&[u8]>>, name: &str) -> (r: Option<
    (String, Vec<u8>),
>)
    ensures
        match r {
            Some((mime, bytes)) => mime@ == mime_of(name@) && archive_files(
                *old(archive),
            ).contains_pair(name@, bytes@),
            None => !archive_files(*old(archive)).contains_key(name@),
        },
        archive_names(*final(archive)) == archive_names(*old(archive)),
        archive_files(*final(archive)) == archive_files(*old(archive)),
{
    match read_entry(archive, name) {
        Some(bytes) => Some((get_mime_type(name).to_owned(), bytes)),
        None => None,
    }
}

/// Why a bundle has no settings.
#[derive(Debug, PartialEq, Eq, Structural, Clone, Copy)]
pub enum SettingsError {
    NotAnArchive,
    Missing,
    NotText,
}

/// The text of the settings file, where there is one.
pub open spec fn settings_in(bytes: Option<Seq<u8>>) -> Result<Seq<char>, SettingsError> {
    match bytes {
        Some(bytes) => if valid_utf8(bytes) {
            Ok(decode_utf8(bytes))
        } else {
            Err(SettingsError::NotText)
        },
        None => Err(SettingsError::Missing),
    }
}

/// The text of the settings file, where there is one.
pub fn settings_text(bytes: Option<Vec<u8>>) -> (r: Result<String, SettingsError>)
    ensures
        settings_in(bytes_view(bytes)) == match r {
            Ok(text) => Ok::<Seq<char>, SettingsError>(text@),
            Err(e) => Err::<Seq<char>, SettingsError>(e),
        },
{
    match bytes {
        Some(bytes) => match utf8_text(bytes) {
            Ok(text) => Ok(text),
            Err(_) => Err(SettingsError::NotText),
        },
        None => Err(SettingsError::Missing),
    }
}

/// The file under a name, where there is one.
pub open spec fn file_under(files: Map<Seq<char>, Seq<u8>>, name: Seq<char>) -> Option<Seq<u8>> {
    if files.contains_key(name) {
        Some(files[name])
    } else {
        None
    }
}

/// The bytes of a file that may be missing.
pub open spec fn bytes_view(bytes: Option<Vec<u8>>) -> Option<Seq<u8>> {
    match bytes {
        Some(bytes) => Some(bytes@),
        None => None,
    }
}

/// The file under a name in a bundle, where the bundle opens and holds it.
pub open spec fn bundled_file(bundle: Seq<u8>, name: Seq<char>) -> Option<Seq<u8>> {
    match zip_opened(bundle) {
        Some((_, files)) => file_under(files, name),
        None => None,
    }
}

/// Reads one file of a bundle.
pub fn read_bundled(bundle: &[u8], name: &str) -> (r: Option<Vec<u8>>)
    ensures
        bytes_view(r) == bundled_file(bundle@, name@),
{
    match open_archive(bundle) {
        Some(mut archive) => read_entry(&mut archive, name),
        None => None,
    }
}

/// The files of an open bundle, to be read one after the other.
pub struct BundleFiles<'a> {
    archive: zip::ZipArchive<std::io::Cursor<&'a [u8]>>,
}

impl<'a> BundleFiles<'a> {
    /// The files that are there, by name.
    pub closed spec fn files(self) -> Map<Seq<char>, Seq<u8>> {
        archive_files(self.archive)
    }

    /// The names of the entries in order; none for one that cannot be opened.
    pub closed spec fn names(self) -> Seq<Option<Seq<char>>> {
        archive_names(self.archive)
    }

    /// Opens a bundle.
    pub fn open(bundle: &'a [u8]) -> (r: Option<BundleFiles<'a>>)
        ensures
            match zip_opened(bundle@) {
                Some((names, files)) => r matches Some(opened) && opened.names() == names
                    && opened.files() == files,
                None => r is None,
            },
    {
        match open_archive(bundle) {
            Some(archive) => Some(BundleFiles { archive }),
            None => None,
        }
    }

    /// Reads one file.
    pub fn read(&mut self, name: &str) -> (r: Option<Vec<u8>>)
        ensures
            bytes_view(r) == file_under(old(self).files(), name@),
            final(self).names() == old(self).names(),
            final(self).files() == old(self).files(),
    {
        read_entry(&mut self.archive, name)
    }
}

/// The settings of an app, as they stand in its files.
pub open spec fn settings_of(files: Map<Seq<char>, Seq<u8>>) -> Result<Seq<char>, SettingsError> {
    settings_in(file_under(files, ".brix.json"@))
}

/// Reads the settings of the app in a bundle: the text of `.brix.json`.
pub fn read_settings(bundle: &[u8]) -> (r: Result<String, SettingsError>)
    ensures
        match zip_opened(bundle@) {
            Some((_, files)) => match r {
                Ok(text) => settings_of(files) == Ok::<Seq<char>, SettingsError>(text@),
                Err(e) => settings_of(files) == Err::<Seq<char>, SettingsError>(e),
            },
            None => r == Err::<String, SettingsError>(SettingsError::NotAnArchive),
        },
{
    match open_archive(bundle) {
        Some(mut archive) => settings_text(read_entry(&mut archive, ".brix.json")),
        None => Err(SettingsError::NotAnArchive),
    }
}

// ---------------------------------------------------------------------------
// The index of names
// ---------------------------------------------------------------------------

/// The names of a bundle under their lower case, for requests that do not
/// match in case. Of names that differ in case alone the first is kept.
pub struct NameIndex {
    entries: Vec<(String, String)>,
}

impl View for NameIndex {
    type V = Map<Seq<char>, Seq<char>>;

    closed spec fn view(&self) -> Map<Seq<char>, Seq<char>> {
        as_index(self.entries@)
    }
}

/// The map that pairs stand for, where the first of a key counts.
spec fn as_index(entries: Seq<(String, String)>) -> Map<Seq<char>, Seq<char>>
    decreases entries.len(),
{
    if entries.len() == 0 {
        Map::empty()
    } else {
        with_name(as_index(entries.drop_last()), entries.last().0@, entries.last().1@)
    }
}

/// An index with one more name, unless its key is taken.
pub open spec fn with_name(
    index: Map<Seq<char>, Seq<char>>,
    key: Seq<char>,
    name: Seq<char>,
) -> Map<Seq<char>, Seq<char>> {
    if index.contains_key(key) {
        index
    } else {
        index.insert(key, name)
    }
}

/// The index of the names of an archive.
pub open spec fn index_of(names: Seq<Option<Seq<char>>>) -> Map<Seq<char>, Seq<char>>
    decreases names.len(),
{
    if names.len() == 0 {
        Map::empty()
    } else {
        match names.last() {
            Some(name) => with_name(index_of(names.drop_last()), lowercase(name), name),
            None => index_of(names.drop_last()),
        }
    }
}

impl NameIndex {
    /// The index of an archive.
    pub fn build(archive: &mut zip::ZipArchive<std::io::Cursor<&[u8]>>) -> (index: NameIndex)
        ensures
            index@ == index_of(archive_names(*old(archive))),
            archive_names(*final(archive)) == archive_names(*old(archive)),
            archive_files(*final(archive)) == archive_files(*old(archive)),
    {
        let ghost names = archive_names(*archive);
        let ghost files = archive_files(*archive);
        let count = entry_count(archive);
        let mut index = NameIndex::empty();
        let mut i: usize = 0;
        while i < count
            invariant
                i <= count == names.len(),
                archive_names(*archive) == names,
                archive_files(*archive) == files,
                index@ == index_of(names.take(i as int)),
            decreases count - i,
        {
            assert(names.take(i + 1).drop_last() == names.take(i as int));
            match entry_name(archive, i) {
                Some(name) => {
                    let key = to_lowercase(name.as_str());
                    index.add_name(key, name);
                },
                None => {},
            }
            i += 1;
        }
        assert(names.take(i as int) == names);
        index
    }

    /// Adds a name under a key, unless the key is taken.
    pub fn add_name(&mut self, key: String, name: String)
        ensures
            final(self)@ == with_name(old(self)@, key@, name@),
    {
        let ghost done = self.entries@;
        self.entries.push((key, name));
        assert(self.entries@.drop_last() == done);
    }

    /// The index of no names.
    pub fn empty() -> (index: NameIndex)
        ensures
            index@ == Map::<Seq<char>, Seq<char>>::empty(),
    {
        NameIndex { entries: Vec::new() }
    }

    /// The name under a key.
    pub fn get(&self, key: &str) -> (r: Option<String>)
        ensures
            match r {
                Some(name) => self@.contains_pair(key@, name@),
                None => !self@.contains_key(key@),
            },
    {
        let mut i: usize = 0;
        while i < self.entries.len()
            invariant
                i <= self.entries.len(),
                !as_index(self.entries@.take(i as int)).contains_key(key@),
            decreases self.entries.len() - i,
        {
            assert(self.entries@.take(i + 1).drop_last() == self.entries@.take(i as int));
            if same_text(self.entries[i].0.as_str(), key) {
                proof {
                    lemma_index_grows(self.entries@, i + 1, key@);
                }
                return Some(self.entries[i].1.as_str().to_owned());
            }
            i += 1;
        }
        assert(self.entries@.take(i as int) == self.entries@);
        None
    }
}

/// The index of the names in a bundle: empty where the bundle does not open.
pub fn index_bundle(bundle: &[u8]) -> (index: NameIndex)
    ensures
        index@ == match zip_opened(bundle@) {
            Some((names, _)) => index_of(names),
            None => Map::<Seq<char>, Seq<char>>::empty(),
        },
{
    match open_archive(bundle) {
        Some(mut archive) => NameIndex::build(&mut archive),
        None => NameIndex::empty(),
    }
}

proof fn lemma_index_grows(entries: Seq<(String, String)>, n: int, key: Seq<char>)
    requires
        0 <= n <= entries.len(),
        as_index(entries.take(n)).contains_key(key),
    ensures
        as_index(entries).contains_pair(key, as_index(entries.take(n))[key]),
    decreases entries.len(),
{
    if n == entries.len() {
        assert(entries.take(n) == entries);
    } else {
        assert(entries.drop_last().take(n) == entries.take(n));
        lemma_index_grows(entries.drop_last(), n, key);
    }
}

/// Every name of an archive is found under its lower case, though it may be
/// under the spelling that came first.
pub proof fn law_every_name_is_indexed(names: Seq<Option<Seq<char>>>, i: int)
    requires
        0 <= i < names.len(),
        names[i] is Some,
    ensures
        index_of(names).contains_key(lowercase(names[i]->Some_0)),
        lowercase(index_of(names)[lowercase(names[i]->Some_0)]) == lowercase(names[i]->Some_0),
    decreases names.len(),
{
    lemma_index_keys(names);
    if i < names.len() - 1 {
        assert(names.drop_last()[i] == names[i]);
        law_every_name_is_indexed(names.drop_last(), i);
    }
}

proof fn lemma_index_keys(names: Seq<Option<Seq<char>>>)
    ensures
        forall|key: Seq<char>| #[trigger]
            index_of(names).contains_key(key) ==> lowercase(index_of(names)[key]) == key,
    decreases names.len(),
{
    if names.len() > 0 {
        let before = index_of(names.drop_last());
        lemma_index_keys(names.drop_last());
        assert forall|key: Seq<char>| #[trigger] index_of(names).contains_key(key) implies lowercase(
            index_of(names)[key],
        ) == key by {
            if before.contains_key(key) {
                assert(index_of(names)[key] == before[key]);
            }
        }
    }
}

// ---------------------------------------------------------------------------
// Extraction
// ---------------------------------------------------------------------------

/// How deep a relative path goes: a name goes one down, `..` one up.
pub open spec fn depth(parts: Seq<Seq<char>>) -> int
    decreases parts.len(),
{
    if parts.len() == 0 {
        0
    } else if parts.last() == ".."@ {
        depth(parts.drop_last()) - 1
    } else if parts.last() == "."@ {
        depth(parts.drop_last())
    } else {
        depth(parts.drop_last()) + 1
    }
}

/// True for a relative path that never goes above its start.
pub open spec fn enclosed_path(path: PathView) -> bool {
    &&& path.prefix is None
    &&& !path.rooted
    &&& forall|n: int| 0 <= n <= path.parts.len() ==> depth(#[trigger] path.parts.take(n)) >= 0
}

/// True for the name of an entry that may be extracted: it holds no zero
/// character and never goes above its start.
pub open spec fn enclosed(name: Seq<char>) -> bool {
    !name.contains('\0') && enclosed_path(parse_path(name))
}

fn holds_zero(text: &str) -> (r: bool)
    ensures
        r == text@.contains('\0'),
{
    let chars = chars_of(text);
    let mut i: usize = 0;
    while i < chars.len()
        invariant
            i <= chars.len(),
            chars@ == text@,
            forall|j: int| 0 <= j < i ==> chars@[j] != '\0',
        decreases chars.len() - i,
    {
        if chars[i] == '\0' {
            assert(text@[i as int] == '\0');
            return true;
        }
        i += 1;
    }
    false
}

/// True for the name of an entry that may be extracted.
pub fn is_enclosed(name: &str) -> (r: bool)
    ensures
        r == enclosed(name@),
{
    if holds_zero(name) {
        return false;
    }
    let path = WinPath::parse(name);
    if path.prefix.is_some() || path.rooted {
        return false;
    }
    let mut level: usize = 0;
    let mut i: usize = 0;
    let ghost parts = path@.parts;
    assert(parts.take(0).len() == 0);
    while i < path.parts.len()
        invariant
            i <= path.parts.len(),
            level <= i,
            path@ == parse_path(name@),
            parts == path@.parts,
            level == depth(parts.take(i as int)),
            forall|n: int| 0 <= n <= i ==> depth(#[trigger] parts.take(n)) >= 0,
        decreases path.parts.len() - i,
    {
        assert(parts.take(i + 1).drop_last() == parts.take(i as int));
        assert(parts.take(i + 1).last() == path.parts@[i as int]@);
        proof {
            reveal_strlit(".");
            reveal_strlit("..");
            assert("."@.len() != ".."@.len());
        }
        if same_text(path.parts[i].as_str(), "..") {
            if level == 0 {
                assert(depth(parse_path(name@).parts.take(i + 1)) < 0);
                return false;
            }
            level -= 1;
        } else if !same_text(path.parts[i].as_str(), ".") {
            level += 1;
        }
        i += 1;
    }
    true
}

/// Where an entry goes in the temporary directory: nowhere for a directory, for
/// the settings and for the icon; the files of the backend go to the top. What
/// would go above the directory goes nowhere.
pub open spec fn destination(name: Seq<char>) -> Option<Seq<char>> {
    let path = replaced(name, "\\"@, "/"@);
    if !enclosed(name) || "/"@.is_suffix_of(path) {
        None
    } else {
        let relative = if "_backend/"@.is_prefix_of(path) {
            replaced(path, "_backend/"@, ""@)
        } else {
            path
        };
        if path == ".brix.json"@ || path == "_app_icon.ico"@ || relative.len() == 0 || !enclosed(
            relative,
        ) {
            None
        } else {
            Some(replaced(relative, "/"@, "\\"@))
        }
    }
}

/// Where an entry goes in the temporary directory.
pub fn extraction_target(name: &str) -> (r: Option<String>)
    ensures
        maybe(r) == destination(name@),
{
    proof {
        reveal_strlit("\\");
        reveal_strlit("/");
        reveal_strlit("_backend/");
        reveal_strlit(".brix.json");
        reveal_strlit("_app_icon.ico");
    }
    if !is_enclosed(name) {
        return None;
    }
    let path = replace(name, "\\", "/");
    if ends_with(path.as_str(), "/") {
        return None;
    }
    if same_text(path.as_str(), ".brix.json") || same_text(path.as_str(), "_app_icon.ico") {
        return None;
    }
    let relative = if starts_with(path.as_str(), "_backend/") {
        replace(path.as_str(), "_backend/", "")
    } else {
        path
    };
    if relative.as_str().is_empty() || !is_enclosed(relative.as_str()) {
        return None;
    }
    Some(replace(relative.as_str(), "/", "\\"))
}

/// The entries that are extracted: each name with the place of its file.
pub open spec fn extraction_of(names: Seq<Option<Seq<char>>>) -> Seq<(Seq<char>, Seq<char>)>
    decreases names.len(),
{
    if names.len() == 0 {
        Seq::empty()
    } else {
        let before = extraction_of(names.drop_last());
        match names.last() {
            Some(name) => match destination(name) {
                Some(place) => before.push((name, place)),
                None => before,
            },
            None => before,
        }
    }
}

/// The names and the places in a plan.
pub open spec fn plan_view(plan: Seq<(String, String)>) -> Seq<(Seq<char>, Seq<char>)> {
    plan.map_values(|step: (String, String)| (step.0@, step.1@))
}

/// The entries of an archive that are extracted, in order: each name with the
/// place of its file.
pub fn extraction_plan(archive: &mut zip::ZipArchive<std::io::Cursor<&[u8]>>) -> (plan: Vec<
    (String, String),
>)
    ensures
        plan_view(plan@) == extraction_of(archive_names(*old(archive))),
        archive_names(*final(archive)) == archive_names(*old(archive)),
        archive_files(*final(archive)) == archive_files(*old(archive)),
{
    let ghost names = archive_names(*archive);
    let ghost files = archive_files(*archive);
    let count = entry_count(archive);
    let mut plan: Vec<(String, String)> = Vec::new();
    let mut i: usize = 0;
    while i < count
        invariant
            i <= count == names.len(),
            archive_names(*archive) == names,
            archive_files(*archive) == files,
            plan_view(plan@) == extraction_of(names.take(i as int)),
        decreases count - i,
    {
        let ghost done = plan@;
        assert(names.take(i + 1).drop_last() == names.take(i as int));
        match entry_name(archive, i) {
            Some(name) => match extraction_target(name.as_str()) {
                Some(place) => {
                    let ghost step = (name@, place@);
                    plan.push((name, place));
                    assert(plan_view(plan@) == plan_view(done).push(step));
                },
                None => {},
            },
            None => {},
        }
        i += 1;
    }
    assert(names.take(i as int) == names);
    plan
}

/// The entries of a bundle that are extracted, in order: each name with the place
/// of its file. There are none where the bundle does not open.
pub fn plan_extraction(bundle: &[u8]) -> (plan: Vec<(String, String)>)
    ensures
        plan_view(plan@) == match zip_opened(bundle@) {
            Some((names, _)) => extraction_of(names),
            None => Seq::<(Seq<char>, Seq<char>)>::empty(),
        },
{
    match open_archive(bundle) {
        Some(mut archive) => extraction_plan(&mut archive),
        None => {
            let plan: Vec<(String, String)> = Vec::new();
            assert(plan_view(plan@) == Seq::<(Seq<char>, Seq<char>)>::empty());
            plan
        },
    }
}

/// Following an enclosed path from any directory, name by name and with `..`
/// going up, never leaves that directory.
pub proof fn law_enclosed_paths_stay_below(base: Seq<Seq<char>>, path: PathView)
    requires
        enclosed_path(path),
    ensures
        base.is_prefix_of(folded_parts(base, path.parts)),
        folded_parts(base, path.parts).len() == base.len() + depth(path.parts),
{
    assert(path.parts.take(path.parts.len() as int) == path.parts);
    lemma_folded_depth(base, path.parts);
}

pub(crate) proof fn lemma_folded_depth(base: Seq<Seq<char>>, parts: Seq<Seq<char>>)
    requires
        forall|n: int| 0 <= n <= parts.len() ==> depth(#[trigger] parts.take(n)) >= 0,
    ensures
        base.is_prefix_of(folded_parts(base, parts)),
        folded_parts(base, parts).len() == base.len() + depth(parts),
        forall|i: int|
            base.len() <= i < folded_parts(base, parts).len() ==> is_name(
                #[trigger] folded_parts(base, parts)[i],
            ),
    decreases parts.len(),
{
    reveal_strlit(".");
    reveal_strlit("..");
    assert("."@.len() != ".."@.len());
    if parts.len() > 0 {
        let shorter = parts.drop_last();
        assert forall|n: int| 0 <= n <= shorter.len() implies depth(#[trigger] shorter.take(n))
            >= 0 by {
            assert(shorter.take(n) == parts.take(n));
        }
        assert(parts.take(parts.len() as int) == parts);
        lemma_folded_depth(base, shorter);
        let before = folded_parts(base, shorter);
        if parts.last() == ".."@ {
            assert(before.len() > base.len());
            assert(is_name(before[before.len() - 1]));
        }
    }
}

/// Every file that is extracted from a bundle is written inside the temporary
/// directory.
pub proof fn law_extracted_files_stay_inside(
    temp_dir: PathView,
    names: Seq<Option<Seq<char>>>,
    i: int,
)
    requires
        temp_dir.prefix is Some,
        temp_dir.rooted,
        0 <= i < extraction_of(names).len(),
    ensures
        ({
            let file = joined(temp_dir, parse_path(extraction_of(names)[i].1));
            &&& file.prefix == temp_dir.prefix
            &&& file.rooted
            &&& temp_dir.parts.is_prefix_of(file.parts)
            &&& temp_dir.parts.is_prefix_of(
                folded_parts(temp_dir.parts, file.parts.skip(temp_dir.parts.len() as int)),
            )
        }),
{
    lemma_planned(names, i);
    let (name, place) = extraction_of(names)[i];
    law_places_are_enclosed(name);
    lemma_enclosed_file(temp_dir, place);
}

proof fn lemma_planned(names: Seq<Option<Seq<char>>>, i: int)
    requires
        0 <= i < extraction_of(names).len(),
    ensures
        destination(extraction_of(names)[i].0) == Some(extraction_of(names)[i].1),
    decreases names.len(),
{
    if names.len() > 0 && i < extraction_of(names.drop_last()).len() {
        lemma_planned(names.drop_last(), i);
    }
}

proof fn lemma_enclosed_file(temp_dir: PathView, place: Seq<char>)
    requires
        temp_dir.prefix is Some,
        temp_dir.rooted,
        enclosed_path(parse_path(place)),
    ensures
        joined(temp_dir, parse_path(place)).prefix == temp_dir.prefix,
        joined(temp_dir, parse_path(place)).rooted,
        temp_dir.parts.is_prefix_of(joined(temp_dir, parse_path(place)).parts),
        temp_dir.parts.is_prefix_of(
            folded_parts(
                temp_dir.parts,
                joined(temp_dir, parse_path(place)).parts.skip(temp_dir.parts.len() as int),
            ),
        ),
{
    let path = parse_path(place);
    let whole = joined(temp_dir, path);
    let below = whole.parts.skip(temp_dir.parts.len() as int);
    law_enclosed_paths_stay_below(temp_dir.parts, path);
    assert(path.parts.take(path.parts.len() as int) == path.parts);
    if temp_dir.is_verbatim() && !path.is_empty() {
        lemma_folded_depth(temp_dir.parts, path.parts);
        assert forall|n: int| 0 <= n <= below.len() implies depth(#[trigger] below.take(n)) >= 0 by {
            assert forall|i: int| 0 <= i < below.take(n).len() implies is_name(
                #[trigger] below.take(n)[i],
            ) by {
                assert(is_name(whole.parts[temp_dir.parts.len() + i]));
            }
            lemma_names_go_down(below.take(n));
        }
        lemma_folded_depth(temp_dir.parts, below);
    } else if path.parts.len() > 0 && path.parts[0] == "."@ {
        assert(below == path.parts.drop_first());
        lemma_leading_dot(temp_dir.parts, path.parts);
    } else {
        assert(below == path.parts);
    }
}

proof fn lemma_names_go_down(names: Seq<Seq<char>>)
    requires
        forall|i: int| 0 <= i < names.len() ==> is_name(#[trigger] names[i]),
    ensures
        depth(names) == names.len(),
    decreases names.len(),
{
    if names.len() > 0 {
        assert(is_name(names[names.len() - 1]));
        assert forall|i: int| 0 <= i < names.drop_last().len() implies is_name(
            #[trigger] names.drop_last()[i],
        ) by {
            assert(is_name(names[i]));
        }
        lemma_names_go_down(names.drop_last());
    }
}

pub(crate) proof fn lemma_leading_dot(base: Seq<Seq<char>>, parts: Seq<Seq<char>>)
    requires
        parts.len() > 0,
        parts[0] == "."@,
    ensures
        folded_parts(base, parts.drop_first()) == folded_parts(base, parts),
    decreases parts.len(),
{
    if parts.len() == 1 {
        assert(parts.drop_last().len() == 0);
        assert(parts.drop_first().len() == 0);
        assert(folded_parts(base, parts.drop_last()) == base);
    } else {
        assert(parts.drop_first().drop_last() == parts.drop_last().drop_first());
        lemma_leading_dot(base, parts.drop_last());
    }
}

/// Whatever its name, an entry is extracted to a place that never goes above its
/// start.
pub proof fn law_places_are_enclosed(name: Seq<char>)
    requires
        destination(name) is Some,
    ensures
        enclosed_path(parse_path(destination(name)->Some_0)),
{
    reveal_strlit("\\");
    reveal_strlit("/");
    assert("\\"@ == seq!['\\']);
    assert("/"@ == seq!['/']);
    let path = replaced(name, "\\"@, "/"@);
    let relative = if "_backend/"@.is_prefix_of(path) {
        replaced(path, "_backend/"@, ""@)
    } else {
        path
    };
    lemma_replaced_char(relative, '/', '\\');
    lemma_separators_alone(relative, replaced(relative, "/"@, "\\"@));
}

/// An entry outside the backend folder keeps its path. It is extracted unless it
/// is a directory, the settings or the icon.
pub proof fn law_entries_keep_their_path(name: Seq<char>)
    requires
        enclosed(name),
        !"/"@.is_suffix_of(replaced(name, "\\"@, "/"@)),
        !"_backend/"@.is_prefix_of(replaced(name, "\\"@, "/"@)),
        name.len() > 0,
        replaced(name, "\\"@, "/"@) != ".brix.json"@,
        replaced(name, "\\"@, "/"@) != "_app_icon.ico"@,
    ensures
        destination(name) is Some,
        parse_path(destination(name)->Some_0) == parse_path(name),
{
    reveal_strlit("\\");
    reveal_strlit("/");
    assert("\\"@ == seq!['\\']);
    assert("/"@ == seq!['/']);
    let path = replaced(name, "\\"@, "/"@);
    let place = replaced(path, "/"@, "\\"@);
    lemma_replaced_char(name, '\\', '/');
    lemma_replaced_char(path, '/', '\\');
    lemma_separators_alone(name, path);
    lemma_separators_alone(name, place);
    assert(!path.contains('\0')) by {
        if path.contains('\0') {
            let i = path.index_of('\0');
            assert(path[i] == '\0');
            assert(name[i] == '\0');
        }
    }
}

/// An entry of the backend folder loses that folder and keeps the path behind it,
/// where that path holds no other `_backend/`: every one of them is taken out,
/// wherever it stands. It is extracted unless it is a directory, or the path
/// behind the folder goes above its start.
pub proof fn law_backend_entries_move_to_the_top(name: Seq<char>, rest: Seq<char>)
    requires
        enclosed(name),
        !"/"@.is_suffix_of(replaced(name, "\\"@, "/"@)),
        replaced(name, "\\"@, "/"@) == "_backend/"@ + rest,
        !holds(rest, "_backend/"@),
    ensures
        destination(name) is Some <==> enclosed(rest),
        destination(name) is Some ==> parse_path(destination(name)->Some_0) == parse_path(rest),
{
    reveal_strlit("\\");
    reveal_strlit("/");
    reveal_strlit("_backend/");
    reveal_strlit(".brix.json");
    reveal_strlit("_app_icon.ico");
    assert("\\"@ == seq!['\\']);
    assert("/"@ == seq!['/']);
    let prefix = "_backend/"@;
    let path = prefix + rest;
    assert(path[0] == '_' && path[1] == 'b');
    assert(path != ".brix.json"@ && path != "_app_icon.ico"@) by {
        assert(".brix.json"@[0] == '.');
        assert("_app_icon.ico"@[1] == 'a');
    }
    assert(prefix.is_prefix_of(path)) by {
        assert(path.take(prefix.len() as int) == prefix);
    }
    assert(path.skip(prefix.len() as int) == rest);
    if rest.len() == 0 {
        assert(path.skip(path.len() - 1) == "/"@);
    }
    lemma_nothing_replaced(rest, prefix, ""@);
    reveal_strlit("");
    assert(replaced(path, prefix, ""@) == ""@ + replaced(rest, prefix, ""@));
    assert(""@ + rest == rest);
    if enclosed(rest) {
        lemma_replaced_char(rest, '/', '\\');
        lemma_separators_alone(rest, replaced(rest, "/"@, "\\"@));
    }
}

/// True when `text` holds `part` somewhere.
pub open spec fn holds(text: Seq<char>, part: Seq<char>) -> bool {
    exists|i: int| 0 <= i <= text.len() && part.is_prefix_of(#[trigger] text.skip(i))
}

proof fn lemma_nothing_replaced(s: Seq<char>, from: Seq<char>, to: Seq<char>)
    requires
        from.len() > 0,
        !holds(s, from),
    ensures
        replaced(s, from, to) == s,
    decreases s.len(),
{
    if s.len() > 0 {
        assert(s.skip(0) == s);
        assert forall|i: int| 0 <= i <= s.drop_first().len() implies !from.is_prefix_of(
            #[trigger] s.drop_first().skip(i),
        ) by {
            assert(s.drop_first().skip(i) == s.skip(i + 1));
        }
        lemma_nothing_replaced(s.drop_first(), from, to);
        assert(seq![s[0]] + s.drop_first() == s);
    }
}

/// A relative path stays the same when its separators are written another way.
proof fn lemma_separators_alone(name: Seq<char>, place: Seq<char>)
    requires
        enclosed_path(parse_path(name)),
        place.len() == name.len(),
        forall|i: int|
            0 <= i < name.len() ==> #[trigger] place[i] == name[i] || (is_sep(place[i]) && is_sep(
                name[i],
            )),
    ensures
        parse_path(place) == parse_path(name),
{
    assert(unified(place, false) == unified(name, false));
    assert forall|i: int| 0 <= i < name.len() implies is_sep(#[trigger] place[i]) == is_sep(name[i])
        by {}
    assert(name.skip(0) == name);
    assert(place.skip(0) == place);
    if name.len() > 0 {
        assert(!is_sep(name[0]));
        assert(parse_prefix(name) is None);
        assert(place[0] == name[0]);
        if name.len() > 1 {
            assert(is_sep(place[1]) == is_sep(name[1]));
        }
        assert(parse_prefix(place) is None);
        lemma_same_separators(name, place, 0);
        lemma_before_separator(name, 0);
        assert(name_at(name, 0, false) == name_at(place, 0, false)) by {
            assert forall|i: int| 0 <= i < sep_place(name, 0, false) implies name[i] == place[i] by {
                assert(!is_sep(name[i]));
            }
        }
    }
    if name.len() == 0 {
        assert(place == name);
    } else {
        assert(body_parts(place, false) == body_parts(name, false));
        assert(!is_sep(place[0]));
        assert(parse_path(place).parts == parse_path(name).parts);
        assert(parse_path(place) == parse_path(name));
    }
}

pub(crate) proof fn lemma_replaced_char(s: Seq<char>, a: char, b: char)
    ensures
        replaced(s, seq![a], seq![b]).len() == s.len(),
        forall|i: int|
            0 <= i < s.len() ==> #[trigger] replaced(s, seq![a], seq![b])[i] == (if s[i] == a {
                b
            } else {
                s[i]
            }),
    decreases s.len(),
{
    if s.len() > 0 {
        lemma_replaced_char(s.drop_first(), a, b);
        assert(s.skip(1) == s.drop_first());
        if seq![a].is_prefix_of(s) {
            assert(s.take(1)[0] == a);
        } else {
            assert(s[0] != a) by {
                if s[0] == a {
                    assert(seq![a] == s.take(1));
                }
            }
        }
        let rest = replaced(s.drop_first(), seq![a], seq![b]);
        assert forall|i: int| 0 <= i < s.len() implies #[trigger] replaced(s, seq![a], seq![b])[i]
            == (if s[i] == a {
            b
        } else {
            s[i]
        }) by {
            if i > 0 {
                assert(replaced(s, seq![a], seq![b])[i] == rest[i - 1]);
                assert(s.drop_first()[i - 1] == s[i]);
            }
        }
    }
}

proof fn lemma_same_separators(s: Seq<char>, t: Seq<char>, from: int)
    requires
        s.len() == t.len(),
        forall|i: int| 0 <= i < s.len() ==> is_sep(#[trigger] t[i]) == is_sep(s[i]),
        0 <= from,
    ensures
        sep_place(s, from, false) == sep_place(t, from, false),
    decreases s.len() - from,
{
    if from < s.len() {
        assert(is_sep(t[from]) == is_sep(s[from]));
        lemma_same_separators(s, t, from + 1);
    }
}

proof fn lemma_before_separator(s: Seq<char>, from: int)
    requires
        0 <= from <= s.len(),
    ensures
        from <= sep_place(s, from, false) <= s.len(),
        forall|i: int| from <= i < sep_place(s, from, false) ==> !is_sep(#[trigger] s[i]),
    decreases s.len() - from,
{
    if from < s.len() && !is_sep(s[from]) {
        lemma_before_separator(s, from + 1);
    }
}

/// The file in the temporary directory that marks an extraction.
pub fn marker_path(temp_dir: &str) -> (r: String)
    ensures
        r@ == child_text(temp_dir@, ".brix_extract_cache"@),
{
    join_text(temp_dir, ".brix_extract_cache")
}

/// True when the marker of an earlier extraction belongs to the bundle with the
/// given fingerprint, so nothing has to be extracted again.
pub fn extraction_is_current(marker: &str, fingerprint: u64) -> (r: bool)
    ensures
        r == (trimmed(marker@) == decimal(fingerprint as int)),
{
    let text = trim(marker);
    let number = to_decimal(fingerprint);
    same_text(text.as_str(), number.as_str())
}

/// The marker that is written for a bundle is recognised for that bundle, and for
/// no bundle with another fingerprint.
pub proof fn law_marker_names_one_fingerprint(fingerprint: u64, other: u64)
    ensures
        trimmed(decimal(fingerprint as int)) == decimal(other as int) <==> fingerprint == other,
{
    let text = decimal(fingerprint as int);
    lemma_decimal(fingerprint as int);
    lemma_decimal(other as int);
    assert(is_digit(text[0]) && is_digit(text[text.len() - 1]));
    assert(trimmed(text) == text);
}

/// The plan of two archives, one behind the other, is the plan of the first and
/// then that of the second. A single entry is in the plan exactly where it has a
/// place, and one that cannot be opened has none.
pub proof fn law_plan_follows_the_archive(
    first: Seq<Option<Seq<char>>>,
    name: Seq<char>,
    second: Seq<Option<Seq<char>>>,
)
    ensures
        extraction_of(first + second) == extraction_of(first) + extraction_of(second),
        destination(name) matches Some(place) ==> extraction_of(seq![Some(name)]) == seq![
            (name, place),
        ],
        destination(name) is None ==> extraction_of(seq![Some(name)]).len() == 0,
        extraction_of(seq![None]).len() == 0,
        extraction_of(Seq::empty()).len() == 0,
    decreases second.len(),
{
    lemma_plan_of_one(Some(name));
    lemma_plan_of_one(None);
    if second.len() == 0 {
        assert(first + second == first);
        assert(extraction_of(first) + extraction_of(second) == extraction_of(first));
    } else {
        law_plan_follows_the_archive(first, name, second.drop_last());
        assert((first + second).drop_last() == first + second.drop_last());
        assert((first + second).last() == second.last());
        match second.last() {
            Some(n) => match destination(n) {
                Some(place) => {
                    let start = extraction_of(second.drop_last());
                    assert((extraction_of(first) + start).push((n, place)) == extraction_of(first)
                        + start.push((n, place)));
                },
                None => {},
            },
            None => {},
        }
    }
}

proof fn lemma_plan_of_one(entry: Option<Seq<char>>)
    ensures
        extraction_of(seq![entry]) == match entry {
            Some(name) => match destination(name) {
                Some(place) => seq![(name, place)],
                None => Seq::empty(),
            },
            None => Seq::empty(),
        },
{
    assert(seq![entry].drop_last() == Seq::<Option<Seq<char>>>::empty());
    assert(extraction_of(seq![entry].drop_last()) == Seq::<(Seq<char>, Seq<char>)>::empty());
    assert(seq![entry].last() == entry);
}

/// Every entry of an archive that has a place is in the plan with that place, and
/// the plan holds nothing else.
pub proof fn law_plan_is_complete(names: Seq<Option<Seq<char>>>, name: Seq<char>, place: Seq<char>)
    ensures
        extraction_of(names).contains((name, place)) <==> names.contains(Some(name)) && destination(
            name,
        ) == Some(place),
    decreases names.len(),
{
    if names.len() > 0 {
        let before = names.drop_last();
        law_plan_is_complete(before, name, place);
        let plan = extraction_of(names);
        let start = extraction_of(before);
        assert(names == before.push(names.last()));
        assert(names.contains(Some(name)) <==> before.contains(Some(name)) || names.last() == Some(
            name,
        )) by {
            if names.contains(Some(name)) {
                let i = choose|i: int| 0 <= i < names.len() && names[i] == Some(name);
                if i < names.len() - 1 {
                    assert(before[i] == names[i]);
                }
            }
            if before.contains(Some(name)) {
                let i = choose|i: int| 0 <= i < before.len() && before[i] == Some(name);
                assert(names[i] == Some(name));
            }
            assert(names[names.len() - 1] == names.last());
        }
        if plan.contains((name, place)) {
            let i = choose|i: int| 0 <= i < plan.len() && plan[i] == (name, place);
            if i < start.len() {
                assert(start[i] == plan[i]);
            }
        }
        if start.contains((name, place)) {
            let i = choose|i: int| 0 <= i < start.len() && start[i] == (name, place);
            assert(plan[i] == (name, place));
        }
        if names.last() == Some(name) && destination(name) == Some(place) {
            assert(plan[start.len() as int] == (name, place));
        }
    }
}

/// The plan keeps the order of the archive: of two entries that have a place, the
/// one that stands first in the archive stands first in the plan.
pub proof fn law_plan_keeps_the_order(names: Seq<Option<Seq<char>>>, i: int, j: int)
    requires
        0 <= i < j < names.len(),
        names[i] is Some,
        names[j] is Some,
        destination(names[i]->0) is Some,
        destination(names[j]->0) is Some,
    ensures
        exists|p: int, q: int|
            0 <= p < q < extraction_of(names).len() && #[trigger] extraction_of(names)[p] == (
                names[i]->0,
                destination(names[i]->0)->0,
            ) && #[trigger] extraction_of(names)[q] == (
                names[j]->0,
                destination(names[j]->0)->0,
            ),
{
    let one = names[i]->0;
    let other = names[j]->0;
    let a = names.take(j);
    let b = names.skip(j);
    assert(names == a + b);
    law_plan_follows_the_archive(a, one, b);
    assert(a[i] == Some(one));
    assert(b[0] == Some(other));
    law_plan_is_complete(a, one, destination(one)->0);
    law_plan_is_complete(b, other, destination(other)->0);
    let first = extraction_of(a);
    let second = extraction_of(b);
    let p = choose|p: int| 0 <= p < first.len() && first[p] == (one, destination(one)->0);
    let q = choose|q: int| 0 <= q < second.len() && second[q] == (other, destination(other)->0);
    assert(extraction_of(names)[p] == first[p]);
    assert(extraction_of(names)[q + first.len()] == second[q]);
}

/// A name with its backslashes written as slashes.
pub open spec fn with_slashes(name: Seq<char>) -> Seq<char> {
    Seq::new(
        name.len(),
        |i: int|
            if name[i] == '\\' {
                '/'
            } else {
                name[i]
            },
    )
}

/// A name with its slashes written as backslashes.
pub open spec fn with_backslashes(name: Seq<char>) -> Seq<char> {
    Seq::new(
        name.len(),
        |i: int|
            if name[i] == '/' {
                '\\'
            } else {
                name[i]
            },
    )
}

proof fn lemma_slashes(name: Seq<char>)
    ensures
        replaced(name, "\\"@, "/"@) == with_slashes(name),
        replaced(name, "/"@, "\\"@) == with_backslashes(name),
        replaced(with_slashes(name), "/"@, "\\"@) == with_backslashes(name),
{
    reveal_strlit("\\");
    reveal_strlit("/");
    assert("\\"@ == seq!['\\']);
    assert("/"@ == seq!['/']);
    lemma_replaced_char(name, '\\', '/');
    lemma_replaced_char(name, '/', '\\');
    lemma_replaced_char(with_slashes(name), '/', '\\');
    assert(replaced(name, "\\"@, "/"@) =~= with_slashes(name));
    assert(replaced(name, "/"@, "\\"@) =~= with_backslashes(name));
    assert(replaced(with_slashes(name), "/"@, "\\"@) =~= with_backslashes(name));
}

/// What is not extracted: a directory, the settings and the icon of the app, and
/// what would go above the directory.
pub proof fn law_entries_that_are_not_extracted(name: Seq<char>)
    requires
        (name.len() > 0 && (name.last() == '/' || name.last() == '\\')) || name == ".brix.json"@
            || name == "_app_icon.ico"@ || !enclosed(name) || name.len() == 0,
    ensures
        destination(name) is None,
{
    lemma_slashes(name);
    reveal_strlit("/");
    reveal_strlit("_backend/");
    reveal_strlit(".brix.json");
    reveal_strlit("_app_icon.ico");
    let path = with_slashes(name);
    if name.len() > 0 && (name.last() == '/' || name.last() == '\\') {
        assert(path.skip(path.len() - 1) == "/"@);
        assert("/"@.is_suffix_of(path));
    } else if name == ".brix.json"@ || name == "_app_icon.ico"@ {
        assert(path =~= name);
    } else if name.len() == 0 {
        assert(path.len() == 0);
    }
}

/// Any other entry is extracted to its own name, with backslashes for slashes,
/// where it lies outside the backend folder; and an entry of that folder to the
/// name it has inside it.
pub proof fn law_entries_go_to_their_name(name: Seq<char>)
    requires
        enclosed(name),
        name.len() > 0,
        name.last() != '/',
        name.last() != '\\',
        with_slashes(name) != ".brix.json"@,
        with_slashes(name) != "_app_icon.ico"@,
    ensures
        !"_backend/"@.is_prefix_of(with_slashes(name)) ==> destination(name) == Some(
            with_backslashes(name),
        ),
        "_backend/"@.is_prefix_of(with_slashes(name)) && !holds(
            with_slashes(name).skip(9),
            "_backend/"@,
        ) && enclosed(with_slashes(name).skip(9)) ==> destination(name) == Some(
            with_backslashes(name).skip(9),
        ),
{
    lemma_slashes(name);
    reveal_strlit("/");
    reveal_strlit("_backend/");
    let path = with_slashes(name);
    assert(!"/"@.is_suffix_of(path)) by {
        if "/"@.is_suffix_of(path) {
            assert(path.skip(path.len() - 1)[0] == "/"@[0]);
        }
    }
    if "_backend/"@.is_prefix_of(path) {
        let rest = path.skip(9);
        assert(path == "_backend/"@ + rest);
        if rest.len() == 0 {
            assert(path.last() == "_backend/"@[8]);
        }
        if !holds(rest, "_backend/"@) && enclosed(rest) {
            lemma_nothing_replaced(rest, "_backend/"@, ""@);
            reveal_strlit("");
            assert(replaced(path, "_backend/"@, ""@) == ""@ + rest);
            assert(""@ + rest == rest);
            lemma_slashes(rest);
            assert(with_backslashes(rest) =~= with_backslashes(name).skip(9));
        }
    } else {
        lemma_separators_alone(name, path);
        assert(!path.contains('\0')) by {
            if path.contains('\0') {
                let i = path.index_of('\0');
                assert(path[i] == '\0');
                assert(name[i] == '\0');
            }
        }
    }
}

/// How deep a path goes is counted part by part: one down for a name, one up for
/// `..`, and nothing for `.`.
pub proof fn law_depth_is_counted(a: Seq<Seq<char>>, part: Seq<char>)
    ensures
        depth(Seq::empty()) == 0,
        part == ".."@ ==> depth(a.push(part)) == depth(a) - 1,
        part == "."@ ==> depth(a.push(part)) == depth(a),
        part != "."@ && part != ".."@ ==> depth(a.push(part)) == depth(a) + 1,
{
    reveal_strlit(".");
    reveal_strlit("..");
    assert("."@.len() != ".."@.len());
    assert(a.push(part).drop_last() == a);
    assert(a.push(part).last() == part);
}

/// An index holds each name under its lower case, and of those that differ in
/// letter case alone the one that comes first. It holds nothing else.
pub proof fn law_first_spelling_is_indexed(names: Seq<Option<Seq<char>>>, i: int, key: Seq<char>)
    requires
        0 <= i < names.len(),
        names[i] is Some,
        forall|j: int|
            0 <= j < i && (#[trigger] names[j]) is Some ==> lowercase(names[j]->0) != lowercase(
                names[i]->0,
            ),
    ensures
        index_of(names).contains_pair(lowercase(names[i]->0), names[i]->0),
        index_of(names).contains_key(key) ==> names.contains(Some(index_of(names)[key]))
            && lowercase(index_of(names)[key]) == key,
    decreases names.len(),
{
    lemma_index_keys(names);
    if index_of(names).contains_key(key) {
        lemma_index_names(names, key);
    }
    let before = names.drop_last();
    if i < before.len() {
        assert(before[i] == names[i]);
        assert forall|j: int| 0 <= j < i && (#[trigger] before[j]) is Some implies lowercase(
            before[j]->0,
        ) != lowercase(before[i]->0) by {
            assert(before[j] == names[j]);
        }
        law_first_spelling_is_indexed(before, i, key);
    } else {
        let own = lowercase(names[i]->0);
        if index_of(before).contains_key(own) {
            lemma_index_names(before, own);
            lemma_index_keys(before);
            let j = choose|j: int|
                0 <= j < before.len() && before[j] == Some(index_of(before)[own]);
            assert(names[j] == before[j]);
        }
    }
}

proof fn lemma_index_names(names: Seq<Option<Seq<char>>>, key: Seq<char>)
    requires
        index_of(names).contains_key(key),
    ensures
        names.contains(Some(index_of(names)[key])),
    decreases names.len(),
{
    if names.len() > 0 {
        let before = names.drop_last();
        if index_of(before).contains_key(key) {
            lemma_index_names(before, key);
            let j = choose|j: int|
                0 <= j < before.len() && before[j] == Some(index_of(before)[key]);
            assert(names[j] == Some(index_of(names)[key]));
        } else {
            assert(names[names.len() - 1] == Some(index_of(names)[key]));
        }
    }
}

/// The settings of an app are the text of its file `.brix.json`. They are missing
/// without that file, and no settings where it is no text.
pub proof fn law_settings_are_a_file_of_the_app(files: Map<Seq<char>, Seq<u8>>, bytes: Seq<u8>)
    ensures
        files.contains_pair(".brix.json"@, bytes) && valid_utf8(bytes) ==> settings_of(files) == Ok::<
            Seq<char>,
            SettingsError,
        >(decode_utf8(bytes)),
        files.contains_pair(".brix.json"@, bytes) && !valid_utf8(bytes) ==> settings_of(files)
            == Err::<Seq<char>, SettingsError>(SettingsError::NotText),
        !files.contains_key(".brix.json"@) ==> settings_of(files) == Err::<
            Seq<char>,
            SettingsError,
        >(SettingsError::Missing),
{
}

/// What is read from a bundle is what the archive holds under the name.
pub proof fn law_bundled_files_are_those_of_the_archive(
    bundle: Seq<u8>,
    names: Seq<Option<Seq<char>>>,
    files: Map<Seq<char>, Seq<u8>>,
    name: Seq<char>,
)
    requires
        zip_opened(bundle) == Some((names, files)),
    ensures
        files.contains_key(name) ==> bundled_file(bundle, name) == Some(files[name]),
        !files.contains_key(name) ==> bundled_file(bundle, name) is None,
{
}

/// A path stays enclosed with one part more exactly where it is enclosed and does not
/// go above its start there. The start is enclosed; a path with a prefix or a root, or
/// a name with a zero character, never is.
pub proof fn law_enclosed_paths_part_by_part(path: PathView, part: Seq<char>, name: Seq<char>)
    ensures
        path.prefix is None && !path.rooted && path.parts.len() == 0 ==> enclosed_path(path),
        enclosed_path(PathView { parts: path.parts.push(part), ..path }) <==> enclosed_path(path)
            && depth(path.parts.push(part)) >= 0,
        path.prefix is Some || path.rooted ==> !enclosed_path(path),
        name.contains('\0') ==> !enclosed(name),
        !name.contains('\0') ==> (enclosed(name) <==> enclosed_path(parse_path(name))),
{
    let more = path.parts.push(part);
    let next = PathView { parts: more, ..path };
    assert(more.take(more.len() as int) =~= more);
    assert forall|n: int| 0 <= n <= path.parts.len() implies #[trigger] path.parts.take(n)
        == more.take(n) by {
        assert(path.parts.take(n) =~= more.take(n));
    }
    if enclosed_path(next) {
        assert forall|n: int| 0 <= n <= path.parts.len() implies depth(#[trigger] path.parts.take(n))
            >= 0 by {
            assert(depth(next.parts.take(n)) >= 0);
            assert(path.parts.take(n) == more.take(n));
        }
        assert(depth(next.parts.take(more.len() as int)) >= 0);
    }
    if enclosed_path(path) && depth(more) >= 0 {
        assert forall|n: int| 0 <= n <= more.len() implies depth(#[trigger] next.parts.take(n))
            >= 0 by {
            if n < more.len() {
                assert(depth(path.parts.take(n)) >= 0);
                assert(path.parts.take(n) == more.take(n));
            }
        }
    }
    if path.parts.len() == 0 {
        assert forall|n: int| 0 <= n <= path.parts.len() implies depth(#[trigger] path.parts.take(n))
            >= 0 by {
            assert(path.parts.take(n).len() == 0);
        }
    }
}

/// The name of the backend folder is taken out of an entry of that folder wherever it
/// stands again.
pub proof fn law_every_backend_folder_is_taken_out(name: Seq<char>, a: Seq<char>, b: Seq<char>)
    requires
        enclosed(name),
        with_slashes(name) == "_backend/"@ + a + "_backend/"@ + b,
        !stands_before(a + "_backend/"@ + b, "_backend/"@, a.len() as int),
        !stands_before(b, "_backend/"@, b.len() as int),
        b.len() > 0,
        b.last() != '/',
        enclosed(a + b),
    ensures
        destination(name) == Some(with_backslashes(a + b)),
{
    lemma_slashes(name);
    reveal_strlit("/");
    reveal_strlit("_backend/");
    reveal_strlit(".brix.json");
    reveal_strlit("_app_icon.ico");
    reveal_strlit("");
    let part = "_backend/"@;
    let path = with_slashes(name);
    assert(path == part + (a + part + b));
    assert(part.is_prefix_of(path));
    assert(path[0] == '_' && path[1] == 'b');
    assert(".brix.json"@[0] == '.' && "_app_icon.ico"@[1] == 'a');
    assert(!"/"@.is_suffix_of(path)) by {
        if "/"@.is_suffix_of(path) {
            assert(path.skip(path.len() - 1)[0] == "/"@[0]);
            assert(path.last() == b.last());
        }
    }
    law_occurrences_are_replaced(Seq::empty(), part, a + part + b, ""@);
    assert(Seq::<char>::empty() + part + (a + part + b) == path);
    law_occurrences_are_replaced(a, part, b, ""@);
    law_occurrences_are_replaced(b, part, Seq::empty(), ""@);
    assert(a + ""@ + b =~= a + b);
    assert(Seq::<char>::empty() + ""@ + (a + b) =~= a + b);
    lemma_slashes(a + b);
}

/// A name comes into an index under a key that is not taken, and changes nothing under
/// one that is.
pub proof fn law_taken_keys_keep_their_name(
    index: Map<Seq<char>, Seq<char>>,
    key: Seq<char>,
    name: Seq<char>,
    other: Seq<char>,
)
    ensures
        !index.contains_key(key) ==> with_name(index, key, name).contains_pair(key, name),
        index.contains_key(key) ==> with_name(index, key, name) == index,
        other != key ==> (with_name(index, key, name).contains_key(other) <==> index.contains_key(
            other,
        )),
        other != key && index.contains_key(other) ==> with_name(index, key, name)[other]
            == index[other],
{
}

} // verus!
