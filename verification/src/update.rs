//! Updates: what is offered, what is staged, and what is told to the pages.

use crate::config::UpdateSettings;
use crate::json::{
    bool_text, bool_value, json_text, member_texts, number_value, object_text, object_value, quoted,
    string_value,
};
use crate::reply::{
    lemma_before_by_first, lemma_four_members, lemma_two_members, member, written,
};
use crate::text::{decimal, maybe};
use crate::version::{is_newer_version, newer};
use crate::winpath::{child_text, join_text};
use vstd::prelude::*;
use vstd::string::*;

verus! {

/// The least size of a download that can be an app.
pub const MIN_UPDATE: usize = 100_000;

/// The file of a staged update in the temporary directory.
pub fn staged_path(temp_dir: &str) -> (r: String)
    ensures
        r@ == child_text(temp_dir@, ".brix_update.exe"@),
{
    join_text(temp_dir, ".brix_update.exe")
}

/// What a server offers: a version, where it is, and what is new in it.
#[derive(Debug)]
pub struct UpdateManifest {
    pub version: String,
    pub url: String,
    pub notes: Option<String>,
}

/// What is known of updates.
#[derive(Debug)]
pub struct UpdateState {
    pub manifest_url: Option<String>,
    pub manifest: Option<UpdateManifest>,
    pub downloaded: bool,
    pub auto_install: bool,
}

impl UpdateState {
    /// What is known at the start: where manifests come from, and whether an
    /// update is installed by itself.
    pub fn new(settings: &Option<UpdateSettings>) -> (state: UpdateState)
        ensures
            match *settings {
                Some(settings) => maybe(state.manifest_url) == Some(settings.url@)
                    && state.auto_install == settings.auto_install,
                None => state.manifest_url is None && !state.auto_install,
            },
            state.manifest is None,
            !state.downloaded,
    {
        match settings {
            Some(settings) => UpdateState {
                manifest_url: Some(settings.url.as_str().to_owned()),
                manifest: None,
                downloaded: false,
                auto_install: settings.auto_install,
            },
            None => UpdateState {
                manifest_url: None,
                manifest: None,
                downloaded: false,
                auto_install: false,
            },
        }
    }

    /// True where an update is installed when the app ends.
    pub open spec fn installs(self) -> bool {
        self.downloaded && self.manifest is Some && self.auto_install
    }

    /// True where an update is installed when the app ends: it is downloaded, it
    /// is still wanted, and the settings say so.
    pub fn wants_update(&self) -> (r: bool)
        ensures
            r == self.installs(),
    {
        self.downloaded && self.manifest.is_some() && self.auto_install
    }

    /// True where an update is downloaded and still wanted.
    pub fn is_staged(&self) -> (r: bool)
        ensures
            r == (self.downloaded && self.manifest is Some),
    {
        self.downloaded && self.manifest.is_some()
    }
}

/// The notes of a manifest; empty where it has none.
pub open spec fn notes_of(manifest: UpdateManifest) -> Seq<char> {
    match maybe(manifest.notes) {
        Some(notes) => notes,
        None => Seq::empty(),
    }
}

/// What the pages are told of a version that is not newer.
pub open spec fn none_event(version: Seq<char>) -> Seq<char> {
    object_text(seq![("event"@, quoted("update_none"@)), ("version"@, quoted(version))])
}

/// What the pages are told of a newer version.
pub open spec fn available_event(version: Seq<char>, notes: Seq<char>, staged: bool) -> Seq<char> {
    object_text(
        seq![
            ("alreadyDownloaded"@, bool_text(staged)),
            ("event"@, quoted("update_available"@)),
            ("notes"@, quoted(notes)),
            ("version"@, quoted(version)),
        ],
    )
}

/// What the pages are told of a download: an event and a size.
pub open spec fn size_event(event: Seq<char>, size: int) -> Seq<char> {
    object_text(seq![("event"@, quoted(event)), ("size"@, decimal(size))])
}

fn tell_none(version: &str) -> (text: String)
    ensures
        text@ == none_event(version@),
{
    let mut members: Vec<(String, serde_json::Value)> = Vec::new();
    members.push(member("event", string_value("update_none")));
    members.push(member("version", string_value(version)));
    proof {
        reveal_strlit("event");
        reveal_strlit("version");
        lemma_before_by_first("event"@, "version"@);
        assert(member_texts(members@) == seq![
            ("event"@, quoted("update_none"@)),
            ("version"@, quoted(version@)),
        ]);
    }
    json_text(&object_value(members))
}

fn tell_available(version: &str, notes: &str, staged: bool) -> (text: String)
    ensures
        text@ == available_event(version@, notes@, staged),
{
    let mut members: Vec<(String, serde_json::Value)> = Vec::new();
    members.push(member("alreadyDownloaded", bool_value(staged)));
    members.push(member("event", string_value("update_available")));
    members.push(member("notes", string_value(notes)));
    members.push(member("version", string_value(version)));
    proof {
        reveal_strlit("alreadyDownloaded");
        reveal_strlit("event");
        reveal_strlit("notes");
        reveal_strlit("version");
        lemma_before_by_first("alreadyDownloaded"@, "event"@);
        lemma_before_by_first("event"@, "notes"@);
        lemma_before_by_first("notes"@, "version"@);
        assert(member_texts(members@) == seq![
            ("alreadyDownloaded"@, bool_text(staged)),
            ("event"@, quoted("update_available"@)),
            ("notes"@, quoted(notes@)),
            ("version"@, quoted(version@)),
        ]);
    }
    json_text(&object_value(members))
}

fn tell_size(event: &str, size: u64) -> (text: String)
    ensures
        text@ == size_event(event@, size as int),
{
    let mut members: Vec<(String, serde_json::Value)> = Vec::new();
    members.push(member("event", string_value(event)));
    members.push(member("size", number_value(size)));
    proof {
        reveal_strlit("event");
        reveal_strlit("size");
        lemma_before_by_first("event"@, "size"@);
        assert(member_texts(members@) == seq![
            ("event"@, quoted(event@)),
            ("size"@, decimal(size as int)),
        ]);
    }
    json_text(&object_value(members))
}

/// True when a file of the given size, where there is one, is an update that
/// was downloaded before.
pub open spec fn staged_file(size: Option<u64>) -> bool {
    size matches Some(n) && n > 100_000
}

/// True when `after` is what is known once a manifest has been taken: a version
/// that is not newer clears what was offered, a newer one is offered.
pub open spec fn checked(
    before: UpdateState,
    after: UpdateState,
    app_version: Seq<char>,
    manifest: UpdateManifest,
    staged_size: Option<u64>,
) -> bool {
    &&& after.manifest_url == before.manifest_url
    &&& after.auto_install == before.auto_install
    &&& if newer(app_version, manifest.version@) {
        after.manifest == Some(manifest) && after.downloaded == staged_file(staged_size)
    } else {
        after.manifest is None && !after.downloaded
    }
}

/// Takes a manifest. A version that is not newer than the app clears what was
/// offered before; a newer one is offered, as downloaded where the staged file
/// is there already. Gives what the pages are told.
pub fn run_update_check(
    state: &mut UpdateState,
    app_version: &str,
    manifest: UpdateManifest,
    staged_size: Option<u64>,
) -> (event: String)
    ensures
        checked(*old(state), *final(state), app_version@, manifest, staged_size),
        event@ == (if newer(app_version@, manifest.version@) {
            available_event(manifest.version@, notes_of(manifest), staged_file(staged_size))
        } else {
            none_event(manifest.version@)
        }),
{
    let already_staged = match staged_size {
        Some(n) => n > 100_000,
        None => false,
    };
    if !is_newer_version(app_version, manifest.version.as_str()) {
        state.manifest = None;
        state.downloaded = false;
        return tell_none(manifest.version.as_str());
    }
    let event = match &manifest.notes {
        Some(notes) => tell_available(manifest.version.as_str(), notes.as_str(), already_staged),
        None => {
            proof {
                reveal_strlit("");
                assert(""@ == Seq::<char>::empty());
            }
            tell_available(manifest.version.as_str(), "", already_staged)
        },
    };
    state.manifest = Some(manifest);
    state.downloaded = already_staged;
    event
}

/// Refuses a download that is too small to be an app.
pub fn check_download(size: usize) -> (r: Result<(), String>)
    ensures
        match r {
            Ok(_) => size >= 100_000,
            Err(message) => size < 100_000 && message@ == "downloaded file is too small"@,
        },
{
    if size < MIN_UPDATE {
        Err("downloaded file is too small".to_owned())
    } else {
        Ok(())
    }
}

/// Notes that the download is staged. Gives what the pages are told.
pub fn download_update(state: &mut UpdateState, size: usize) -> (event: String)
    ensures
        final(state).downloaded,
        final(state).manifest == old(state).manifest,
        final(state).manifest_url == old(state).manifest_url,
        final(state).auto_install == old(state).auto_install,
        event@ == size_event("update_ready"@, size as int),
{
    state.downloaded = true;
    tell_size("update_ready", size as u64)
}

/// What the pages are told while a download grows from `before` to `after`
/// bytes: the size, whenever another kilobyte is complete.
pub fn download_progress(before: usize, after: usize) -> (event: Option<String>)
    ensures
        maybe(event) == (if after / 1024 > before / 1024 {
            Some(size_event("update_progress"@, after as int))
        } else {
            None
        }),
{
    if after / 1024 > before / 1024 {
        Some(tell_size("update_progress", after as u64))
    } else {
        None
    }
}

/// An app that was told of no newer version installs nothing when it ends,
/// whatever was offered or staged before.
pub proof fn law_no_newer_version_installs_nothing(
    before: UpdateState,
    after: UpdateState,
    app_version: Seq<char>,
    manifest: UpdateManifest,
    staged_size: Option<u64>,
)
    requires
        checked(before, after, app_version, manifest, staged_size),
        !newer(app_version, manifest.version@),
    ensures
        !after.installs(),
{
}

/// What is installed when the app ends is newer than the app.
pub proof fn law_installed_version_is_newer(
    before: UpdateState,
    after: UpdateState,
    app_version: Seq<char>,
    manifest: UpdateManifest,
    staged_size: Option<u64>,
)
    requires
        checked(before, after, app_version, manifest, staged_size),
        after.installs(),
    ensures
        after.manifest matches Some(offered) && newer(app_version, offered.version@),
        staged_file(staged_size),
{
}

/// A manifest with a newer version is offered, and counts as downloaded where a
/// staged file of more than 100,000 bytes is there. Any other manifest clears what
/// was offered. Where manifests come from, and whether an update is installed by
/// itself, never changes.
pub proof fn law_manifests_are_taken_by_their_version(
    before: UpdateState,
    after: UpdateState,
    app_version: Seq<char>,
    manifest: UpdateManifest,
    staged_size: Option<u64>,
)
    requires
        checked(before, after, app_version, manifest, staged_size),
    ensures
        newer(app_version, manifest.version@) ==> after.manifest == Some(manifest),
        newer(app_version, manifest.version@) && staged_size is Some && staged_size->0 > 100_000
            ==> after.downloaded,
        newer(app_version, manifest.version@) && (staged_size is None || staged_size->0 <= 100_000)
            ==> !after.downloaded,
        !newer(app_version, manifest.version@) ==> after.manifest is None && !after.downloaded,
        after.manifest_url == before.manifest_url,
        after.auto_install == before.auto_install,
{
}

/// An update is installed at the end exactly where it is downloaded, still offered,
/// and wanted by the settings.
pub proof fn law_installs_what_is_downloaded_and_wanted(state: UpdateState)
    ensures
        state.installs() <==> state.downloaded && state.manifest is Some && state.auto_install,
{
}

/// A file counts as a staged update from 100,001 bytes on.
pub proof fn law_staged_files_are_large(n: u64)
    ensures
        staged_file(Some(n)) <==> n > 100_000,
        !staged_file(None),
{
}

/// What the pages are told: which event it is, and of which version or size.
pub proof fn law_events_as_written(
    version: Seq<char>,
    notes: Seq<char>,
    event: Seq<char>,
    size: int,
)
    ensures
        none_event(version) == seq!['{'] + written("event"@, quoted("update_none"@)) + seq![',']
            + written("version"@, quoted(version)) + seq!['}'],
        size_event(event, size) == seq!['{'] + written("event"@, quoted(event)) + seq![',']
            + written("size"@, decimal(size)) + seq!['}'],
        available_event(version, notes, true) == seq!['{'] + written("alreadyDownloaded"@, "true"@)
            + seq![','] + written("event"@, quoted("update_available"@)) + seq![','] + written(
            "notes"@,
            quoted(notes),
        ) + seq![','] + written("version"@, quoted(version)) + seq!['}'],
        available_event(version, notes, false) == seq!['{'] + written(
            "alreadyDownloaded"@,
            "false"@,
        ) + seq![','] + written("event"@, quoted("update_available"@)) + seq![','] + written(
            "notes"@,
            quoted(notes),
        ) + seq![','] + written("version"@, quoted(version)) + seq!['}'],
{
    lemma_two_members(seq![("event"@, quoted("update_none"@)), ("version"@, quoted(version))]);
    lemma_two_members(seq![("event"@, quoted(event)), ("size"@, decimal(size))]);
    lemma_four_members(
        seq![
            ("alreadyDownloaded"@, bool_text(true)),
            ("event"@, quoted("update_available"@)),
            ("notes"@, quoted(notes)),
            ("version"@, quoted(version)),
        ],
    );
    lemma_four_members(
        seq![
            ("alreadyDownloaded"@, bool_text(false)),
            ("event"@, quoted("update_available"@)),
            ("notes"@, quoted(notes)),
            ("version"@, quoted(version)),
        ],
    );
}

/// The notes of a manifest are its own, and empty where it has none.
pub proof fn law_notes_of_a_manifest(manifest: UpdateManifest)
    ensures
        manifest.notes matches Some(notes) ==> notes_of(manifest) == notes@,
        manifest.notes is None ==> notes_of(manifest).len() == 0,
{
}

} // verus!
