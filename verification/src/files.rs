//! The calls of the pages on files: inside the sandbox they are carried out,
//! outside it they are refused.

use crate::codec::{base64_encode, base64_text};
use crate::ipc::{FileOp, OpView};
use crate::json::{bool_text, quoted};
use crate::reply::{
    contents_reply, error_text, flag_reply, law_replies_as_written, ok_text, pair_text, reads_as_file, reads_as_reply,
    respond_err, single_text, written, written_reply,
};
use crate::sandbox::{resolve_scoped_path, scoped, Canonical};
use crate::text::{decimal, maybe};
use crate::winpath::{parent_path, rendered, PathView, WinPath};
use vstd::prelude::*;
use vstd::string::*;

verus! {

/// The message for a path that is missing or may not be used.
pub open spec fn refusal(op: OpView) -> Seq<char> {
    match op {
        OpView::Read => "fs_read_file: path missing or outside the sandbox"@,
        OpView::Write(_) => "fs_write_file: path missing or outside the sandbox"@,
        OpView::List => "fs_read_dir: path missing or outside the sandbox"@,
        OpView::MakeDir => "fs_mkdir: path missing or outside the sandbox"@,
        OpView::Remove { .. } => "fs_remove: path missing or outside the sandbox"@,
        OpView::Exists => "fs_exists: path missing or outside the sandbox"@,
    }
}

fn refusal_message(op: &FileOp) -> (r: &'static str)
    ensures
        r@ == refusal(op@),
{
    match op {
        FileOp::Read => "fs_read_file: path missing or outside the sandbox",
        FileOp::Write(_) => "fs_write_file: path missing or outside the sandbox",
        FileOp::List => "fs_read_dir: path missing or outside the sandbox",
        FileOp::MakeDir => "fs_mkdir: path missing or outside the sandbox",
        FileOp::Remove { .. } => "fs_remove: path missing or outside the sandbox",
        FileOp::Exists => "fs_exists: path missing or outside the sandbox",
    }
}

/// The directory that a path lies in.
pub open spec fn folder_of(path: PathView) -> Option<Seq<char>> {
    if path.parts.len() > 0 {
        Some(rendered(parent_path(path)))
    } else {
        None
    }
}

/// A file that may be used: its path, and that of the directory it lies in.
#[derive(Debug)]
pub struct FilePlace {
    pub path: String,
    pub folder: Option<String>,
}

/// Decides on a call on a file: the place that it may use, or the reply that
/// refuses it.
pub fn scope_file(
    id: u64,
    op: &FileOp,
    path: &str,
    data_dir: &WinPath,
    temp_dir: &WinPath,
    known: &Canonical,
) -> (r: Result<FilePlace, String>)
    ensures
        match scoped(
            data_dir@,
            temp_dir@,
            path@,
            known.data_dir@,
            known.temp_dir@,
            known.candidate@,
        ) {
            Some(place) => r matches Ok(file) && file.path@ == rendered(place) && maybe(file.folder)
                == folder_of(place),
            None => r matches Err(reply) && reply@ == error_text(id as int, refusal(op@))
                && reads_as_reply(reply@, id),
        },
{
    match resolve_scoped_path(data_dir, temp_dir, path, known) {
        Some(place) => {
            let text = place.to_text();
            let folder = if place.parts.len() > 0 {
                let mut above = place.copy();
                let ghost before = above@;
                above.parts.pop();
                assert(above@ == parent_path(before));
                Some(above.to_text())
            } else {
                None
            };
            Ok(FilePlace { path: text, folder })
        },
        None => Err(respond_err(id, refusal_message(op))),
    }
}

/// The reply to a call that reads a file: its contents in base64 and its size,
/// or a refusal where it could not be read.
pub open spec fn read_text(id: u64, contents: Option<Seq<u8>>) -> Seq<char> {
    match contents {
        Some(bytes) => ok_text(
            id as int,
            pair_text(
                "content"@,
                quoted(base64_text(bytes)),
                "size"@,
                decimal(bytes.len() as int),
            ),
        ),
        None => error_text(id as int, refusal(OpView::Read)),
    }
}

/// The reply to a call that reads a file.
pub fn read_reply(id: u64, contents: &Option<Vec<u8>>) -> (text: String)
    requires
        contents matches Some(bytes) ==> bytes@.len() <= usize::MAX / 4,
    ensures
        text@ == read_text(
            id,
            match *contents {
                Some(bytes) => Some(bytes@),
                None => None,
            },
        ),
        reads_as_reply(text@, id),
        contents matches Some(bytes) ==> reads_as_file(
            text@,
            base64_text(bytes@),
            bytes.len() as u64,
        ),
{
    match contents {
        Some(bytes) => {
            let content = base64_encode(bytes);
            contents_reply(id, content.as_str(), bytes.len() as u64)
        },
        None => respond_err(id, "fs_read_file: path missing or outside the sandbox"),
    }
}

/// The reply to a call that writes a file.
pub fn write_reply(id: u64, ok: bool, size: usize) -> (text: String)
    ensures
        text@ == (if ok {
            ok_text(
                id as int,
                pair_text("ok"@, bool_text(true), "size"@, decimal(size as int)),
            )
        } else {
            error_text(id as int, "fs_write_file: write failed"@)
        }),
        reads_as_reply(text@, id),
{
    if ok {
        written_reply(id, size as u64)
    } else {
        respond_err(id, "fs_write_file: write failed")
    }
}

/// The reply to a call that makes a directory.
pub fn make_dir_reply(id: u64, ok: bool) -> (text: String)
    ensures
        text@ == (if ok {
            ok_text(id as int, single_text("ok"@, bool_text(true)))
        } else {
            error_text(id as int, refusal(OpView::MakeDir))
        }),
        reads_as_reply(text@, id),
{
    if ok {
        flag_reply(id, "ok", true)
    } else {
        respond_err(id, "fs_mkdir: path missing or outside the sandbox")
    }
}

/// The reply to a call that removes something.
pub fn remove_reply(id: u64, ok: bool) -> (text: String)
    ensures
        text@ == (if ok {
            ok_text(id as int, single_text("ok"@, bool_text(true)))
        } else {
            error_text(id as int, "fs_remove: remove failed"@)
        }),
        reads_as_reply(text@, id),
{
    if ok {
        flag_reply(id, "ok", true)
    } else {
        respond_err(id, "fs_remove: remove failed")
    }
}

/// The ways to remove something.
#[derive(Debug, PartialEq, Eq, Structural, Clone, Copy)]
pub enum Removal {
    /// A directory and all in it.
    Tree,
    /// An empty directory.
    Dir,
    /// A file.
    File,
}

/// How something is removed: with all in it where that is asked for, and
/// otherwise as what it is.
pub fn removal(recursive: bool, is_dir: bool) -> (r: Removal)
    ensures
        r == (if recursive {
            Removal::Tree
        } else if is_dir {
            Removal::Dir
        } else {
            Removal::File
        }),
{
    if recursive {
        Removal::Tree
    } else if is_dir {
        Removal::Dir
    } else {
        Removal::File
    }
}

/// What a page writes it reads back: the content in a reply to a read of the
/// bytes that were written is the content that the page sent.
pub proof fn law_file_reads_back_as_written(id: u64, content: Seq<char>, written: Seq<u8>)
    requires
        base64_text(written) == content,
    ensures
        read_text(id, Some(written)) == ok_text(
            id as int,
            pair_text("content"@, quoted(content), "size"@, decimal(written.len() as int)),
        ),
{
}

/// Each call on a file is refused under its own name.
pub proof fn law_refusals_name_the_call(content: Seq<u8>, recursive: bool)
    ensures
        refusal(OpView::Read) == "fs_read_file: path missing or outside the sandbox"@,
        refusal(OpView::Write(content)) == "fs_write_file: path missing or outside the sandbox"@,
        refusal(OpView::List) == "fs_read_dir: path missing or outside the sandbox"@,
        refusal(OpView::MakeDir) == "fs_mkdir: path missing or outside the sandbox"@,
        refusal((OpView::Remove { recursive }))
            == "fs_remove: path missing or outside the sandbox"@,
        refusal(OpView::Exists) == "fs_exists: path missing or outside the sandbox"@,
{
}

/// The directory of a path is the path without its last part, and a path without
/// parts lies in none.
pub proof fn law_folders_lie_one_above(path: PathView, name: Seq<char>)
    ensures
        folder_of((PathView { parts: path.parts.push(name), ..path })) == Some(rendered(path)),
        path.parts.len() == 0 ==> folder_of(path) is None,
{
    let below = PathView { parts: path.parts.push(name), ..path };
    assert(path.parts.push(name).drop_last() == path.parts);
    assert(parent_path(below) == path);
}

/// A file that was read is answered with its contents and its size, and one that
/// could not be read is refused.
pub proof fn law_files_that_are_read(id: u64, bytes: Seq<u8>)
    ensures
        read_text(id, Some(bytes)) == ok_text(
            id as int,
            seq!['{'] + written("content"@, quoted(base64_text(bytes))) + seq![','] + written(
                "size"@,
                decimal(bytes.len() as int),
            ) + seq!['}'],
        ),
        read_text(id, None) == error_text(
            id as int,
            "fs_read_file: path missing or outside the sandbox"@,
        ),
{
    law_replies_as_written(
        0,
        Seq::empty(),
        "content"@,
        quoted(base64_text(bytes)),
        "size"@,
        decimal(bytes.len() as int),
    );
}

} // verus!
