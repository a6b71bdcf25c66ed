//! Folder names made of app names.

use crate::text::{chars_of, concat2, is_space, is_whitespace};
use crate::winpath::{child_text, join_text};
use vstd::prelude::*;

verus! {

/// True for a character that Windows does not take in a folder name, or that
/// is white space.
pub open spec fn unfit(c: char) -> bool {
    ||| c == '<'
    ||| c == '>'
    ||| c == ':'
    ||| c == '"'
    ||| c == '/'
    ||| c == '\\'
    ||| c == '|'
    ||| c == '?'
    ||| c == '*'
    ||| c as u32 <= 0x1F
    ||| is_space(c)
}

/// `name` with `_` for every character that is unfit for a folder name.
pub open spec fn folder_name(name: Seq<char>) -> Seq<char> {
    name.map_values(
        |c: char|
            if unfit(c) {
                '_'
            } else {
                c
            },
    )
}

/// Replaces characters that are invalid in Windows folder names, and white
/// space.
pub fn sanitize_folder_name(name: &str) -> (r: String)
    ensures
        r@ == folder_name(name@),
{
    let chars = chars_of(name);
    let mut r = String::new();
    let mut i: usize = 0;
    while i < chars.len()
        invariant
            i <= chars.len(),
            r@ == folder_name(chars@).take(i as int),
        decreases chars.len() - i,
    {
        let c = chars[i];
        let bad = c == '<' || c == '>' || c == ':' || c == '"' || c == '/' || c == '\\' || c == '|'
            || c == '?' || c == '*' || c as u32 <= 0x1F || is_whitespace(c);
        r.push(
            if bad {
                '_'
            } else {
                c
            },
        );
        i += 1;
    }
    assert(folder_name(chars@).take(i as int) == folder_name(chars@));
    r
}

/// The name of an app's own folder, for its data and for its temporary files.
pub fn app_folder(name: &str) -> (r: String)
    ensures
        r@ == "brix_"@ + folder_name(name@),
{
    concat2("brix_", sanitize_folder_name(name).as_str())
}

/// The directory of an app in a base directory.
pub fn app_dir(base: &str, name: &str) -> (r: String)
    ensures
        r@ == child_text(base@, "brix_"@ + folder_name(name@)),
{
    let folder = app_folder(name);
    join_text(base, folder.as_str())
}

/// A sanitized name holds no unfit character and is as long as the name.
pub proof fn law_folder_name_is_fit(name: Seq<char>)
    ensures
        folder_name(name).len() == name.len(),
        forall|i: int| 0 <= i < name.len() ==> !unfit(#[trigger] folder_name(name)[i]),
{
}

/// A fit name is kept, so sanitizing twice changes nothing more.
pub proof fn law_folder_name_is_stable(name: Seq<char>)
    ensures
        folder_name(folder_name(name)) == folder_name(name),
{
    law_folder_name_is_fit(name);
}

/// An underscore stands for each of nine characters, for every control character
/// and for white space. Every other character is kept.
pub proof fn law_folder_name_by_character(name: Seq<char>, i: int)
    requires
        0 <= i < name.len(),
    ensures
        seq!['<', '>', ':', '"', '/', '\\', '|', '?', '*'].contains(name[i]) || (name[i] as u32)
            < 0x20 || is_space(name[i]) ==> folder_name(name)[i] == '_',
        !seq!['<', '>', ':', '"', '/', '\\', '|', '?', '*'].contains(name[i]) && name[i] as u32
            >= 0x20 && !is_space(name[i]) ==> folder_name(name)[i] == name[i],
        folder_name(name).len() == name.len(),
{
    let all = seq!['<', '>', ':', '"', '/', '\\', '|', '?', '*'];
    assert(all[0] == '<' && all[1] == '>' && all[2] == ':' && all[3] == '"' && all[4] == '/');
    assert(all[5] == '\\' && all[6] == '|' && all[7] == '?' && all[8] == '*');
}

} // verus!
