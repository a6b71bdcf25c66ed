//! The kinds of static files that an app is made of.

use crate::text::{
    ascii_lowered, chars_of, last_place, law_first_and_last_separator, law_small_letters,
    lemma_last_place, rfind, same_text, string_range, to_ascii_lower,
};
use vstd::prelude::*;

verus! {

/// What stands behind the last dot of a path; the whole path without one.
pub open spec fn extension(path: Seq<char>) -> Seq<char> {
    path.skip(last_place(path, '.') + 1)
}

/// The media type of a file extension, for the extensions of static files.
pub open spec fn media_type(ext: Seq<char>) -> Option<Seq<char>> {
    if ext == "html"@ || ext == "htm"@ {
        Some("text/html"@)
    } else if ext == "css"@ {
        Some("text/css"@)
    } else if ext == "js"@ {
        Some("application/javascript"@)
    } else if ext == "mjs"@ || ext == "cjs"@ {
        Some("text/javascript"@)
    } else if ext == "json"@ || ext == "map"@ {
        Some("application/json"@)
    } else if ext == "webmanifest"@ {
        Some("application/manifest+json"@)
    } else if ext == "wasm"@ {
        Some("application/wasm"@)
    } else if ext == "png"@ {
        Some("image/png"@)
    } else if ext == "jpg"@ || ext == "jpeg"@ {
        Some("image/jpeg"@)
    } else if ext == "gif"@ {
        Some("image/gif"@)
    } else if ext == "svg"@ {
        Some("image/svg+xml"@)
    } else if ext == "ico"@ {
        Some("image/x-icon"@)
    } else if ext == "webp"@ {
        Some("image/webp"@)
    } else if ext == "avif"@ {
        Some("image/avif"@)
    } else if ext == "bmp"@ {
        Some("image/bmp"@)
    } else if ext == "woff2"@ {
        Some("font/woff2"@)
    } else if ext == "woff"@ {
        Some("font/woff"@)
    } else if ext == "ttf"@ {
        Some("font/ttf"@)
    } else if ext == "otf"@ {
        Some("font/otf"@)
    } else if ext == "eot"@ {
        Some("application/vnd.ms-fontobject"@)
    } else if ext == "mp3"@ {
        Some("audio/mpeg"@)
    } else if ext == "wav"@ {
        Some("audio/wav"@)
    } else if ext == "ogg"@ {
        Some("audio/ogg"@)
    } else if ext == "m4a"@ {
        Some("audio/mp4"@)
    } else if ext == "aac"@ {
        Some("audio/aac"@)
    } else if ext == "flac"@ {
        Some("audio/flac"@)
    } else if ext == "mp4"@ || ext == "m4v"@ {
        Some("video/mp4"@)
    } else if ext == "webm"@ {
        Some("video/webm"@)
    } else if ext == "ogv"@ {
        Some("video/ogg"@)
    } else if ext == "mov"@ {
        Some("video/quicktime"@)
    } else if ext == "mpg"@ || ext == "mpeg"@ {
        Some("video/mpeg"@)
    } else if ext == "pdf"@ {
        Some("application/pdf"@)
    } else if ext == "txt"@ {
        Some("text/plain"@)
    } else if ext == "md"@ {
        Some("text/markdown"@)
    } else if ext == "csv"@ {
        Some("text/csv"@)
    } else if ext == "xml"@ {
        Some("application/xml"@)
    } else {
        None
    }
}

/// The media type of a path: that of its extension, or the one for any bytes.
pub open spec fn mime_of(path: Seq<char>) -> Seq<char> {
    if path.contains('.') && media_type(extension(path)) is Some {
        media_type(extension(path))->0
    } else {
        "application/octet-stream"@
    }
}

fn find_media_type(ext: &str) -> (mime: Option<&'static str>)
    ensures
        match mime {
            Some(m) => media_type(ext@) == Some(m@),
            None => media_type(ext@) is None,
        },
{
    if same_text(ext, "html") || same_text(ext, "htm") {
        Some("text/html")
    } else if same_text(ext, "css") {
        Some("text/css")
    } else if same_text(ext, "js") {
        Some("application/javascript")
    } else if same_text(ext, "mjs") || same_text(ext, "cjs") {
        Some("text/javascript")
    } else if same_text(ext, "json") || same_text(ext, "map") {
        Some("application/json")
    } else if same_text(ext, "webmanifest") {
        Some("application/manifest+json")
    } else if same_text(ext, "wasm") {
        Some("application/wasm")
    } else if same_text(ext, "png") {
        Some("image/png")
    } else if same_text(ext, "jpg") || same_text(ext, "jpeg") {
        Some("image/jpeg")
    } else if same_text(ext, "gif") {
        Some("image/gif")
    } else if same_text(ext, "svg") {
        Some("image/svg+xml")
    } else if same_text(ext, "ico") {
        Some("image/x-icon")
    } else if same_text(ext, "webp") {
        Some("image/webp")
    } else if same_text(ext, "avif") {
        Some("image/avif")
    } else if same_text(ext, "bmp") {
        Some("image/bmp")
    } else if same_text(ext, "woff2") {
        Some("font/woff2")
    } else if same_text(ext, "woff") {
        Some("font/woff")
    } else if same_text(ext, "ttf") {
        Some("font/ttf")
    } else if same_text(ext, "otf") {
        Some("font/otf")
    } else if same_text(ext, "eot") {
        Some("application/vnd.ms-fontobject")
    } else if same_text(ext, "mp3") {
        Some("audio/mpeg")
    } else if same_text(ext, "wav") {
        Some("audio/wav")
    } else if same_text(ext, "ogg") {
        Some("audio/ogg")
    } else if same_text(ext, "m4a") {
        Some("audio/mp4")
    } else if same_text(ext, "aac") {
        Some("audio/aac")
    } else if same_text(ext, "flac") {
        Some("audio/flac")
    } else if same_text(ext, "mp4") || same_text(ext, "m4v") {
        Some("video/mp4")
    } else if same_text(ext, "webm") {
        Some("video/webm")
    } else if same_text(ext, "ogv") {
        Some("video/ogg")
    } else if same_text(ext, "mov") {
        Some("video/quicktime")
    } else if same_text(ext, "mpg") || same_text(ext, "mpeg") {
        Some("video/mpeg")
    } else if same_text(ext, "pdf") {
        Some("application/pdf")
    } else if same_text(ext, "txt") {
        Some("text/plain")
    } else if same_text(ext, "md") {
        Some("text/markdown")
    } else if same_text(ext, "csv") {
        Some("text/csv")
    } else if same_text(ext, "xml") {
        Some("application/xml")
    } else {
        None
    }
}

/// The media type of a path by its extension, in lower case.
pub fn get_mime_type(path: &str) -> (mime: &'static str)
    ensures
        mime@ == mime_of(path@),
{
    let chars = chars_of(path);
    proof {
        lemma_last_place(path@, '.');
    }
    match rfind(&chars, '.') {
        Some(dot) => {
            assert(path@[dot as int] == '.');
            assert(path@.subrange(dot + 1, path@.len() as int) == extension(path@));
            let ext = string_range(&chars, dot + 1, chars.len());
            match find_media_type(ext.as_str()) {
                Some(mime) => mime,
                None => "application/octet-stream",
            }
        },
        None => "application/octet-stream",
    }
}

/// True for a path with the extension of a static file, in any letter case. A
/// path without a dot has no extension.
pub open spec fn static_file(path: Seq<char>) -> bool {
    path.contains('.') && media_type(ascii_lowered(extension(path))) is Some
}

/// True for a path with the extension of a static file, in any letter case. A
/// request for such a file that is missing is answered with a clean 404;
/// anything else is a client-side route and falls back to the entry document.
pub fn is_known_asset_ext(path: &str) -> (r: bool)
    ensures
        r == static_file(path@),
{
    let chars = chars_of(path);
    proof {
        lemma_last_place(path@, '.');
    }
    let start: usize = match rfind(&chars, '.') {
        Some(dot) => dot + 1,
        None => {
            return false;
        },
    };
    let mut ext = String::new();
    let ghost all = ascii_lowered(extension(path@));
    let mut i: usize = start;
    while i < chars.len()
        invariant
            start <= i <= chars.len(),
            start == last_place(path@, '.') + 1,
            chars@ == path@,
            all == ascii_lowered(extension(path@)),
            ext@ == all.take(i - start),
        decreases chars.len() - i,
    {
        assert(extension(path@)[i - start] == chars@[i as int]);
        ext.push(to_ascii_lower(chars[i]));
        i += 1;
        assert(ext@ == all.take(i - start));
    }
    assert(all.take(i - start) == all);
    find_media_type(ext.as_str()).is_some()
}

/// A path whose extension is in lower case names a static file exactly when it
/// has a media type of its own.
pub proof fn law_known_files_have_a_type(path: Seq<char>)
    requires
        ascii_lowered(extension(path)) == extension(path),
    ensures
        static_file(path) <==> mime_of(path) != "application/octet-stream"@,
{
    reveal_strlit("application/javascript");
    reveal_strlit("application/json");
    reveal_strlit("application/manifest+json");
    reveal_strlit("application/pdf");
    reveal_strlit("application/vnd.ms-fontobject");
    reveal_strlit("application/wasm");
    reveal_strlit("application/xml");
    reveal_strlit("audio/aac");
    reveal_strlit("audio/flac");
    reveal_strlit("audio/mp4");
    reveal_strlit("audio/mpeg");
    reveal_strlit("audio/ogg");
    reveal_strlit("audio/wav");
    reveal_strlit("font/otf");
    reveal_strlit("font/ttf");
    reveal_strlit("font/woff");
    reveal_strlit("font/woff2");
    reveal_strlit("image/avif");
    reveal_strlit("image/bmp");
    reveal_strlit("image/gif");
    reveal_strlit("image/jpeg");
    reveal_strlit("image/png");
    reveal_strlit("image/svg+xml");
    reveal_strlit("image/webp");
    reveal_strlit("image/x-icon");
    reveal_strlit("text/css");
    reveal_strlit("text/csv");
    reveal_strlit("text/html");
    reveal_strlit("text/javascript");
    reveal_strlit("text/markdown");
    reveal_strlit("text/plain");
    reveal_strlit("video/mp4");
    reveal_strlit("video/mpeg");
    reveal_strlit("video/ogg");
    reveal_strlit("video/quicktime");
    reveal_strlit("video/webm");
    reveal_strlit("application/octet-stream");
    if media_type(extension(path)) is Some {
        let mime = media_type(extension(path))->0;
        assert(mime.len() != 24 || mime[12] != 'o');
        assert("application/octet-stream"@.len() == 24 && "application/octet-stream"@[12] == 'o');
    }
}

proof fn lemma_extension(name: Seq<char>, ext: Seq<char>)
    requires
        !ext.contains('.'),
    ensures
        (name.push('.') + ext).contains('.'),
        extension(name.push('.') + ext) == ext,
{
    let path = name.push('.') + ext;
    law_first_and_last_separator(name, '.', ext);
    assert(path[name.len() as int] == '.');
    assert(path.skip(name.len() as int + 1) == ext);
}

/// The media type of a file is that of what stands behind its last dot. A file
/// with another extension, or with none, holds any bytes.
#[verifier::rlimit(60)]
pub proof fn law_extension_tells_the_type(name: Seq<char>, ext: Seq<char>)
    requires
        !ext.contains('.'),
    ensures
        ext == "html"@ || ext == "htm"@ ==> mime_of(name.push('.') + ext) == "text/html"@,
        ext == "css"@ ==> mime_of(name.push('.') + ext) == "text/css"@,
        ext == "js"@ ==> mime_of(name.push('.') + ext) == "application/javascript"@,
        ext == "mjs"@ || ext == "cjs"@ ==> mime_of(name.push('.') + ext) == "text/javascript"@,
        ext == "json"@ || ext == "map"@ ==> mime_of(name.push('.') + ext) == "application/json"@,
        ext == "webmanifest"@ ==> mime_of(name.push('.') + ext) == "application/manifest+json"@,
        ext == "wasm"@ ==> mime_of(name.push('.') + ext) == "application/wasm"@,
        ext == "png"@ ==> mime_of(name.push('.') + ext) == "image/png"@,
        ext == "jpg"@ || ext == "jpeg"@ ==> mime_of(name.push('.') + ext) == "image/jpeg"@,
        ext == "gif"@ ==> mime_of(name.push('.') + ext) == "image/gif"@,
        ext == "svg"@ ==> mime_of(name.push('.') + ext) == "image/svg+xml"@,
        ext == "ico"@ ==> mime_of(name.push('.') + ext) == "image/x-icon"@,
        ext == "webp"@ ==> mime_of(name.push('.') + ext) == "image/webp"@,
        ext == "avif"@ ==> mime_of(name.push('.') + ext) == "image/avif"@,
        ext == "bmp"@ ==> mime_of(name.push('.') + ext) == "image/bmp"@,
        ext == "woff2"@ ==> mime_of(name.push('.') + ext) == "font/woff2"@,
        ext == "woff"@ ==> mime_of(name.push('.') + ext) == "font/woff"@,
        ext == "ttf"@ ==> mime_of(name.push('.') + ext) == "font/ttf"@,
        ext == "otf"@ ==> mime_of(name.push('.') + ext) == "font/otf"@,
        ext == "eot"@ ==> mime_of(name.push('.') + ext) == "application/vnd.ms-fontobject"@,
        ext == "mp3"@ ==> mime_of(name.push('.') + ext) == "audio/mpeg"@,
        ext == "wav"@ ==> mime_of(name.push('.') + ext) == "audio/wav"@,
        ext == "ogg"@ ==> mime_of(name.push('.') + ext) == "audio/ogg"@,
        ext == "m4a"@ ==> mime_of(name.push('.') + ext) == "audio/mp4"@,
        ext == "aac"@ ==> mime_of(name.push('.') + ext) == "audio/aac"@,
        ext == "flac"@ ==> mime_of(name.push('.') + ext) == "audio/flac"@,
        ext == "mp4"@ || ext == "m4v"@ ==> mime_of(name.push('.') + ext) == "video/mp4"@,
        ext == "webm"@ ==> mime_of(name.push('.') + ext) == "video/webm"@,
        ext == "ogv"@ ==> mime_of(name.push('.') + ext) == "video/ogg"@,
        ext == "mov"@ ==> mime_of(name.push('.') + ext) == "video/quicktime"@,
        ext == "mpg"@ || ext == "mpeg"@ ==> mime_of(name.push('.') + ext) == "video/mpeg"@,
        ext == "pdf"@ ==> mime_of(name.push('.') + ext) == "application/pdf"@,
        ext == "txt"@ ==> mime_of(name.push('.') + ext) == "text/plain"@,
        ext == "md"@ ==> mime_of(name.push('.') + ext) == "text/markdown"@,
        ext == "csv"@ ==> mime_of(name.push('.') + ext) == "text/csv"@,
        ext == "xml"@ ==> mime_of(name.push('.') + ext) == "application/xml"@,
        mime_of(name.push('.') + ext) != "application/octet-stream"@ ==> ext == "html"@ || ext == "htm"@ || ext == "css"@ || ext == "js"@ || ext == "mjs"@ || ext == "cjs"@ || ext == "json"@ || ext == "map"@ || ext == "webmanifest"@ || ext == "wasm"@ || ext == "png"@ || ext == "jpg"@ || ext == "jpeg"@ || ext == "gif"@ || ext == "svg"@ || ext == "ico"@ || ext == "webp"@ || ext == "avif"@ || ext == "bmp"@ || ext == "woff2"@ || ext == "woff"@ || ext == "ttf"@ || ext == "otf"@ || ext == "eot"@ || ext == "mp3"@ || ext == "wav"@ || ext == "ogg"@ || ext == "m4a"@ || ext == "aac"@ || ext == "flac"@ || ext == "mp4"@ || ext == "m4v"@ || ext == "webm"@ || ext == "ogv"@ || ext == "mov"@ || ext == "mpg"@ || ext == "mpeg"@ || ext == "pdf"@ || ext == "txt"@ || ext == "md"@ || ext == "csv"@ || ext == "xml"@,
        mime_of(ext) == "application/octet-stream"@,
{
    lemma_extension(name, ext);
    reveal_strlit("html");
    reveal_strlit("htm");
    reveal_strlit("css");
    reveal_strlit("js");
    reveal_strlit("mjs");
    reveal_strlit("cjs");
    reveal_strlit("json");
    reveal_strlit("map");
    reveal_strlit("webmanifest");
    reveal_strlit("wasm");
    reveal_strlit("png");
    reveal_strlit("jpg");
    reveal_strlit("jpeg");
    reveal_strlit("gif");
    reveal_strlit("svg");
    reveal_strlit("ico");
    reveal_strlit("webp");
    reveal_strlit("avif");
    reveal_strlit("bmp");
    reveal_strlit("woff2");
    reveal_strlit("woff");
    reveal_strlit("ttf");
    reveal_strlit("otf");
    reveal_strlit("eot");
    reveal_strlit("mp3");
    reveal_strlit("wav");
    reveal_strlit("ogg");
    reveal_strlit("m4a");
    reveal_strlit("aac");
    reveal_strlit("flac");
    reveal_strlit("mp4");
    reveal_strlit("m4v");
    reveal_strlit("webm");
    reveal_strlit("ogv");
    reveal_strlit("mov");
    reveal_strlit("mpg");
    reveal_strlit("mpeg");
    reveal_strlit("pdf");
    reveal_strlit("txt");
    reveal_strlit("md");
    reveal_strlit("csv");
    reveal_strlit("xml");
    assert("html"@.len() == 4 && "html"@[0] == 'h' && "html"@[1] == 't' && "html"@[2] == 'm' && "html"@[3] == 'l');
    assert("htm"@.len() == 3 && "htm"@[0] == 'h' && "htm"@[1] == 't' && "htm"@[2] == 'm');
    assert("css"@.len() == 3 && "css"@[0] == 'c' && "css"@[1] == 's' && "css"@[2] == 's');
    assert("js"@.len() == 2 && "js"@[0] == 'j' && "js"@[1] == 's');
    assert("mjs"@.len() == 3 && "mjs"@[0] == 'm' && "mjs"@[1] == 'j' && "mjs"@[2] == 's');
    assert("cjs"@.len() == 3 && "cjs"@[0] == 'c' && "cjs"@[1] == 'j' && "cjs"@[2] == 's');
    assert("json"@.len() == 4 && "json"@[0] == 'j' && "json"@[1] == 's' && "json"@[2] == 'o' && "json"@[3] == 'n');
    assert("map"@.len() == 3 && "map"@[0] == 'm' && "map"@[1] == 'a' && "map"@[2] == 'p');
    assert("webmanifest"@.len() == 11 && "webmanifest"@[0] == 'w' && "webmanifest"@[1] == 'e' && "webmanifest"@[2] == 'b' && "webmanifest"@[3] == 'm' && "webmanifest"@[4] == 'a' && "webmanifest"@[5] == 'n' && "webmanifest"@[6] == 'i' && "webmanifest"@[7] == 'f' && "webmanifest"@[8] == 'e' && "webmanifest"@[9] == 's' && "webmanifest"@[10] == 't');
    assert("wasm"@.len() == 4 && "wasm"@[0] == 'w' && "wasm"@[1] == 'a' && "wasm"@[2] == 's' && "wasm"@[3] == 'm');
    assert("png"@.len() == 3 && "png"@[0] == 'p' && "png"@[1] == 'n' && "png"@[2] == 'g');
    assert("jpg"@.len() == 3 && "jpg"@[0] == 'j' && "jpg"@[1] == 'p' && "jpg"@[2] == 'g');
    assert("jpeg"@.len() == 4 && "jpeg"@[0] == 'j' && "jpeg"@[1] == 'p' && "jpeg"@[2] == 'e' && "jpeg"@[3] == 'g');
    assert("gif"@.len() == 3 && "gif"@[0] == 'g' && "gif"@[1] == 'i' && "gif"@[2] == 'f');
    assert("svg"@.len() == 3 && "svg"@[0] == 's' && "svg"@[1] == 'v' && "svg"@[2] == 'g');
    assert("ico"@.len() == 3 && "ico"@[0] == 'i' && "ico"@[1] == 'c' && "ico"@[2] == 'o');
    assert("webp"@.len() == 4 && "webp"@[0] == 'w' && "webp"@[1] == 'e' && "webp"@[2] == 'b' && "webp"@[3] == 'p');
    assert("avif"@.len() == 4 && "avif"@[0] == 'a' && "avif"@[1] == 'v' && "avif"@[2] == 'i' && "avif"@[3] == 'f');
    assert("bmp"@.len() == 3 && "bmp"@[0] == 'b' && "bmp"@[1] == 'm' && "bmp"@[2] == 'p');
    assert("woff2"@.len() == 5 && "woff2"@[0] == 'w' && "woff2"@[1] == 'o' && "woff2"@[2] == 'f' && "woff2"@[3] == 'f' && "woff2"@[4] == '2');
    assert("woff"@.len() == 4 && "woff"@[0] == 'w' && "woff"@[1] == 'o' && "woff"@[2] == 'f' && "woff"@[3] == 'f');
    assert("ttf"@.len() == 3 && "ttf"@[0] == 't' && "ttf"@[1] == 't' && "ttf"@[2] == 'f');
    assert("otf"@.len() == 3 && "otf"@[0] == 'o' && "otf"@[1] == 't' && "otf"@[2] == 'f');
    assert("eot"@.len() == 3 && "eot"@[0] == 'e' && "eot"@[1] == 'o' && "eot"@[2] == 't');
    assert("mp3"@.len() == 3 && "mp3"@[0] == 'm' && "mp3"@[1] == 'p' && "mp3"@[2] == '3');
    assert("wav"@.len() == 3 && "wav"@[0] == 'w' && "wav"@[1] == 'a' && "wav"@[2] == 'v');
    assert("ogg"@.len() == 3 && "ogg"@[0] == 'o' && "ogg"@[1] == 'g' && "ogg"@[2] == 'g');
    assert("m4a"@.len() == 3 && "m4a"@[0] == 'm' && "m4a"@[1] == '4' && "m4a"@[2] == 'a');
    assert("aac"@.len() == 3 && "aac"@[0] == 'a' && "aac"@[1] == 'a' && "aac"@[2] == 'c');
    assert("flac"@.len() == 4 && "flac"@[0] == 'f' && "flac"@[1] == 'l' && "flac"@[2] == 'a' && "flac"@[3] == 'c');
    assert("mp4"@.len() == 3 && "mp4"@[0] == 'm' && "mp4"@[1] == 'p' && "mp4"@[2] == '4');
    assert("m4v"@.len() == 3 && "m4v"@[0] == 'm' && "m4v"@[1] == '4' && "m4v"@[2] == 'v');
    assert("webm"@.len() == 4 && "webm"@[0] == 'w' && "webm"@[1] == 'e' && "webm"@[2] == 'b' && "webm"@[3] == 'm');
    assert("ogv"@.len() == 3 && "ogv"@[0] == 'o' && "ogv"@[1] == 'g' && "ogv"@[2] == 'v');
    assert("mov"@.len() == 3 && "mov"@[0] == 'm' && "mov"@[1] == 'o' && "mov"@[2] == 'v');
    assert("mpg"@.len() == 3 && "mpg"@[0] == 'm' && "mpg"@[1] == 'p' && "mpg"@[2] == 'g');
    assert("mpeg"@.len() == 4 && "mpeg"@[0] == 'm' && "mpeg"@[1] == 'p' && "mpeg"@[2] == 'e' && "mpeg"@[3] == 'g');
    assert("pdf"@.len() == 3 && "pdf"@[0] == 'p' && "pdf"@[1] == 'd' && "pdf"@[2] == 'f');
    assert("txt"@.len() == 3 && "txt"@[0] == 't' && "txt"@[1] == 'x' && "txt"@[2] == 't');
    assert("md"@.len() == 2 && "md"@[0] == 'm' && "md"@[1] == 'd');
    assert("csv"@.len() == 3 && "csv"@[0] == 'c' && "csv"@[1] == 's' && "csv"@[2] == 'v');
    assert("xml"@.len() == 3 && "xml"@[0] == 'x' && "xml"@[1] == 'm' && "xml"@[2] == 'l');
}

proof fn lemma_lowered_has_no_dot(ext: Seq<char>)
    requires
        !ext.contains('.'),
    ensures
        !ascii_lowered(ext).contains('.'),
{
    law_small_letters(ext);
    if ascii_lowered(ext).contains('.') {
        let i = choose|i: int| 0 <= i < ascii_lowered(ext).len() && ascii_lowered(ext)[i] == '.';
        assert(ext[i] != '.');
        assert(ascii_lowered(ext)[i] as int == ext[i] as int + 32 || ascii_lowered(ext)[i] == ext[i]);
    }
}

/// A path names a static file, whatever the letter case of its extension, where
/// the same path with the extension in lower case has a media type of its own. A
/// path without a dot names none.
pub proof fn law_static_files_in_any_letter_case(name: Seq<char>, ext: Seq<char>)
    requires
        !ext.contains('.'),
    ensures
        static_file(name.push('.') + ext) <==> mime_of(name.push('.') + ascii_lowered(ext))
            != "application/octet-stream"@,
        !static_file(ext),
{
    lemma_lowered_has_no_dot(ext);
    lemma_extension(name, ext);
    lemma_extension(name, ascii_lowered(ext));
    let path = name.push('.') + ascii_lowered(ext);
    law_small_letters(ext);
    law_small_letters(ascii_lowered(ext));
    assert(ascii_lowered(ascii_lowered(ext)) == ascii_lowered(ext));
    law_known_files_have_a_type(path);
}

} // verus!
