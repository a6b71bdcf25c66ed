//! Addresses: which of them leave the app, what secondary windows open, and
//! what is asked of a server.

use crate::text::{
    chars_of, concat3, last_place, law_first_and_last_separator, law_leading_characters_go, maybe, rfind, same_text, starts_with, string_range,
    trim_start_char, without_leading,
};
use vstd::prelude::*;
use vstd::string::*;

verus! {

/// The parts of an address that the host looks at.
#[derive(Debug)]
pub struct UrlParts {
    pub scheme: String,
    pub host: Option<String>,
    /// The port that the address names.
    pub port: Option<u16>,
    /// The port that the address names, or else the known one of its scheme.
    pub known_port: Option<u16>,
    pub path: String,
    pub query: Option<String>,
}

/// The parts of an address.
#[verifier::ext_equal]
pub ghost struct UrlView {
    pub scheme: Seq<char>,
    pub host: Option<Seq<char>>,
    pub port: Option<u16>,
    pub known_port: Option<u16>,
    pub path: Seq<char>,
    pub query: Option<Seq<char>>,
}

impl View for UrlParts {
    type V = UrlView;

    open spec fn view(&self) -> UrlView {
        UrlView {
            scheme: self.scheme@,
            host: maybe(self.host),
            port: self.port,
            known_port: self.known_port,
            path: self.path@,
            query: maybe(self.query),
        }
    }
}

/// What `url::Url::parse` makes of a text: the parts of the address, or the
/// message of the error.
pub uninterp spec fn url_parsed(text: Seq<char>) -> Result<UrlView, Seq<char>>;

/// What `url::Url::join` makes of a base and a reference: the whole address,
/// where the base is an address and the reference fits it.
pub uninterp spec fn url_joined(base: Seq<char>, reference: Seq<char>) -> Option<Seq<char>>;

/// `url::Url::parse`, and what its accessors say of the address.
#[verifier::external_body]
pub(crate) fn parse_url(text: &str) -> (r: Result<UrlParts, String>)
    ensures
        match r {
            Ok(parts) => url_parsed(text@) == Ok::<UrlView, Seq<char>>(parts@),
            Err(message) => url_parsed(text@) == Err::<UrlView, Seq<char>>(message@),
        },
{
    let url = url::Url::parse(text).map_err(|e: url::ParseError| e.to_string())?;
    Ok(UrlParts {
        scheme: url.scheme().to_owned(),
        host: url.host_str().map(|host: &str| host.to_owned()),
        port: url.port(),
        known_port: url.port_or_known_default(),
        path: url.path().to_owned(),
        query: url.query().map(|query: &str| query.to_owned()),
    })
}

/// `url::Url::join` on the address `base`.
#[verifier::external_body]
pub(crate) fn join_url(base: &str, reference: &str) -> (r: Option<String>)
    ensures
        maybe(r) == url_joined(base@, reference@),
{
    let url = url::Url::parse(base).ok()?;
    url.join(reference).ok().map(|whole: url::Url| whole.to_string())
}

/// True for the schemes whose pages belong to the app wherever they come from.
pub open spec fn inner_scheme(scheme: Seq<char>) -> bool {
    ||| scheme == "brix"@
    ||| scheme == "about"@
    ||| scheme == "data"@
    ||| scheme == "blob"@
    ||| scheme == "javascript"@
}

/// True for the schemes of the web.
pub open spec fn web_scheme(scheme: Seq<char>) -> bool {
    scheme == "http"@ || scheme == "https"@
}

/// True for this machine.
pub open spec fn local_host(host: Option<Seq<char>>) -> bool {
    host == Some("127.0.0.1"@) || host == Some("localhost"@)
}

/// True for an address that leaves the app. On the web, the app's own host
/// stays inside, and this machine does where a backend runs: a server may
/// redirect to another local port or bind one of its own.
pub open spec fn outside(url: UrlView, backend: bool) -> bool {
    if inner_scheme(url.scheme) {
        false
    } else if web_scheme(url.scheme) {
        if url.host == Some("brix.app"@) {
            false
        } else if local_host(url.host) {
            !backend
        } else {
            true
        }
    } else {
        true
    }
}

fn is_text(text: &Option<String>, other: &str) -> (r: bool)
    ensures
        r == (maybe(*text) == Some(other@)),
{
    match text {
        Some(text) => same_text(text, other),
        None => false,
    }
}

/// True for an address that leaves the app.
pub fn leaves_app(url: &UrlParts, backend_port: Option<u16>) -> (r: bool)
    ensures
        r == outside(url@, backend_port is Some),
{
    let scheme = url.scheme.as_str();
    if same_text(scheme, "brix") || same_text(scheme, "about") || same_text(scheme, "data")
        || same_text(scheme, "blob") || same_text(scheme, "javascript") {
        false
    } else if same_text(scheme, "http") || same_text(scheme, "https") {
        if is_text(&url.host, "brix.app") {
            false
        } else if is_text(&url.host, "127.0.0.1") || is_text(&url.host, "localhost") {
            backend_port.is_none()
        } else {
            true
        }
    } else {
        true
    }
}

/// True when an address points outside the app and should open in the default
/// browser. A text that is no address stays inside.
pub fn is_external_url(url: &str, backend_port: Option<u16>) -> (r: bool)
    ensures
        r == match url_parsed(url@) {
            Ok(parts) => outside(parts, backend_port is Some),
            Err(_) => false,
        },
{
    match parse_url(url) {
        Ok(parts) => leaves_app(&parts, backend_port),
        Err(_) => false,
    }
}

/// With a backend every web address on this machine is inside, whatever its
/// port. Without one it is outside.
pub proof fn law_local_pages_belong_to_a_backend(url: UrlView)
    requires
        web_scheme(url.scheme),
        local_host(url.host),
    ensures
        !outside(url, true),
        outside(url, false),
{
    reveal_strlit("http");
    reveal_strlit("https");
    reveal_strlit("brix");
    reveal_strlit("about");
    reveal_strlit("data");
    reveal_strlit("blob");
    reveal_strlit("javascript");
    reveal_strlit("brix.app");
    reveal_strlit("127.0.0.1");
    reveal_strlit("localhost");
    assert("http"@[0] == 'h' && "https"@[0] == 'h');
    assert("brix"@[0] == 'b' && "about"@[0] == 'a' && "data"@[0] == 'd' && "blob"@[0] == 'b'
        && "javascript"@[0] == 'j');
    assert("brix.app"@.len() == 8 && "127.0.0.1"@.len() == 9 && "localhost"@.len() == 9);
}

/// Every other web host is outside, with a backend or without.
pub proof fn law_foreign_hosts_are_outside(url: UrlView, backend: bool)
    requires
        web_scheme(url.scheme),
        !local_host(url.host),
        url.host != Some("brix.app"@),
    ensures
        outside(url, backend),
{
    reveal_strlit("http");
    reveal_strlit("https");
    reveal_strlit("brix");
    reveal_strlit("about");
    reveal_strlit("data");
    reveal_strlit("blob");
    reveal_strlit("javascript");
    assert("http"@[0] == 'h' && "https"@[0] == 'h');
    assert("brix"@[0] == 'b' && "about"@[0] == 'a' && "data"@[0] == 'd' && "blob"@[0] == 'b'
        && "javascript"@[0] == 'j');
}

/// Only the pages of the app stay inside: those of an inner scheme, of the app's
/// own host, and of this machine where a backend runs.
pub proof fn law_only_own_pages_stay_inside(url: UrlView, backend: bool)
    requires
        !outside(url, backend),
    ensures
        inner_scheme(url.scheme) || (web_scheme(url.scheme) && (url.host == Some("brix.app"@) || (
        local_host(url.host) && backend))),
{
}

/// True for an address that is complete by itself.
pub open spec fn complete(url: Seq<char>) -> bool {
    "http://"@.is_prefix_of(url) || "https://"@.is_prefix_of(url) || "brix://"@.is_prefix_of(url)
}

/// The directory of an address: everything before its last slash.
pub open spec fn directory_of(entry: Seq<char>) -> Seq<char> {
    if last_place(entry, '/') >= 0 {
        entry.take(last_place(entry, '/'))
    } else {
        "http://brix.app"@
    }
}

/// The address that a secondary window opens: a complete one as it is, and any
/// other inside the directory of the app's entry.
pub open spec fn extra_url(url: Seq<char>, entry: Seq<char>) -> Seq<char> {
    if complete(url) {
        url
    } else {
        directory_of(entry) + seq!['/'] + without_leading(url, '/')
    }
}

/// Resolves the address of a secondary window.
pub fn resolve_extra_url(url: &str, entry_url: &str) -> (r: String)
    ensures
        r@ == extra_url(url@, entry_url@),
{
    if starts_with(url, "http://") || starts_with(url, "https://") || starts_with(url, "brix://") {
        return url.to_owned();
    }
    let chars = chars_of(entry_url);
    let base = match rfind(&chars, '/') {
        Some(place) => {
            assert(chars@.subrange(0, place as int) == entry_url@.take(place as int));
            string_range(&chars, 0, place)
        },
        None => "http://brix.app".to_owned(),
    };
    let rest = trim_start_char(url, '/');
    proof {
        reveal_strlit("/");
        assert("/"@ == seq!['/']);
    }
    concat3(base.as_str(), "/", rest.as_str())
}

/// A complete address is opened as it is, whatever the entry.
pub proof fn law_complete_addresses_pass_through(url: Seq<char>, entry: Seq<char>)
    requires
        complete(url),
    ensures
        extra_url(url, entry) == url,
{
}

/// Any other address opens beside the entry: below the same directory.
pub proof fn law_other_addresses_open_beside_the_entry(url: Seq<char>, entry: Seq<char>)
    requires
        !complete(url),
    ensures
        (directory_of(entry) + seq!['/']).is_prefix_of(extra_url(url, entry)),
{
}

/// What is asked of a server: the path and the query of an address.
pub open spec fn target(url: UrlView) -> Seq<char> {
    let whole = match url.query {
        Some(query) => url.path + seq!['?'] + query,
        None => url.path,
    };
    if whole.len() == 0 {
        seq!['/']
    } else {
        whole
    }
}

/// What is asked of a server: the path and the query of an address.
pub fn request_target(url: &UrlParts) -> (r: String)
    ensures
        r@ == target(url@),
{
    proof {
        reveal_strlit("?");
        reveal_strlit("/");
        assert("?"@ == seq!['?']);
        assert("/"@ == seq!['/']);
    }
    let whole = match &url.query {
        Some(query) => concat3(url.path.as_str(), "?", query),
        None => url.path.as_str().to_owned(),
    };
    if whole.as_str().is_empty() {
        "/".to_owned()
    } else {
        whole
    }
}

/// Of the web only the app's own host stays inside, and this machine by its two
/// names where a backend runs. Every other web address leaves the app.
pub proof fn law_web_addresses(url: UrlView, backend: bool)
    requires
        url.scheme == "http"@ || url.scheme == "https"@,
    ensures
        url.host == Some("brix.app"@) ==> !outside(url, backend),
        url.host == Some("127.0.0.1"@) || url.host == Some("localhost"@) ==> outside(url, backend)
            == !backend,
        url.host != Some("brix.app"@) && url.host != Some("127.0.0.1"@) && url.host != Some(
            "localhost"@,
        ) ==> outside(url, backend),
{
    if local_host(url.host) {
        law_local_pages_belong_to_a_backend(url);
    } else if url.host != Some("brix.app"@) {
        law_foreign_hosts_are_outside(url, backend);
    }
}

/// The pages of the app's own scheme, and those that a page makes itself, stay
/// inside. An address of any other scheme but the web's leaves the app.
pub proof fn law_other_addresses(url: UrlView, backend: bool)
    requires
        url.scheme != "http"@,
        url.scheme != "https"@,
    ensures
        outside(url, backend) <==> url.scheme != "brix"@ && url.scheme != "about"@ && url.scheme
            != "data"@ && url.scheme != "blob"@ && url.scheme != "javascript"@,
{
}

/// A secondary window opens an address with one of three schemes as it is.
pub proof fn law_windows_open_complete_addresses(rest: Seq<char>, entry: Seq<char>)
    ensures
        extra_url("http://"@ + rest, entry) == "http://"@ + rest,
        extra_url("https://"@ + rest, entry) == "https://"@ + rest,
        extra_url("brix://"@ + rest, entry) == "brix://"@ + rest,
{
    assert("http://"@.is_prefix_of("http://"@ + rest));
    assert("https://"@.is_prefix_of("https://"@ + rest));
    assert("brix://"@.is_prefix_of("brix://"@ + rest));
}

/// A secondary window opens any other path beside the file of the entry: in the
/// directory before the entry's last slash, and at the app's own host where the
/// entry has none. Slashes at the start of the path do not count.
pub proof fn law_windows_open_paths_beside_the_entry(
    slashes: nat,
    path: Seq<char>,
    directory: Seq<char>,
    file: Seq<char>,
)
    requires
        path.len() > 0 ==> path[0] != '/',
        slashes == 0 ==> !"http://"@.is_prefix_of(path) && !"https://"@.is_prefix_of(path)
            && !"brix://"@.is_prefix_of(path),
        !file.contains('/'),
    ensures
        extra_url(Seq::new(slashes, |i: int| '/') + path, directory + seq!['/'] + file) == directory
            + seq!['/'] + path,
        extra_url(Seq::new(slashes, |i: int| '/') + path, file) == "http://brix.app"@ + seq!['/']
            + path,
{
    let url = Seq::new(slashes, |i: int| '/') + path;
    let entry = directory + seq!['/'] + file;
    assert(entry == directory.push('/') + file);
    law_first_and_last_separator(directory, '/', file);
    law_leading_characters_go('/', slashes, path);
    assert(entry.take(directory.len() as int) == directory);
    reveal_strlit("http://");
    reveal_strlit("https://");
    reveal_strlit("brix://");
    assert("http://"@[0] == 'h' && "https://"@[0] == 'h' && "brix://"@[0] == 'b');
    if slashes > 0 {
        assert(url[0] == '/');
        assert(!complete(url)) by {
            if "http://"@.is_prefix_of(url) {
                assert(url[0] == "http://"@[0]);
            }
            if "https://"@.is_prefix_of(url) {
                assert(url[0] == "https://"@[0]);
            }
            if "brix://"@.is_prefix_of(url) {
                assert(url[0] == "brix://"@[0]);
            }
        }
    } else {
        assert(url == path);
    }
}

/// A server is asked for the path, with the query behind a question mark where
/// there is one; for the root where there is neither.
pub proof fn law_server_is_asked_for_path_and_query(url: UrlView, query: Seq<char>)
    ensures
        url.query == Some(query) ==> target(url) == url.path + seq!['?'] + query,
        url.query is None && url.path.len() > 0 ==> target(url) == url.path,
        url.query is None && url.path.len() == 0 ==> target(url) == seq!['/'],
{
}

} // verus!
