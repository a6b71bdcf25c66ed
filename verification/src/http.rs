//! One GET over HTTP: what is asked, which redirects are followed, and when it
//! fails. The host sends the requests and reports the replies.

use crate::text::{
    all_space, concat2, concat3, decimal, law_trimming_takes_the_ends_alone, no_space_around,
    same_text, to_decimal, trim, trimmed,
};
use crate::urls::{
    join_url, parse_url, request_target, target, url_joined, url_parsed, UrlParts, UrlView,
};
use crate::utf16::{decode, decoded, law_units_read_back, utf16};
use vstd::prelude::*;
use vstd::string::*;

verus! {

/// How many redirects are followed.
pub const MAX_REDIRECTS: usize = 5;

/// The most bytes that are downloaded: 256 MB.
pub const MAX_BODY: usize = 268_435_456;

/// One request.
#[derive(Debug)]
pub struct HttpRequest {
    pub host: String,
    pub port: u16,
    pub secure: bool,
    pub target: String,
}

/// One request as plain sequences.
#[verifier::ext_equal]
pub ghost struct RequestView {
    pub host: Seq<char>,
    pub port: u16,
    pub secure: bool,
    pub target: Seq<char>,
}

impl View for HttpRequest {
    type V = RequestView;

    open spec fn view(&self) -> RequestView {
        RequestView {
            host: self.host@,
            port: self.port,
            secure: self.secure,
            target: self.target@,
        }
    }
}

/// The stage at which a request failed before a status came.
#[derive(Debug, PartialEq, Eq, Structural, Clone, Copy)]
pub enum Stage {
    Open,
    Connect,
    OpenRequest,
    Send,
    Receive,
}

impl Stage {
    /// The message of the failure.
    pub open spec fn text(self) -> Seq<char> {
        match self {
            Stage::Open => "WinHttpOpen failed"@,
            Stage::Connect => "WinHttpConnect failed"@,
            Stage::OpenRequest => "WinHttpOpenRequest failed"@,
            Stage::Send => "WinHttpSendRequest failed"@,
            Stage::Receive => "WinHttpReceiveResponse failed"@,
        }
    }

    /// The message of the failure.
    pub fn message(&self) -> (r: &'static str)
        ensures
            r@ == self.text(),
    {
        match self {
            Stage::Open => "WinHttpOpen failed",
            Stage::Connect => "WinHttpConnect failed",
            Stage::OpenRequest => "WinHttpOpenRequest failed",
            Stage::Send => "WinHttpSendRequest failed",
            Stage::Receive => "WinHttpReceiveResponse failed",
        }
    }
}

/// What came of a request: a failure, or a status with the UTF-16 units of the
/// `Location` header where there is one.
#[derive(Debug)]
pub enum HttpReply {
    Failed(Stage),
    Answer { status: u32, location: Option<Vec<u16>> },
}

/// What is to be done next.
#[derive(Debug)]
pub enum FetchStep {
    Send(HttpRequest),
    ReadBody,
    Fail(String),
}

/// What is to be done next as plain sequences.
#[verifier::ext_equal]
pub ghost enum StepView {
    Send(RequestView),
    ReadBody,
    Fail(Seq<char>),
}

impl View for FetchStep {
    type V = StepView;

    open spec fn view(&self) -> StepView {
        match self {
            FetchStep::Send(request) => StepView::Send(request@),
            FetchStep::ReadBody => StepView::ReadBody,
            FetchStep::Fail(message) => StepView::Fail(message@),
        }
    }
}

/// The request for an address, or why it cannot be asked.
pub open spec fn request_of(url: UrlView) -> Result<RequestView, Seq<char>> {
    match url.host {
        Some(host) => Ok(
            RequestView {
                host,
                port: match url.known_port {
                    Some(port) => port,
                    None => 80,
                },
                secure: url.scheme == "https"@,
                target: target(url),
            },
        ),
        None => Err("url has no host"@),
    }
}

/// The request for an address in a text.
pub open spec fn request_for(text: Seq<char>) -> Result<RequestView, Seq<char>> {
    match url_parsed(text) {
        Ok(url) => request_of(url),
        Err(message) => Err(message),
    }
}

/// True for a status that redirects.
pub open spec fn redirects(status: u32) -> bool {
    300 <= status < 400
}

/// The text of a `Location` header.
pub open spec fn location_text(units: Seq<u16>) -> Seq<char> {
    trimmed(decoded(units))
}

/// The address that a redirect leads to: the location read from the address
/// before, or by itself where they do not fit.
pub open spec fn redirected(from: Seq<char>, location: Seq<char>) -> Seq<char> {
    match url_joined(from, location) {
        Some(url) => url,
        None => location,
    }
}

/// What a reply means for the download.
#[derive(Debug)]
pub enum Verdict {
    /// The body can be read.
    ReadBody,
    /// The location is asked next.
    Follow(String),
    Fail(String),
}

/// What a reply means for the download, as plain sequences.
#[verifier::ext_equal]
pub ghost enum VerdictView {
    ReadBody,
    Follow(Seq<char>),
    Fail(Seq<char>),
}

impl View for Verdict {
    type V = VerdictView;

    open spec fn view(&self) -> VerdictView {
        match self {
            Verdict::ReadBody => VerdictView::ReadBody,
            Verdict::Follow(location) => VerdictView::Follow(location@),
            Verdict::Fail(message) => VerdictView::Fail(message@),
        }
    }
}

/// What a reply means when `left` more redirects may be followed.
pub open spec fn verdict(reply: HttpReply, left: int) -> VerdictView {
    match reply {
        HttpReply::Failed(stage) => VerdictView::Fail(stage.text()),
        HttpReply::Answer { status, location } => if redirects(status) {
            match location {
                None => VerdictView::Fail(
                    "redirect without Location ("@ + decimal(status as int) + ")"@,
                ),
                Some(units) => if location_text(units@).len() == 0 {
                    VerdictView::Fail("redirect without Location"@)
                } else if left <= 0 {
                    VerdictView::Fail("too many redirects"@)
                } else {
                    VerdictView::Follow(location_text(units@))
                },
            }
        } else if status != 200 {
            VerdictView::Fail("HTTP status "@ + decimal(status as int))
        } else {
            VerdictView::ReadBody
        },
    }
}

/// What a reply means when `left` more redirects may be followed.
pub fn judge_reply(reply: &HttpReply, left: usize) -> (r: Verdict)
    ensures
        r@ == verdict(*reply, left as int),
{
    match reply {
        HttpReply::Failed(stage) => Verdict::Fail(stage.message().to_owned()),
        HttpReply::Answer { status, location } => {
            let status: u32 = *status;
            if 300 <= status && status < 400 {
                match location {
                    None => {
                        let number = to_decimal(status as u64);
                        Verdict::Fail(concat3("redirect without Location (", number.as_str(), ")"))
                    },
                    Some(units) => {
                        let text = decode(units);
                        let place = trim(text.as_str());
                        if place.as_str().is_empty() {
                            Verdict::Fail("redirect without Location".to_owned())
                        } else if left == 0 {
                            Verdict::Fail("too many redirects".to_owned())
                        } else {
                            Verdict::Follow(place)
                        }
                    },
                }
            } else if status != 200 {
                let number = to_decimal(status as u64);
                Verdict::Fail(concat2("HTTP status ", number.as_str()))
            } else {
                Verdict::ReadBody
            }
        },
    }
}

/// What is to be done after some replies, when `left` more redirects may be
/// followed.
pub open spec fn next_step(current: Seq<char>, left: int, replies: Seq<HttpReply>) -> StepView
    decreases replies.len(),
{
    match request_for(current) {
        Err(message) => StepView::Fail(message),
        Ok(request) => if replies.len() == 0 {
            StepView::Send(request)
        } else {
            match verdict(replies[0], left) {
                VerdictView::ReadBody => StepView::ReadBody,
                VerdictView::Fail(message) => StepView::Fail(message),
                VerdictView::Follow(location) => next_step(
                    redirected(current, location),
                    left - 1,
                    replies.drop_first(),
                ),
            }
        },
    }
}

/// The request for an address, or why it cannot be asked.
pub fn make_request(url: &UrlParts) -> (r: Result<HttpRequest, String>)
    ensures
        match r {
            Ok(request) => request_of(url@) == Ok::<RequestView, Seq<char>>(request@),
            Err(message) => request_of(url@) == Err::<RequestView, Seq<char>>(message@),
        },
{
    match &url.host {
        Some(host) => {
            let port: u16 = match url.known_port {
                Some(port) => port,
                None => 80,
            };
            Ok(
                HttpRequest {
                    host: host.as_str().to_owned(),
                    port,
                    secure: same_text(url.scheme.as_str(), "https"),
                    target: request_target(url),
                },
            )
        },
        None => Err("url has no host".to_owned()),
    }
}

fn request_to(text: &str) -> (r: Result<HttpRequest, String>)
    ensures
        match r {
            Ok(request) => request_for(text@) == Ok::<RequestView, Seq<char>>(request@),
            Err(message) => request_for(text@) == Err::<RequestView, Seq<char>>(message@),
        },
{
    match parse_url(text) {
        Ok(url) => make_request(&url),
        Err(message) => Err(message),
    }
}

fn follow(from: &str, location: &str) -> (r: String)
    ensures
        r@ == redirected(from@, location@),
{
    match join_url(from, location) {
        Some(url) => url,
        None => location.to_owned(),
    }
}

/// What is to be done to GET an address, after the replies to the requests sent
/// so far: send a request, read the body of the last reply, or give up. Up to
/// five redirects are followed.
pub fn http_get(url_str: &str, replies: &[HttpReply]) -> (step: FetchStep)
    ensures
        step@ == next_step(url_str@, 5, replies@),
{
    let mut current = url_str.to_owned();
    let mut left: usize = MAX_REDIRECTS;
    let mut i: usize = 0;
    assert(replies@.skip(0) == replies@);
    while i < replies.len()
        invariant
            i <= replies.len(),
            next_step(url_str@, 5, replies@) == next_step(
                current@,
                left as int,
                replies@.skip(i as int),
            ),
        decreases replies.len() - i,
    {
        assert(replies@.skip(i as int)[0] == replies@[i as int]);
        assert(replies@.skip(i as int).drop_first() == replies@.skip(i + 1));
        match request_to(current.as_str()) {
            Err(message) => {
                return FetchStep::Fail(message);
            },
            Ok(_) => {},
        }
        match judge_reply(&replies[i], left) {
            Verdict::ReadBody => {
                return FetchStep::ReadBody;
            },
            Verdict::Fail(message) => {
                return FetchStep::Fail(message);
            },
            Verdict::Follow(location) => {
                current = follow(current.as_str(), location.as_str());
                left -= 1;
            },
        }
        i += 1;
    }
    assert(replies@.skip(i as int).len() == 0);
    match request_to(current.as_str()) {
        Ok(request) => FetchStep::Send(request),
        Err(message) => FetchStep::Fail(message),
    }
}

/// At most six requests are ever sent for one address: the first, and one for
/// each redirect that is followed.
pub proof fn law_requests_are_bounded(url: Seq<char>, replies: Seq<HttpReply>)
    requires
        replies.len() >= 6,
    ensures
        !(next_step(url, 5, replies) is Send),
{
    lemma_requests_are_bounded(url, 5, replies);
}

proof fn lemma_requests_are_bounded(url: Seq<char>, left: int, replies: Seq<HttpReply>)
    requires
        left >= 0,
        replies.len() > left,
    ensures
        !(next_step(url, left, replies) is Send),
    decreases replies.len(),
{
    if replies.len() > 0 && left > 0 {
        match replies[0] {
            HttpReply::Answer { status, location } => {
                match location {
                    Some(units) => {
                        lemma_requests_are_bounded(
                            redirected(url, location_text(units@)),
                            left - 1,
                            replies.drop_first(),
                        );
                    },
                    None => {},
                }
            },
            HttpReply::Failed(_) => {},
        }
    }
}

/// A body is read only where the last reply said that all is well: every reply
/// before it redirected.
pub proof fn law_body_needs_success(url: Seq<char>, replies: Seq<HttpReply>)
    requires
        next_step(url, 5, replies) == StepView::ReadBody,
    ensures
        exists|i: int|
            0 <= i < replies.len() && (#[trigger] replies[i] matches HttpReply::Answer {
                status,
                ..
            } && status == 200) && forall|j: int|
                0 <= j < i ==> (#[trigger] replies[j] matches HttpReply::Answer { status, .. }
                    && redirects(status)),
{
    lemma_body_needs_success(url, 5, replies);
}

proof fn lemma_body_needs_success(url: Seq<char>, left: int, replies: Seq<HttpReply>)
    requires
        next_step(url, left, replies) == StepView::ReadBody,
    ensures
        exists|i: int|
            0 <= i < replies.len() && (#[trigger] replies[i] matches HttpReply::Answer {
                status,
                ..
            } && status == 200) && forall|j: int|
                0 <= j < i ==> (#[trigger] replies[j] matches HttpReply::Answer { status, .. }
                    && redirects(status)),
    decreases replies.len(),
{
    let first = replies[0];
    match first {
        HttpReply::Answer { status, location } => {
            if redirects(status) {
                match location {
                    Some(units) => {
                        let rest = replies.drop_first();
                        lemma_body_needs_success(
                            redirected(url, location_text(units@)),
                            left - 1,
                            rest,
                        );
                        let k = choose|i: int|
                            0 <= i < rest.len() && (#[trigger] rest[i] matches HttpReply::Answer {
                                status,
                                ..
                            } && status == 200) && forall|j: int|
                                0 <= j < i ==> (#[trigger] rest[j] matches HttpReply::Answer {
                                    status,
                                    ..
                                } && redirects(status));
                        assert(rest[k] == replies[k + 1]);
                        assert forall|j: int| 0 <= j < k + 1 implies (
                        #[trigger] replies[j] matches HttpReply::Answer { status, .. }
                            && redirects(status)) by {
                            if j > 0 {
                                assert(rest[j - 1] == replies[j]);
                            }
                        }
                    },
                    None => {},
                }
            } else {
                assert(replies[0] == first);
            }
        },
        HttpReply::Failed(_) => {},
    }
}

/// Takes one more piece of a body. The piece is kept, and then the body is
/// refused where it has grown beyond the limit.
pub fn append_body(body: &mut Vec<u8>, chunk: &[u8]) -> (r: Result<(), String>)
    ensures
        final(body)@ == old(body)@ + chunk@,
        match r {
            Ok(_) => final(body)@.len() <= 268_435_456,
            Err(message) => final(body)@.len() > 268_435_456 && message@
                == "download exceeds 256 MB"@,
        },
{
    body.extend_from_slice(chunk);
    assert(body@ == old(body)@ + chunk@);
    if body.len() > MAX_BODY {
        Err("download exceeds 256 MB".to_owned())
    } else {
        Ok(())
    }
}

/// The location of a redirect is the whole text of the header, query and all, but
/// for white space round it.
pub proof fn law_location_is_kept_whole(before: Seq<char>, s: Seq<char>, behind: Seq<char>)
    requires
        no_space_around(s),
        all_space(before),
        all_space(behind),
    ensures
        location_text(utf16(s)) == s,
        location_text(utf16(before + s + behind)) == s,
{
    law_units_read_back(s);
    law_units_read_back(before + s + behind);
    law_trimming_takes_the_ends_alone(before, s, behind);
    law_trimming_takes_the_ends_alone(Seq::empty(), s, Seq::empty());
    assert(Seq::<char>::empty() + s + Seq::<char>::empty() == s);
}

/// What is asked for an address: its host, at its port or else port 80, securely
/// for `https` alone, for its path and query. An address without a host is not
/// asked at all.
pub proof fn law_requests_ask_the_address(text: Seq<char>, url: UrlView)
    requires
        url_parsed(text) == Ok::<UrlView, Seq<char>>(url),
    ensures
        url.host is None ==> next_step(text, 5, Seq::empty()) == StepView::Fail("url has no host"@),
        url.host matches Some(host) ==> next_step(text, 5, Seq::empty()) == StepView::Send(
            RequestView {
                host,
                port: if url.known_port is Some {
                    url.known_port->0
                } else {
                    80
                },
                secure: url.scheme == "https"@,
                target: match url.query {
                    Some(query) => url.path + seq!['?'] + query,
                    None => if url.path.len() > 0 {
                        url.path
                    } else {
                        seq!['/']
                    },
                },
            },
        ),
{
}

/// A text that is no address is never asked: the download fails with what is
/// wrong with it.
pub proof fn law_bad_addresses_fail(text: Seq<char>, message: Seq<char>, replies: Seq<HttpReply>)
    requires
        url_parsed(text) == Err::<UrlView, Seq<char>>(message),
    ensures
        next_step(text, 5, replies) == StepView::Fail(message),
{
}

/// True for a text that names a host to ask.
pub open spec fn can_be_asked(text: Seq<char>) -> bool {
    url_parsed(text) matches Ok(url) && url.host is Some
}

/// A redirect is followed to its location, read from the address that was asked:
/// what comes next is what comes next for the new address, with one redirect
/// less.
pub proof fn law_redirects_are_followed(
    current: Seq<char>,
    left: int,
    replies: Seq<HttpReply>,
    status: u32,
    units: Vec<u16>,
    location: Seq<char>,
)
    requires
        can_be_asked(current),
        left > 0,
        replies.len() > 0,
        replies[0] == (HttpReply::Answer { status, location: Some(units) }),
        300 <= status <= 399,
        units@ == utf16(location),
        location.len() > 0,
        no_space_around(location),
    ensures
        next_step(current, left, replies) == next_step(
            match url_joined(current, location) {
                Some(whole) => whole,
                None => location,
            },
            left - 1,
            replies.drop_first(),
        ),
{
    law_location_is_kept_whole(Seq::empty(), location, Seq::empty());
}

/// What ends a download: a body that can be read after a status of 200, and a
/// failure with a message of its own after anything else that is no redirect.
pub proof fn law_other_replies_end_the_download(
    current: Seq<char>,
    left: int,
    replies: Seq<HttpReply>,
)
    requires
        can_be_asked(current),
        replies.len() > 0,
    ensures
        match replies[0] {
            HttpReply::Failed(Stage::Open) => next_step(current, left, replies) == StepView::Fail(
                "WinHttpOpen failed"@,
            ),
            HttpReply::Failed(Stage::Connect) => next_step(current, left, replies)
                == StepView::Fail("WinHttpConnect failed"@),
            HttpReply::Failed(Stage::OpenRequest) => next_step(current, left, replies)
                == StepView::Fail("WinHttpOpenRequest failed"@),
            HttpReply::Failed(Stage::Send) => next_step(current, left, replies) == StepView::Fail(
                "WinHttpSendRequest failed"@,
            ),
            HttpReply::Failed(Stage::Receive) => next_step(current, left, replies)
                == StepView::Fail("WinHttpReceiveResponse failed"@),
            HttpReply::Answer { status, location } => {
                &&& status == 200 ==> next_step(current, left, replies) == StepView::ReadBody
                &&& status != 200 && !(300 <= status <= 399) ==> next_step(current, left, replies)
                    == StepView::Fail("HTTP status "@ + decimal(status as int))
                &&& 300 <= status <= 399 && location is None ==> next_step(current, left, replies)
                    == StepView::Fail("redirect without Location ("@ + decimal(status as int) + ")"@)
            },
        },
{
}

/// A redirect that names no place, or that comes when no more are followed, ends
/// the download.
pub proof fn law_redirects_that_are_not_followed(
    current: Seq<char>,
    left: int,
    replies: Seq<HttpReply>,
    status: u32,
    units: Vec<u16>,
    location: Seq<char>,
)
    requires
        can_be_asked(current),
        replies.len() > 0,
        replies[0] == (HttpReply::Answer { status, location: Some(units) }),
        300 <= status <= 399,
        units@ == utf16(location),
    ensures
        all_space(location) ==> next_step(current, left, replies) == StepView::Fail(
            "redirect without Location"@,
        ),
        location.len() > 0 && no_space_around(location) && left <= 0 ==> next_step(
            current,
            left,
            replies,
        ) == StepView::Fail("too many redirects"@),
{
    if all_space(location) {
        law_location_is_kept_whole(location, Seq::empty(), Seq::empty());
        assert(location + Seq::<char>::empty() + Seq::<char>::empty() == location);
    }
    if no_space_around(location) {
        law_location_is_kept_whole(Seq::empty(), location, Seq::empty());
    }
}

/// True where each of some replies redirects from the address that was asked
/// before to the next of `addresses`.
pub open spec fn lead_through(addresses: Seq<Seq<char>>, replies: Seq<HttpReply>) -> bool {
    &&& addresses.len() == replies.len() + 1
    &&& forall|i: int| 0 <= i < addresses.len() ==> can_be_asked(#[trigger] addresses[i])
    &&& forall|i: int| 0 <= i < replies.len() ==> leads(addresses[i], #[trigger] replies[i], addresses[i + 1])
}

/// True for a reply that redirects from one address to another.
pub open spec fn leads(from: Seq<char>, reply: HttpReply, to: Seq<char>) -> bool {
    match reply {
        HttpReply::Answer { status, location: Some(units) } => 300 <= status <= 399 && exists|
            s: Seq<char>,
        |
            units@ == #[trigger] utf16(s) && s.len() > 0 && no_space_around(s) && (
            if url_joined(from, s) is Some {
                url_joined(from, s) == Some(to)
            } else {
                to == s
            }),
        _ => false,
    }
}

/// Five redirects in a row are followed: after each, the address it leads to is
/// asked. The sixth ends the download.
pub proof fn law_five_redirects_are_followed(addresses: Seq<Seq<char>>, replies: Seq<HttpReply>)
    requires
        lead_through(addresses, replies),
    ensures
        replies.len() <= 5 ==> next_step(addresses[0], 5, replies) == next_step(
            addresses.last(),
            5,
            Seq::empty(),
        ),
        replies.len() > 5 ==> next_step(addresses[0], 5, replies) == StepView::Fail(
            "too many redirects"@,
        ),
{
    lemma_redirects_in_a_row(addresses, 5, replies);
}

proof fn lemma_redirects_in_a_row(addresses: Seq<Seq<char>>, left: int, replies: Seq<HttpReply>)
    requires
        left >= 0,
        lead_through(addresses, replies),
    ensures
        replies.len() <= left ==> next_step(addresses[0], left, replies) == next_step(
            addresses.last(),
            5,
            Seq::empty(),
        ),
        replies.len() > left ==> next_step(addresses[0], left, replies) == StepView::Fail(
            "too many redirects"@,
        ),
    decreases replies.len(),
{
    assert(can_be_asked(addresses[0]));
    if replies.len() > 0 {
        assert(leads(addresses[0], replies[0], addresses[1]));
        if let HttpReply::Answer { status, location: Some(units) } = replies[0] {
            let s = choose|s: Seq<char>|
                units@ == #[trigger] utf16(s) && s.len() > 0 && no_space_around(s) && (
                if url_joined(addresses[0], s) is Some {
                    url_joined(addresses[0], s) == Some(addresses[1])
                } else {
                    addresses[1] == s
                });
            if left > 0 {
                law_redirects_are_followed(addresses[0], left, replies, status, units, s);
                let rest = addresses.drop_first();
                let later = replies.drop_first();
                assert forall|i: int| 0 <= i < rest.len() implies can_be_asked(
                    #[trigger] rest[i],
                ) by {
                    assert(rest[i] == addresses[i + 1]);
                }
                assert forall|i: int| 0 <= i < later.len() implies leads(
                    rest[i],
                    #[trigger] later[i],
                    rest[i + 1],
                ) by {
                    assert(later[i] == replies[i + 1]);
                    assert(leads(addresses[i + 1], replies[i + 1], addresses[i + 2]));
                }
                lemma_redirects_in_a_row(rest, left - 1, later);
                assert(rest.last() == addresses.last());
                assert(rest[0] == addresses[1]);
            } else {
                law_redirects_that_are_not_followed(
                    addresses[0],
                    left,
                    replies,
                    status,
                    units,
                    s,
                );
            }
        }
    }
}

} // verus!
