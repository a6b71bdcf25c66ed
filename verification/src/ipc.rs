//! The calls of the pages: reading a request, and deciding what it asks of the
//! host.

use crate::codec::{base64_bytes, base64_decode, base64_text};
use crate::dialog::{dialog_of, file_dialog, DialogView, FileDialog};
use crate::extension::{after_call, call_line, write_call, PendingCalls};
use crate::json::{
    bool_at, bool_member, bool_text, copy_value, json_get, json_member, json_parsed, json_text,
    null_value, number_at, number_member, parse_json, quoted, string_at, string_member, value_text,
};
use crate::reply::{
    error_text, flag_reply, law_replies_as_written, ok_text, pair_text, reads_as_reply,
    respond_err, single_text, staged_reply, text_reply, written,
};
use crate::text::{maybe, same_text, starts_with};
use crate::update::UpdateState;
use vstd::prelude::*;
use vstd::string::*;
use vstd::utf8::encode_utf8;

verus! {

/// The most bytes that the arguments of a call to the sidecar may have.
pub const MAX_ARGS: usize = 65_536;

// ---------------------------------------------------------------------------
// Requests
// ---------------------------------------------------------------------------

/// The arguments that the built-in methods look at.
#[derive(Debug)]
pub struct IpcArgs {
    pub url: Option<String>,
    pub text: Option<String>,
    pub title: Option<String>,
    pub message: Option<String>,
    pub path: Option<String>,
    pub content: Option<String>,
    pub recursive: Option<bool>,
    pub width: Option<u64>,
    pub height: Option<u64>,
    pub dialog: FileDialog,
}

/// The arguments as plain values.
#[verifier::ext_equal]
pub ghost struct ArgsView {
    pub url: Option<Seq<char>>,
    pub text: Option<Seq<char>>,
    pub title: Option<Seq<char>>,
    pub message: Option<Seq<char>>,
    pub path: Option<Seq<char>>,
    pub content: Option<Seq<char>>,
    pub recursive: Option<bool>,
    pub width: Option<u64>,
    pub height: Option<u64>,
    pub dialog: DialogView,
}

impl View for IpcArgs {
    type V = ArgsView;

    open spec fn view(&self) -> ArgsView {
        ArgsView {
            url: maybe(self.url),
            text: maybe(self.text),
            title: maybe(self.title),
            message: maybe(self.message),
            path: maybe(self.path),
            content: maybe(self.content),
            recursive: self.recursive,
            width: self.width,
            height: self.height,
            dialog: self.dialog@,
        }
    }
}

/// One request of a page.
#[derive(Debug)]
pub struct IpcRequest {
    pub id: u64,
    pub method: String,
    pub args: IpcArgs,
}

/// One request as plain values.
#[verifier::ext_equal]
pub ghost struct RequestView {
    pub id: u64,
    pub method: Seq<char>,
    pub args: ArgsView,
}

impl View for IpcRequest {
    type V = RequestView;

    open spec fn view(&self) -> RequestView {
        RequestView { id: self.id, method: self.method@, args: self.args@ }
    }
}

/// The arguments in a value.
pub open spec fn args_of(text: Seq<char>) -> ArgsView {
    ArgsView {
        url: string_member(text, "url"@),
        text: string_member(text, "text"@),
        title: string_member(text, "title"@),
        message: string_member(text, "message"@),
        path: string_member(text, "path"@),
        content: string_member(text, "content"@),
        recursive: bool_member(text, "recursive"@),
        width: number_member(text, "width"@),
        height: number_member(text, "height"@),
        dialog: dialog_of(text),
    }
}

/// The text of the arguments of a request: null where it has none.
pub open spec fn raw_args(text: Seq<char>) -> Seq<char> {
    match json_member(text, "args"@) {
        Some(args) => args,
        None => "null"@,
    }
}

/// A request from its parts: a missing number is 0, a missing method is empty.
pub open spec fn completed(id: Option<u64>, method: Option<Seq<char>>, args: ArgsView) -> RequestView {
    RequestView {
        id: match id {
            Some(id) => id,
            None => 0,
        },
        method: or_empty(method),
        args,
    }
}

/// The request in a value.
pub open spec fn request_of(text: Seq<char>) -> RequestView {
    completed(
        number_member(text, "id"@),
        string_member(text, "method"@),
        args_of(raw_args(text)),
    )
}

impl IpcRequest {
    /// A request from its parts: a missing number is 0, a missing method is
    /// empty.
    pub fn from_parts(id: Option<u64>, method: Option<String>, args: IpcArgs) -> (r: IpcRequest)
        ensures
            r@ == completed(id, maybe(method), args@),
    {
        let id: u64 = match id {
            Some(id) => id,
            None => 0,
        };
        let method = match method {
            Some(method) => method,
            None => String::new(),
        };
        IpcRequest { id, method, args }
    }
}

fn read_args(args: &serde_json::Value) -> (r: IpcArgs)
    ensures
        r@ == args_of(value_text(*args)),
{
    IpcArgs {
        url: string_at(args, "url"),
        text: string_at(args, "text"),
        title: string_at(args, "title"),
        message: string_at(args, "message"),
        path: string_at(args, "path"),
        content: string_at(args, "content"),
        recursive: bool_at(args, "recursive"),
        width: number_at(args, "width"),
        height: number_at(args, "height"),
        dialog: file_dialog(args),
    }
}

fn read_request(value: &serde_json::Value) -> (r: (IpcRequest, serde_json::Value))
    ensures
        r.0@ == request_of(value_text(*value)),
        value_text(r.1) == raw_args(value_text(*value)),
{
    let args = match json_get(value, "args") {
        Some(args) => copy_value(args),
        None => null_value(),
    };
    let request = IpcRequest::from_parts(
        number_at(value, "id"),
        string_at(value, "method"),
        read_args(&args),
    );
    (request, args)
}

// ---------------------------------------------------------------------------
// Actions
// ---------------------------------------------------------------------------

/// What is asked of a file or a directory.
#[derive(Debug)]
pub enum FileOp {
    Read,
    Write(Vec<u8>),
    List,
    MakeDir,
    Remove { recursive: bool },
    Exists,
}

/// What is asked of a file as plain values.
#[verifier::ext_equal]
pub ghost enum OpView {
    Read,
    Write(Seq<u8>),
    List,
    MakeDir,
    Remove { recursive: bool },
    Exists,
}

impl View for FileOp {
    type V = OpView;

    open spec fn view(&self) -> OpView {
        match self {
            FileOp::Read => OpView::Read,
            FileOp::Write(bytes) => OpView::Write(bytes@),
            FileOp::List => OpView::List,
            FileOp::MakeDir => OpView::MakeDir,
            FileOp::Remove { recursive } => OpView::Remove { recursive: *recursive },
            FileOp::Exists => OpView::Exists,
        }
    }
}

/// A window that a page asks for; what is missing is taken from the app.
#[derive(Debug)]
pub struct WindowRequest {
    pub title: Option<String>,
    pub width: Option<u64>,
    pub height: Option<u64>,
    pub url: Option<String>,
}

/// A window that a page asks for, as plain values.
#[verifier::ext_equal]
pub ghost struct WindowView {
    pub title: Option<Seq<char>>,
    pub width: Option<u64>,
    pub height: Option<u64>,
    pub url: Option<Seq<char>>,
}

impl View for WindowRequest {
    type V = WindowView;

    open spec fn view(&self) -> WindowView {
        WindowView {
            title: maybe(self.title),
            width: self.width,
            height: self.height,
            url: maybe(self.url),
        }
    }
}

/// What a request asks of the host. A `reply` goes back as soon as the rest has
/// been set going, but for that of a new window, which is held until the page of
/// the window has loaded; an `id` is for the reply that is made later.
#[derive(Debug)]
pub enum IpcAction {
    Reply(String),
    SystemInfo { id: u64 },
    OpenExternal { id: u64, url: String },
    ClipboardWrite { id: u64, text: String },
    ClipboardRead { id: u64 },
    FileDialog { id: u64, dialog: FileDialog },
    Notify { id: u64, title: String, message: String },
    HideSplash { reply: String },
    File { id: u64, op: FileOp, path: String },
    CheckUpdate { url: String, reply: String },
    DownloadUpdate { url: String, reply: String },
    OpenWindow { window: WindowRequest, reply: String },
    CloseWindow { reply: String },
    /// The line goes to the sidecar, which replies later.
    Forward { line: String },
    /// A method that the host itself does not know.
    Unknown { id: u64 },
}

/// What a request asks of the host, as plain values.
#[verifier::ext_equal]
pub ghost enum ActionView {
    Reply(Seq<char>),
    SystemInfo { id: u64 },
    OpenExternal { id: u64, url: Seq<char> },
    ClipboardWrite { id: u64, text: Seq<char> },
    ClipboardRead { id: u64 },
    FileDialog { id: u64, dialog: DialogView },
    Notify { id: u64, title: Seq<char>, message: Seq<char> },
    HideSplash { reply: Seq<char> },
    File { id: u64, op: OpView, path: Seq<char> },
    CheckUpdate { url: Seq<char>, reply: Seq<char> },
    DownloadUpdate { url: Seq<char>, reply: Seq<char> },
    OpenWindow { window: WindowView, reply: Seq<char> },
    CloseWindow { reply: Seq<char> },
    Forward { line: Seq<char> },
    Unknown { id: u64 },
}

impl View for IpcAction {
    type V = ActionView;

    open spec fn view(&self) -> ActionView {
        match self {
            IpcAction::Reply(text) => ActionView::Reply(text@),
            IpcAction::SystemInfo { id } => ActionView::SystemInfo { id: *id },
            IpcAction::OpenExternal { id, url } => ActionView::OpenExternal { id: *id, url: url@ },
            IpcAction::ClipboardWrite { id, text } => ActionView::ClipboardWrite {
                id: *id,
                text: text@,
            },
            IpcAction::ClipboardRead { id } => ActionView::ClipboardRead { id: *id },
            IpcAction::FileDialog { id, dialog } => ActionView::FileDialog {
                id: *id,
                dialog: dialog@,
            },
            IpcAction::Notify { id, title, message } => ActionView::Notify {
                id: *id,
                title: title@,
                message: message@,
            },
            IpcAction::HideSplash { reply } => ActionView::HideSplash { reply: reply@ },
            IpcAction::File { id, op, path } => ActionView::File { id: *id, op: op@, path: path@ },
            IpcAction::CheckUpdate { url, reply } => ActionView::CheckUpdate {
                url: url@,
                reply: reply@,
            },
            IpcAction::DownloadUpdate { url, reply } => ActionView::DownloadUpdate {
                url: url@,
                reply: reply@,
            },
            IpcAction::OpenWindow { window, reply } => ActionView::OpenWindow {
                window: window@,
                reply: reply@,
            },
            IpcAction::CloseWindow { reply } => ActionView::CloseWindow { reply: reply@ },
            IpcAction::Forward { line } => ActionView::Forward { line: line@ },
            IpcAction::Unknown { id } => ActionView::Unknown { id: *id },
        }
    }
}

/// A text, or the empty one where it is missing.
pub open spec fn or_empty(text: Option<Seq<char>>) -> Seq<char> {
    match text {
        Some(text) => text,
        None => Seq::empty(),
    }
}

/// A text that is there and not empty.
pub open spec fn filled(text: Option<Seq<char>>) -> Option<Seq<char>> {
    match text {
        Some(text) => if text.len() > 0 {
            Some(text)
        } else {
            None
        },
        None => None,
    }
}

/// The reply with one switch.
pub open spec fn flag_text(id: u64, key: Seq<char>, value: bool) -> Seq<char> {
    ok_text(id as int, single_text(key, bool_text(value)))
}

/// The reply with one status.
pub open spec fn status_text(id: u64, status: Seq<char>) -> Seq<char> {
    ok_text(id as int, single_text("status"@, quoted(status)))
}

/// A call on a file.
pub open spec fn file_action(id: u64, op: OpView, args: ArgsView) -> ActionView {
    ActionView::File { id, op, path: or_empty(args.path) }
}

/// What a request to write a file asks, when its content stands for the given
/// bytes; a content that stands for none is refused.
pub open spec fn write_action(id: u64, args: ArgsView, content: Option<Seq<u8>>) -> ActionView {
    match content {
        Some(bytes) => file_action(id, OpView::Write(bytes), args),
        None => ActionView::Reply(
            error_text(id as int, "fs_write_file: content must be base64"@),
        ),
    }
}

/// What a request to check for updates asks.
pub open spec fn check_action(id: u64, update: UpdateState) -> ActionView {
    match maybe(update.manifest_url) {
        Some(url) => ActionView::CheckUpdate { url, reply: status_text(id, "checking"@) },
        None => ActionView::Reply(error_text(id as int, "update: no update.url configured"@)),
    }
}

/// What a request to install an update asks: one that is staged is named, and
/// one that is offered on the web is downloaded first.
pub open spec fn install_action(id: u64, update: UpdateState, staged: Seq<char>) -> ActionView {
    if update.downloaded && update.manifest is Some {
        ActionView::Reply(
            ok_text(
                id as int,
                pair_text("path"@, quoted(staged), "status"@, quoted("ready"@)),
            ),
        )
    } else {
        match update.manifest {
            Some(manifest) => if "http"@.is_prefix_of(manifest.url@) {
                ActionView::DownloadUpdate {
                    url: manifest.url@,
                    reply: status_text(id, "downloading"@),
                }
            } else {
                ActionView::Reply(
                    error_text(id as int, "update: no available update to install"@),
                )
            },
            None => ActionView::Reply(
                error_text(id as int, "update: no available update to install"@),
            ),
        }
    }
}

/// What a request asks of the host.
pub open spec fn action_of(
    request: RequestView,
    app_name: Seq<char>,
    update: UpdateState,
    staged: Seq<char>,
) -> ActionView {
    let id = request.id;
    let method = request.method;
    let args = request.args;
    if method == "system_info"@ {
        ActionView::SystemInfo { id }
    } else if method == "open_external"@ {
        if or_empty(args.url).len() == 0 {
            ActionView::Reply(error_text(id as int, "open_external requires a url"@))
        } else {
            ActionView::OpenExternal { id, url: or_empty(args.url) }
        }
    } else if method == "clipboard_write"@ {
        ActionView::ClipboardWrite { id, text: or_empty(args.text) }
    } else if method == "clipboard_read"@ {
        ActionView::ClipboardRead { id }
    } else if method == "file_dialog"@ {
        ActionView::FileDialog { id, dialog: args.dialog }
    } else if method == "notification"@ {
        ActionView::Notify {
            id,
            title: match args.title {
                Some(title) => title,
                None => app_name,
            },
            message: or_empty(args.message),
        }
    } else if method == "splash_hide"@ {
        ActionView::HideSplash { reply: flag_text(id, "ok"@, true) }
    } else if method == "fs_read_file"@ {
        file_action(id, OpView::Read, args)
    } else if method == "fs_write_file"@ {
        write_action(id, args, base64_bytes(or_empty(args.content)))
    } else if method == "fs_read_dir"@ {
        file_action(id, OpView::List, args)
    } else if method == "fs_mkdir"@ {
        file_action(id, OpView::MakeDir, args)
    } else if method == "fs_remove"@ {
        file_action(id, OpView::Remove { recursive: args.recursive == Some(true) }, args)
    } else if method == "fs_exists"@ {
        file_action(id, OpView::Exists, args)
    } else if method == "update_check"@ {
        check_action(id, update)
    } else if method == "update_install"@ {
        install_action(id, update, staged)
    } else if method == "window_open"@ {
        ActionView::OpenWindow {
            window: WindowView {
                title: filled(args.title),
                width: args.width,
                height: args.height,
                url: filled(args.url),
            },
            reply: flag_text(id, "queued"@, true),
        }
    } else if method == "window_close"@ {
        ActionView::CloseWindow { reply: flag_text(id, "closed"@, true) }
    } else {
        ActionView::Unknown { id }
    }
}

/// The reply that an action carries, if it carries one. That of a new window is
/// held until its page has loaded, and the others are sent at once.
pub open spec fn reply_in(action: ActionView) -> Option<Seq<char>> {
    match action {
        ActionView::Reply(text) => Some(text),
        ActionView::HideSplash { reply } => Some(reply),
        ActionView::CheckUpdate { reply, .. } => Some(reply),
        ActionView::DownloadUpdate { reply, .. } => Some(reply),
        ActionView::OpenWindow { reply, .. } => Some(reply),
        ActionView::CloseWindow { reply } => Some(reply),
        _ => None,
    }
}

/// True when the reply that an action carries, if it carries one, reads back as a
/// reply to request `id`.
pub open spec fn replies_to(action: ActionView, id: u64) -> bool {
    reply_in(action) matches Some(text) ==> reads_as_reply(text, id)
}

fn text_or_empty(text: &Option<String>) -> (r: String)
    ensures
        r@ == or_empty(maybe(*text)),
{
    match text {
        Some(text) => text.as_str().to_owned(),
        None => String::new(),
    }
}

fn filled_text(text: &Option<String>) -> (r: Option<String>)
    ensures
        maybe(r) == filled(maybe(*text)),
{
    match text {
        Some(text) => if text.as_str().is_empty() {
            None
        } else {
            Some(text.as_str().to_owned())
        },
        None => None,
    }
}

fn on_file(id: u64, op: FileOp, args: &IpcArgs) -> (action: IpcAction)
    ensures
        action@ == file_action(id, op@, args@),
{
    IpcAction::File { id, op, path: text_or_empty(&args.path) }
}

fn write_file(id: u64, args: &IpcArgs) -> (action: IpcAction)
    ensures
        action@ == write_action(id, args@, base64_bytes(or_empty(args@.content))),
        action matches IpcAction::File { op: FileOp::Write(bytes), .. } ==> base64_text(bytes@)
            == or_empty(args@.content),
        replies_to(action@, id),
{
    let content = text_or_empty(&args.content);
    write_decoded(id, args, base64_decode(content.as_str()))
}

/// What a request to write a file asks, when its content stands for the given
/// bytes.
pub fn write_decoded(id: u64, args: &IpcArgs, content: Option<Vec<u8>>) -> (action: IpcAction)
    ensures
        action@ == write_action(
            id,
            args@,
            match content {
                Some(bytes) => Some(bytes@),
                None => None,
            },
        ),
        action matches IpcAction::File { op: FileOp::Write(bytes), .. } ==> content == Some(bytes),
        replies_to(action@, id),
{
    match content {
        Some(bytes) => on_file_write(id, bytes, args),
        None => IpcAction::Reply(respond_err(id, "fs_write_file: content must be base64")),
    }
}

fn on_file_write(id: u64, bytes: Vec<u8>, args: &IpcArgs) -> (action: IpcAction)
    ensures
        action@ == file_action(id, OpView::Write(bytes@), args@),
        action matches IpcAction::File { op: FileOp::Write(written), .. } && written == bytes,
{
    IpcAction::File { id, op: FileOp::Write(bytes), path: text_or_empty(&args.path) }
}

fn check_update(id: u64, update: &UpdateState) -> (action: IpcAction)
    ensures
        action@ == check_action(id, *update),
        replies_to(action@, id),
{
    match &update.manifest_url {
        Some(url) => IpcAction::CheckUpdate {
            url: url.as_str().to_owned(),
            reply: text_reply(id, "status", "checking"),
        },
        None => IpcAction::Reply(respond_err(id, "update: no update.url configured")),
    }
}

fn install_update(id: u64, update: &UpdateState, staged: &str) -> (action: IpcAction)
    ensures
        action@ == install_action(id, *update, staged@),
        replies_to(action@, id),
{
    if update.is_staged() {
        return IpcAction::Reply(staged_reply(id, staged));
    }
    match &update.manifest {
        Some(manifest) => if starts_with(manifest.url.as_str(), "http") {
            IpcAction::DownloadUpdate {
                url: manifest.url.as_str().to_owned(),
                reply: text_reply(id, "status", "downloading"),
            }
        } else {
            IpcAction::Reply(respond_err(id, "update: no available update to install"))
        },
        None => IpcAction::Reply(respond_err(id, "update: no available update to install")),
    }
}

/// Decides what a request asks of the host. Bytes that are to be written are
/// those whose base64 text is the content of the request.
pub fn dispatch(request: IpcRequest, app_name: &str, update: &UpdateState, staged: &str) -> (action:
    IpcAction)
    ensures
        action@ == action_of(request@, app_name@, *update, staged@),
        action matches IpcAction::File { op: FileOp::Write(bytes), .. } ==> base64_text(bytes@)
            == or_empty(request@.args.content),
        replies_to(action@, request@.id),
{
    let id: u64 = request.id;
    let method = request.method;
    let method = method.as_str();
    let args = request.args;
    if same_text(method, "system_info") {
        IpcAction::SystemInfo { id }
    } else if same_text(method, "open_external") {
        let url = text_or_empty(&args.url);
        if url.as_str().is_empty() {
            IpcAction::Reply(respond_err(id, "open_external requires a url"))
        } else {
            IpcAction::OpenExternal { id, url }
        }
    } else if same_text(method, "clipboard_write") {
        IpcAction::ClipboardWrite { id, text: text_or_empty(&args.text) }
    } else if same_text(method, "clipboard_read") {
        IpcAction::ClipboardRead { id }
    } else if same_text(method, "file_dialog") {
        IpcAction::FileDialog { id, dialog: args.dialog }
    } else if same_text(method, "notification") {
        let title = match &args.title {
            Some(title) => title.as_str().to_owned(),
            None => app_name.to_owned(),
        };
        IpcAction::Notify { id, title, message: text_or_empty(&args.message) }
    } else if same_text(method, "splash_hide") {
        IpcAction::HideSplash { reply: flag_reply(id, "ok", true) }
    } else if same_text(method, "fs_read_file") {
        on_file(id, FileOp::Read, &args)
    } else if same_text(method, "fs_write_file") {
        write_file(id, &args)
    } else if same_text(method, "fs_read_dir") {
        on_file(id, FileOp::List, &args)
    } else if same_text(method, "fs_mkdir") {
        on_file(id, FileOp::MakeDir, &args)
    } else if same_text(method, "fs_remove") {
        let recursive = match args.recursive {
            Some(recursive) => recursive,
            None => false,
        };
        on_file(id, FileOp::Remove { recursive }, &args)
    } else if same_text(method, "fs_exists") {
        on_file(id, FileOp::Exists, &args)
    } else if same_text(method, "update_check") {
        check_update(id, update)
    } else if same_text(method, "update_install") {
        install_update(id, update, staged)
    } else if same_text(method, "window_open") {
        let window = WindowRequest {
            title: filled_text(&args.title),
            width: args.width,
            height: args.height,
            url: filled_text(&args.url),
        };
        IpcAction::OpenWindow { window, reply: flag_reply(id, "queued", true) }
    } else if same_text(method, "window_close") {
        IpcAction::CloseWindow { reply: flag_reply(id, "closed", true) }
    } else {
        IpcAction::Unknown { id }
    }
}

/// Why a call does not go to the sidecar, if it does not: there is none, or its
/// arguments are too large.
pub open spec fn forward_refused(connected: bool, args_size: int) -> Option<Seq<char>> {
    if !connected {
        Some("unknown method"@)
    } else if args_size > 65_536 {
        Some("method args too large"@)
    } else {
        None
    }
}

/// Why a call does not go to the sidecar, if it does not.
pub fn check_forward(connected: bool, args_size: usize) -> (refused: Option<&'static str>)
    ensures
        match refused {
            Some(message) => forward_refused(connected, args_size as int) == Some(message@),
            None => forward_refused(connected, args_size as int) is None,
        },
{
    if !connected {
        Some("unknown method")
    } else if args_size > MAX_ARGS {
        Some("method args too large")
    } else {
        None
    }
}

/// What a request asks of the host, and of the sidecar where the host does not
/// know the method.
pub open spec fn resolved_action(
    text: Seq<char>,
    app_name: Seq<char>,
    update: UpdateState,
    staged: Seq<char>,
    connected: bool,
) -> ActionView {
    let request = request_of(text);
    let action = action_of(request, app_name, update, staged);
    if action is Unknown {
        match forward_refused(connected, encode_utf8(raw_args(text)).len() as int) {
            Some(message) => ActionView::Reply(error_text(request.id as int, message)),
            None => ActionView::Forward {
                line: call_line(request.id as int, request.method, raw_args(text)),
            },
        }
    } else {
        action
    }
}

/// Handles the body of one request of a page. A body that is no JSON is refused
/// under the number 0. A call that goes to the sidecar is noted, so that its
/// reply finds the window.
pub fn handle_ipc(
    body: &str,
    app_name: &str,
    update: &UpdateState,
    staged: &str,
    window: u64,
    connected: bool,
    pending: &mut PendingCalls,
) -> (action: IpcAction)
    ensures
        match json_parsed(body@) {
            Ok(text) => {
                &&& action@ == resolved_action(text, app_name@, *update, staged@, connected)
                &&& final(pending)@ == (if action@ is Forward {
                    after_call(old(pending)@, request_of(text).id, window)
                } else {
                    old(pending)@
                })
                &&& action matches IpcAction::File { op: FileOp::Write(bytes), .. }
                    ==> base64_text(bytes@) == or_empty(request_of(text).args.content)
                &&& replies_to(action@, request_of(text).id)
            },
            Err(message) => {
                &&& action@ == ActionView::Reply(error_text(0, message))
                &&& replies_to(action@, 0)
                &&& final(pending)@ == old(pending)@
            },
        },
        !(action is Unknown),
{
    match parse_json(body) {
        Err(message) => IpcAction::Reply(respond_err(0, message.as_str())),
        Ok(value) => {
            let (request, args) = read_request(&value);
            let method = request.method.as_str().to_owned();
            match dispatch(request, app_name, update, staged) {
                IpcAction::Unknown { id } => {
                    let text = json_text(&args);
                    let size = text.as_str().as_bytes().len();
                    match check_forward(connected, size) {
                        Some(message) => IpcAction::Reply(respond_err(id, message)),
                        None => {
                            pending.called(id, window);
                            let line = write_call(id, method.as_str(), &args);
                            IpcAction::Forward { line }
                        },
                    }
                },
                action => action,
            }
        },
    }
}

// ---------------------------------------------------------------------------
// Laws
// ---------------------------------------------------------------------------

/// The methods that the host answers itself.
pub open spec fn built_in(method: Seq<char>) -> bool {
    ||| method == "system_info"@
    ||| method == "open_external"@
    ||| method == "clipboard_write"@
    ||| method == "clipboard_read"@
    ||| method == "file_dialog"@
    ||| method == "notification"@
    ||| method == "splash_hide"@
    ||| method == "fs_read_file"@
    ||| method == "fs_write_file"@
    ||| method == "fs_read_dir"@
    ||| method == "fs_mkdir"@
    ||| method == "fs_remove"@
    ||| method == "fs_exists"@
    ||| method == "update_check"@
    ||| method == "update_install"@
    ||| method == "window_open"@
    ||| method == "window_close"@
}

/// Exactly the methods that are not built in are left to the sidecar: no
/// sidecar can take a built-in method over.
pub proof fn law_built_in_methods_stay_with_the_host(
    request: RequestView,
    app_name: Seq<char>,
    update: UpdateState,
    staged: Seq<char>,
)
    ensures
        built_in(request.method) <==> !(action_of(request, app_name, update, staged) is Unknown),
{
}

/// Without a sidecar a method that is not built in is refused under the number
/// of the request.
pub proof fn law_unknown_methods_are_refused(
    text: Seq<char>,
    app_name: Seq<char>,
    update: UpdateState,
    staged: Seq<char>,
)
    requires
        !built_in(request_of(text).method),
    ensures
        resolved_action(text, app_name, update, staged, false) == ActionView::Reply(
            error_text(request_of(text).id as int, "unknown method"@),
        ),
{
    law_built_in_methods_stay_with_the_host(request_of(text), app_name, update, staged);
}

/// True for a reply under a number, with a result or with an error.
pub open spec fn reply_under(id: u64, text: Seq<char>) -> bool {
    ||| exists|result: Seq<char>| text == #[trigger] ok_text(id as int, result)
    ||| exists|error: Seq<char>| text == #[trigger] error_text(id as int, error)
}

/// True when all that an action sends or keeps for later is under one number.
pub open spec fn stays_under(id: u64, action: ActionView) -> bool {
    match action {
        ActionView::Reply(text) => reply_under(id, text),
        ActionView::SystemInfo { id: n } => n == id,
        ActionView::OpenExternal { id: n, .. } => n == id,
        ActionView::ClipboardWrite { id: n, .. } => n == id,
        ActionView::ClipboardRead { id: n } => n == id,
        ActionView::FileDialog { id: n, .. } => n == id,
        ActionView::Notify { id: n, .. } => n == id,
        ActionView::HideSplash { reply } => reply_under(id, reply),
        ActionView::File { id: n, .. } => n == id,
        ActionView::CheckUpdate { reply, .. } => reply_under(id, reply),
        ActionView::DownloadUpdate { reply, .. } => reply_under(id, reply),
        ActionView::OpenWindow { reply, .. } => reply_under(id, reply),
        ActionView::CloseWindow { reply } => reply_under(id, reply),
        ActionView::Forward { line } => exists|method: Seq<char>, args: Seq<char>|
            line == #[trigger] call_line(id as int, method, args),
        ActionView::Unknown { id: n } => n == id,
    }
}

/// Every request is answered under its own number, whatever it asks and whether
/// it is granted, refused or left to the sidecar.
pub proof fn law_requests_are_answered_under_their_number(
    text: Seq<char>,
    app_name: Seq<char>,
    update: UpdateState,
    staged: Seq<char>,
    connected: bool,
)
    ensures
        stays_under(
            request_of(text).id,
            resolved_action(text, app_name, update, staged, connected),
        ),
{
    let request = request_of(text);
    let action = action_of(request, app_name, update, staged);
    lemma_action_stays_under(request, app_name, update, staged);
    if action is Unknown {
        match forward_refused(connected, encode_utf8(raw_args(text)).len() as int) {
            Some(message) => {
                assert(reply_under(request.id, error_text(request.id as int, message)));
            },
            None => {
                assert(call_line(request.id as int, request.method, raw_args(text)) == call_line(
                    request.id as int,
                    request.method,
                    raw_args(text),
                ));
            },
        }
    }
}

proof fn lemma_action_stays_under(
    request: RequestView,
    app_name: Seq<char>,
    update: UpdateState,
    staged: Seq<char>,
)
    ensures
        stays_under(request.id, action_of(request, app_name, update, staged)),
{
    let id = request.id;
    match action_of(request, app_name, update, staged) {
        ActionView::Reply(text) => {
            assert(reply_under(id, error_text(id as int, "open_external requires a url"@)));
            assert(reply_under(
                id,
                error_text(id as int, "fs_write_file: content must be base64"@),
            ));
            assert(reply_under(id, error_text(id as int, "update: no update.url configured"@)));
            assert(reply_under(
                id,
                error_text(id as int, "update: no available update to install"@),
            ));
            assert(reply_under(
                id,
                ok_text(id as int, pair_text("path"@, quoted(staged), "status"@, quoted("ready"@))),
            ));
        },
        _ => {
            assert(reply_under(id, flag_text(id, "ok"@, true)));
            assert(reply_under(id, flag_text(id, "queued"@, true)));
            assert(reply_under(id, flag_text(id, "closed"@, true)));
            assert(reply_under(id, status_text(id, "checking"@)));
            assert(reply_under(id, status_text(id, "downloading"@)));
        },
    }
}

proof fn lemma_methods_differ()
    ensures
        "open_external"@ != "system_info"@,
        "clipboard_write"@ != "system_info"@,
        "clipboard_write"@ != "open_external"@,
        "clipboard_read"@ != "system_info"@,
        "clipboard_read"@ != "open_external"@,
        "clipboard_read"@ != "clipboard_write"@,
        "file_dialog"@ != "system_info"@,
        "file_dialog"@ != "open_external"@,
        "file_dialog"@ != "clipboard_write"@,
        "file_dialog"@ != "clipboard_read"@,
        "notification"@ != "system_info"@,
        "notification"@ != "open_external"@,
        "notification"@ != "clipboard_write"@,
        "notification"@ != "clipboard_read"@,
        "notification"@ != "file_dialog"@,
        "splash_hide"@ != "system_info"@,
        "splash_hide"@ != "open_external"@,
        "splash_hide"@ != "clipboard_write"@,
        "splash_hide"@ != "clipboard_read"@,
        "splash_hide"@ != "file_dialog"@,
        "splash_hide"@ != "notification"@,
        "fs_read_file"@ != "system_info"@,
        "fs_read_file"@ != "open_external"@,
        "fs_read_file"@ != "clipboard_write"@,
        "fs_read_file"@ != "clipboard_read"@,
        "fs_read_file"@ != "file_dialog"@,
        "fs_read_file"@ != "notification"@,
        "fs_read_file"@ != "splash_hide"@,
        "fs_write_file"@ != "system_info"@,
        "fs_write_file"@ != "open_external"@,
        "fs_write_file"@ != "clipboard_write"@,
        "fs_write_file"@ != "clipboard_read"@,
        "fs_write_file"@ != "file_dialog"@,
        "fs_write_file"@ != "notification"@,
        "fs_write_file"@ != "splash_hide"@,
        "fs_write_file"@ != "fs_read_file"@,
        "fs_read_dir"@ != "system_info"@,
        "fs_read_dir"@ != "open_external"@,
        "fs_read_dir"@ != "clipboard_write"@,
        "fs_read_dir"@ != "clipboard_read"@,
        "fs_read_dir"@ != "file_dialog"@,
        "fs_read_dir"@ != "notification"@,
        "fs_read_dir"@ != "splash_hide"@,
        "fs_read_dir"@ != "fs_read_file"@,
        "fs_read_dir"@ != "fs_write_file"@,
        "fs_mkdir"@ != "system_info"@,
        "fs_mkdir"@ != "open_external"@,
        "fs_mkdir"@ != "clipboard_write"@,
        "fs_mkdir"@ != "clipboard_read"@,
        "fs_mkdir"@ != "file_dialog"@,
        "fs_mkdir"@ != "notification"@,
        "fs_mkdir"@ != "splash_hide"@,
        "fs_mkdir"@ != "fs_read_file"@,
        "fs_mkdir"@ != "fs_write_file"@,
        "fs_mkdir"@ != "fs_read_dir"@,
        "fs_remove"@ != "system_info"@,
        "fs_remove"@ != "open_external"@,
        "fs_remove"@ != "clipboard_write"@,
        "fs_remove"@ != "clipboard_read"@,
        "fs_remove"@ != "file_dialog"@,
        "fs_remove"@ != "notification"@,
        "fs_remove"@ != "splash_hide"@,
        "fs_remove"@ != "fs_read_file"@,
        "fs_remove"@ != "fs_write_file"@,
        "fs_remove"@ != "fs_read_dir"@,
        "fs_remove"@ != "fs_mkdir"@,
        "fs_exists"@ != "system_info"@,
        "fs_exists"@ != "open_external"@,
        "fs_exists"@ != "clipboard_write"@,
        "fs_exists"@ != "clipboard_read"@,
        "fs_exists"@ != "file_dialog"@,
        "fs_exists"@ != "notification"@,
        "fs_exists"@ != "splash_hide"@,
        "fs_exists"@ != "fs_read_file"@,
        "fs_exists"@ != "fs_write_file"@,
        "fs_exists"@ != "fs_read_dir"@,
        "fs_exists"@ != "fs_mkdir"@,
        "fs_exists"@ != "fs_remove"@,
        "update_check"@ != "system_info"@,
        "update_check"@ != "open_external"@,
        "update_check"@ != "clipboard_write"@,
        "update_check"@ != "clipboard_read"@,
        "update_check"@ != "file_dialog"@,
        "update_check"@ != "notification"@,
        "update_check"@ != "splash_hide"@,
        "update_check"@ != "fs_read_file"@,
        "update_check"@ != "fs_write_file"@,
        "update_check"@ != "fs_read_dir"@,
        "update_check"@ != "fs_mkdir"@,
        "update_check"@ != "fs_remove"@,
        "update_check"@ != "fs_exists"@,
        "update_install"@ != "system_info"@,
        "update_install"@ != "open_external"@,
        "update_install"@ != "clipboard_write"@,
        "update_install"@ != "clipboard_read"@,
        "update_install"@ != "file_dialog"@,
        "update_install"@ != "notification"@,
        "update_install"@ != "splash_hide"@,
        "update_install"@ != "fs_read_file"@,
        "update_install"@ != "fs_write_file"@,
        "update_install"@ != "fs_read_dir"@,
        "update_install"@ != "fs_mkdir"@,
        "update_install"@ != "fs_remove"@,
        "update_install"@ != "fs_exists"@,
        "update_install"@ != "update_check"@,
        "window_open"@ != "system_info"@,
        "window_open"@ != "open_external"@,
        "window_open"@ != "clipboard_write"@,
        "window_open"@ != "clipboard_read"@,
        "window_open"@ != "file_dialog"@,
        "window_open"@ != "notification"@,
        "window_open"@ != "splash_hide"@,
        "window_open"@ != "fs_read_file"@,
        "window_open"@ != "fs_write_file"@,
        "window_open"@ != "fs_read_dir"@,
        "window_open"@ != "fs_mkdir"@,
        "window_open"@ != "fs_remove"@,
        "window_open"@ != "fs_exists"@,
        "window_open"@ != "update_check"@,
        "window_open"@ != "update_install"@,
        "window_close"@ != "system_info"@,
        "window_close"@ != "open_external"@,
        "window_close"@ != "clipboard_write"@,
        "window_close"@ != "clipboard_read"@,
        "window_close"@ != "file_dialog"@,
        "window_close"@ != "notification"@,
        "window_close"@ != "splash_hide"@,
        "window_close"@ != "fs_read_file"@,
        "window_close"@ != "fs_write_file"@,
        "window_close"@ != "fs_read_dir"@,
        "window_close"@ != "fs_mkdir"@,
        "window_close"@ != "fs_remove"@,
        "window_close"@ != "fs_exists"@,
        "window_close"@ != "update_check"@,
        "window_close"@ != "update_install"@,
        "window_close"@ != "window_open"@,
{
    reveal_strlit("system_info");
    reveal_strlit("open_external");
    reveal_strlit("clipboard_write");
    reveal_strlit("clipboard_read");
    reveal_strlit("file_dialog");
    reveal_strlit("notification");
    reveal_strlit("splash_hide");
    reveal_strlit("fs_read_file");
    reveal_strlit("fs_write_file");
    reveal_strlit("fs_read_dir");
    reveal_strlit("fs_mkdir");
    reveal_strlit("fs_remove");
    reveal_strlit("fs_exists");
    reveal_strlit("update_check");
    reveal_strlit("update_install");
    reveal_strlit("window_open");
    reveal_strlit("window_close");
    assert("open_external"@.len() != "system_info"@.len());
    assert("clipboard_write"@.len() != "system_info"@.len());
    assert("clipboard_write"@.len() != "open_external"@.len());
    assert("clipboard_read"@.len() != "system_info"@.len());
    assert("clipboard_read"@.len() != "open_external"@.len());
    assert("clipboard_read"@.len() != "clipboard_write"@.len());
    assert("file_dialog"@[0] != "system_info"@[0]);
    assert("file_dialog"@.len() != "open_external"@.len());
    assert("file_dialog"@.len() != "clipboard_write"@.len());
    assert("file_dialog"@.len() != "clipboard_read"@.len());
    assert("notification"@.len() != "system_info"@.len());
    assert("notification"@.len() != "open_external"@.len());
    assert("notification"@.len() != "clipboard_write"@.len());
    assert("notification"@.len() != "clipboard_read"@.len());
    assert("notification"@.len() != "file_dialog"@.len());
    assert("splash_hide"@[1] != "system_info"@[1]);
    assert("splash_hide"@.len() != "open_external"@.len());
    assert("splash_hide"@.len() != "clipboard_write"@.len());
    assert("splash_hide"@.len() != "clipboard_read"@.len());
    assert("splash_hide"@[0] != "file_dialog"@[0]);
    assert("splash_hide"@.len() != "notification"@.len());
    assert("fs_read_file"@.len() != "system_info"@.len());
    assert("fs_read_file"@.len() != "open_external"@.len());
    assert("fs_read_file"@.len() != "clipboard_write"@.len());
    assert("fs_read_file"@.len() != "clipboard_read"@.len());
    assert("fs_read_file"@.len() != "file_dialog"@.len());
    assert("fs_read_file"@[0] != "notification"@[0]);
    assert("fs_read_file"@.len() != "splash_hide"@.len());
    assert("fs_write_file"@.len() != "system_info"@.len());
    assert("fs_write_file"@[0] != "open_external"@[0]);
    assert("fs_write_file"@.len() != "clipboard_write"@.len());
    assert("fs_write_file"@.len() != "clipboard_read"@.len());
    assert("fs_write_file"@.len() != "file_dialog"@.len());
    assert("fs_write_file"@.len() != "notification"@.len());
    assert("fs_write_file"@.len() != "splash_hide"@.len());
    assert("fs_write_file"@.len() != "fs_read_file"@.len());
    assert("fs_read_dir"@[0] != "system_info"@[0]);
    assert("fs_read_dir"@.len() != "open_external"@.len());
    assert("fs_read_dir"@.len() != "clipboard_write"@.len());
    assert("fs_read_dir"@.len() != "clipboard_read"@.len());
    assert("fs_read_dir"@[1] != "file_dialog"@[1]);
    assert("fs_read_dir"@.len() != "notification"@.len());
    assert("fs_read_dir"@[0] != "splash_hide"@[0]);
    assert("fs_read_dir"@.len() != "fs_read_file"@.len());
    assert("fs_read_dir"@.len() != "fs_write_file"@.len());
    assert("fs_mkdir"@.len() != "system_info"@.len());
    assert("fs_mkdir"@.len() != "open_external"@.len());
    assert("fs_mkdir"@.len() != "clipboard_write"@.len());
    assert("fs_mkdir"@.len() != "clipboard_read"@.len());
    assert("fs_mkdir"@.len() != "file_dialog"@.len());
    assert("fs_mkdir"@.len() != "notification"@.len());
    assert("fs_mkdir"@.len() != "splash_hide"@.len());
    assert("fs_mkdir"@.len() != "fs_read_file"@.len());
    assert("fs_mkdir"@.len() != "fs_write_file"@.len());
    assert("fs_mkdir"@.len() != "fs_read_dir"@.len());
    assert("fs_remove"@.len() != "system_info"@.len());
    assert("fs_remove"@.len() != "open_external"@.len());
    assert("fs_remove"@.len() != "clipboard_write"@.len());
    assert("fs_remove"@.len() != "clipboard_read"@.len());
    assert("fs_remove"@.len() != "file_dialog"@.len());
    assert("fs_remove"@.len() != "notification"@.len());
    assert("fs_remove"@.len() != "splash_hide"@.len());
    assert("fs_remove"@.len() != "fs_read_file"@.len());
    assert("fs_remove"@.len() != "fs_write_file"@.len());
    assert("fs_remove"@.len() != "fs_read_dir"@.len());
    assert("fs_remove"@.len() != "fs_mkdir"@.len());
    assert("fs_exists"@.len() != "system_info"@.len());
    assert("fs_exists"@.len() != "open_external"@.len());
    assert("fs_exists"@.len() != "clipboard_write"@.len());
    assert("fs_exists"@.len() != "clipboard_read"@.len());
    assert("fs_exists"@.len() != "file_dialog"@.len());
    assert("fs_exists"@.len() != "notification"@.len());
    assert("fs_exists"@.len() != "splash_hide"@.len());
    assert("fs_exists"@.len() != "fs_read_file"@.len());
    assert("fs_exists"@.len() != "fs_write_file"@.len());
    assert("fs_exists"@.len() != "fs_read_dir"@.len());
    assert("fs_exists"@.len() != "fs_mkdir"@.len());
    assert("fs_exists"@[3] != "fs_remove"@[3]);
    assert("update_check"@.len() != "system_info"@.len());
    assert("update_check"@.len() != "open_external"@.len());
    assert("update_check"@.len() != "clipboard_write"@.len());
    assert("update_check"@.len() != "clipboard_read"@.len());
    assert("update_check"@.len() != "file_dialog"@.len());
    assert("update_check"@[0] != "notification"@[0]);
    assert("update_check"@.len() != "splash_hide"@.len());
    assert("update_check"@[0] != "fs_read_file"@[0]);
    assert("update_check"@.len() != "fs_write_file"@.len());
    assert("update_check"@.len() != "fs_read_dir"@.len());
    assert("update_check"@.len() != "fs_mkdir"@.len());
    assert("update_check"@.len() != "fs_remove"@.len());
    assert("update_check"@.len() != "fs_exists"@.len());
    assert("update_install"@.len() != "system_info"@.len());
    assert("update_install"@.len() != "open_external"@.len());
    assert("update_install"@.len() != "clipboard_write"@.len());
    assert("update_install"@[0] != "clipboard_read"@[0]);
    assert("update_install"@.len() != "file_dialog"@.len());
    assert("update_install"@.len() != "notification"@.len());
    assert("update_install"@.len() != "splash_hide"@.len());
    assert("update_install"@.len() != "fs_read_file"@.len());
    assert("update_install"@.len() != "fs_write_file"@.len());
    assert("update_install"@.len() != "fs_read_dir"@.len());
    assert("update_install"@.len() != "fs_mkdir"@.len());
    assert("update_install"@.len() != "fs_remove"@.len());
    assert("update_install"@.len() != "fs_exists"@.len());
    assert("update_install"@.len() != "update_check"@.len());
    assert("window_open"@[0] != "system_info"@[0]);
    assert("window_open"@.len() != "open_external"@.len());
    assert("window_open"@.len() != "clipboard_write"@.len());
    assert("window_open"@.len() != "clipboard_read"@.len());
    assert("window_open"@[0] != "file_dialog"@[0]);
    assert("window_open"@.len() != "notification"@.len());
    assert("window_open"@[0] != "splash_hide"@[0]);
    assert("window_open"@.len() != "fs_read_file"@.len());
    assert("window_open"@.len() != "fs_write_file"@.len());
    assert("window_open"@[0] != "fs_read_dir"@[0]);
    assert("window_open"@.len() != "fs_mkdir"@.len());
    assert("window_open"@.len() != "fs_remove"@.len());
    assert("window_open"@.len() != "fs_exists"@.len());
    assert("window_open"@.len() != "update_check"@.len());
    assert("window_open"@.len() != "update_install"@.len());
    assert("window_close"@.len() != "system_info"@.len());
    assert("window_close"@.len() != "open_external"@.len());
    assert("window_close"@.len() != "clipboard_write"@.len());
    assert("window_close"@.len() != "clipboard_read"@.len());
    assert("window_close"@.len() != "file_dialog"@.len());
    assert("window_close"@[0] != "notification"@[0]);
    assert("window_close"@.len() != "splash_hide"@.len());
    assert("window_close"@[0] != "fs_read_file"@[0]);
    assert("window_close"@.len() != "fs_write_file"@.len());
    assert("window_close"@.len() != "fs_read_dir"@.len());
    assert("window_close"@.len() != "fs_mkdir"@.len());
    assert("window_close"@.len() != "fs_remove"@.len());
    assert("window_close"@.len() != "fs_exists"@.len());
    assert("window_close"@[0] != "update_check"@[0]);
    assert("window_close"@.len() != "update_install"@.len());
    assert("window_close"@.len() != "window_open"@.len());
}

/// A request says what its members say, each by itself: its number, or 0; its
/// method, or none; and its arguments.
pub proof fn law_requests_say_what_they_hold(text: Seq<char>, args: Seq<char>)
    requires
        json_member(text, "args"@) == Some(args) || (json_member(text, "args"@) is None && args
            == "null"@),
    ensures
        number_member(text, "id"@) matches Some(id) ==> request_of(text).id == id,
        number_member(text, "id"@) is None ==> request_of(text).id == 0,
        string_member(text, "method"@) matches Some(method) ==> request_of(text).method == method,
        string_member(text, "method"@) is None ==> request_of(text).method.len() == 0,
        request_of(text).args.url == string_member(args, "url"@),
        request_of(text).args.text == string_member(args, "text"@),
        request_of(text).args.title == string_member(args, "title"@),
        request_of(text).args.message == string_member(args, "message"@),
        request_of(text).args.path == string_member(args, "path"@),
        request_of(text).args.content == string_member(args, "content"@),
        request_of(text).args.recursive == bool_member(args, "recursive"@),
        request_of(text).args.width == number_member(args, "width"@),
        request_of(text).args.height == number_member(args, "height"@),
        request_of(text).args.dialog == dialog_of(args),
        raw_args(text) == args,
{
}

/// What the methods on the system ask: what it is, a page in the browser, which has
/// to be named, the clipboard, a file dialog, a notification under the title that is
/// given or else the name of the app, and the end of the splash window.
pub proof fn law_methods_on_the_system(
    request: RequestView,
    app_name: Seq<char>,
    update: UpdateState,
    staged: Seq<char>,
    text: Seq<char>,
)
    ensures
        ({
            let id = request.id;
            let method = request.method;
            let args = request.args;
            let action = action_of(request, app_name, update, staged);
            &&& method == "system_info"@ ==> action == (ActionView::SystemInfo { id })
            &&& method == "open_external"@ && args.url == Some(text) && text.len() > 0 ==> action
                == (ActionView::OpenExternal { id, url: text })
            &&& method == "open_external"@ && (args.url is None || args.url->0.len() == 0)
                ==> action == ActionView::Reply(
                error_text(id as int, "open_external requires a url"@),
            )
            &&& method == "clipboard_write"@ && args.text == Some(text) ==> action == (
            ActionView::ClipboardWrite { id, text })
            &&& method == "clipboard_write"@ && args.text is None ==> action == (
            ActionView::ClipboardWrite { id, text: Seq::empty() })
            &&& method == "clipboard_read"@ ==> action == (ActionView::ClipboardRead { id })
            &&& method == "file_dialog"@ ==> action == (ActionView::FileDialog {
                id,
                dialog: args.dialog,
            })
            &&& method == "notification"@ ==> {
                &&& action is Notify
                &&& action->Notify_id == id
                &&& args.title == Some(text) ==> action->Notify_title == text
                &&& args.title is None ==> action->Notify_title == app_name
                &&& args.message == Some(text) ==> action->Notify_message == text
                &&& args.message is None ==> action->Notify_message.len() == 0
            }
            &&& method == "splash_hide"@ ==> action == (ActionView::HideSplash {
                reply: ok_text(id as int, seq!['{'] + written("ok"@, "true"@) + seq!['}']),
            })
        }),
{
    lemma_methods_differ();
    law_replies_as_written(0, Seq::empty(), "ok"@, "true"@, Seq::empty(), Seq::empty());
}

/// What the methods on files ask: each its own operation, on the path that is given;
/// what is written is what the content stands for, and a removal takes all that is in
/// a directory only where that is asked for.
pub proof fn law_methods_on_files(
    request: RequestView,
    app_name: Seq<char>,
    update: UpdateState,
    staged: Seq<char>,
    path: Seq<char>,
    bytes: Seq<u8>,
)
    requires
        request.args.path == Some(path) || (request.args.path is None && path.len() == 0),
    ensures
        ({
            let id = request.id;
            let method = request.method;
            let args = request.args;
            let action = action_of(request, app_name, update, staged);
            let content = if args.content is Some {
                args.content->0
            } else {
                Seq::empty()
            };
            &&& method == "fs_read_file"@ ==> action == (ActionView::File {
                id,
                op: OpView::Read,
                path,
            })
            &&& method == "fs_read_dir"@ ==> action == (ActionView::File {
                id,
                op: OpView::List,
                path,
            })
            &&& method == "fs_mkdir"@ ==> action == (ActionView::File {
                id,
                op: OpView::MakeDir,
                path,
            })
            &&& method == "fs_exists"@ ==> action == (ActionView::File {
                id,
                op: OpView::Exists,
                path,
            })
            &&& method == "fs_remove"@ && args.recursive == Some(true) ==> action == (
            ActionView::File { id, op: OpView::Remove { recursive: true }, path })
            &&& method == "fs_remove"@ && args.recursive != Some(true) ==> action == (
            ActionView::File { id, op: OpView::Remove { recursive: false }, path })
            &&& method == "fs_write_file"@ && base64_bytes(content) == Some(bytes) ==> action == (
            ActionView::File { id, op: OpView::Write(bytes), path })
            &&& method == "fs_write_file"@ && base64_bytes(content) is None ==> action
                == ActionView::Reply(
                error_text(id as int, "fs_write_file: content must be base64"@),
            )
        }),
{
    lemma_methods_differ();
    assert(path == or_empty(request.args.path));
}

/// What the methods on updates ask: a check where manifests come from somewhere; and
/// of an update that is offered its file where it is downloaded, or else its download
/// where it comes from the web.
pub proof fn law_methods_on_updates(
    request: RequestView,
    app_name: Seq<char>,
    update: UpdateState,
    staged: Seq<char>,
    rest: Seq<char>,
)
    ensures
        ({
            let id = request.id as int;
            let method = request.method;
            let action = action_of(request, app_name, update, staged);
            &&& method == "update_check"@ ==> match update.manifest_url {
                Some(url) => action == (ActionView::CheckUpdate {
                    url: url@,
                    reply: ok_text(
                        id,
                        seq!['{'] + written("status"@, quoted("checking"@)) + seq!['}'],
                    ),
                }),
                None => action == ActionView::Reply(
                    error_text(id, "update: no update.url configured"@),
                ),
            }
            &&& method == "update_install"@ ==> match update.manifest {
                Some(manifest) => {
                    &&& update.downloaded ==> action == ActionView::Reply(
                        ok_text(
                            id,
                            seq!['{'] + written("path"@, quoted(staged)) + seq![','] + written(
                                "status"@,
                                quoted("ready"@),
                            ) + seq!['}'],
                        ),
                    )
                    &&& !update.downloaded && manifest.url@ == "http"@ + rest ==> action == (
                    ActionView::DownloadUpdate {
                        url: manifest.url@,
                        reply: ok_text(
                            id,
                            seq!['{'] + written("status"@, quoted("downloading"@)) + seq!['}'],
                        ),
                    })
                    &&& !update.downloaded && !"http"@.is_prefix_of(manifest.url@) ==> action
                        == ActionView::Reply(
                        error_text(id, "update: no available update to install"@),
                    )
                },
                None => action == ActionView::Reply(
                    error_text(id, "update: no available update to install"@),
                ),
            }
        }),
{
    lemma_methods_differ();
    assert("http"@.is_prefix_of("http"@ + rest));
    law_replies_as_written(
        0,
        Seq::empty(),
        "status"@,
        quoted("checking"@),
        Seq::empty(),
        Seq::empty(),
    );
    law_replies_as_written(
        0,
        Seq::empty(),
        "status"@,
        quoted("downloading"@),
        Seq::empty(),
        Seq::empty(),
    );
    law_replies_as_written(
        0,
        Seq::empty(),
        "path"@,
        quoted(staged),
        "status"@,
        quoted("ready"@),
    );
}

/// What the methods on windows ask: a new window with what is given of title, width,
/// height and page, of which an empty title or page counts as missing; and the end of
/// the window that asks.
pub proof fn law_methods_on_windows(
    request: RequestView,
    app_name: Seq<char>,
    update: UpdateState,
    staged: Seq<char>,
    text: Seq<char>,
)
    ensures
        ({
            let id = request.id as int;
            let args = request.args;
            let action = action_of(request, app_name, update, staged);
            &&& request.method == "window_open"@ ==> {
                &&& action is OpenWindow
                &&& action->OpenWindow_reply == ok_text(
                    id,
                    seq!['{'] + written("queued"@, "true"@) + seq!['}'],
                )
                &&& action->OpenWindow_window.width == args.width
                &&& action->OpenWindow_window.height == args.height
                &&& args.title == Some(text) && text.len() > 0 ==> action->OpenWindow_window.title
                    == Some(text)
                &&& args.title is None || args.title->0.len() == 0
                    ==> action->OpenWindow_window.title is None
                &&& args.url == Some(text) && text.len() > 0 ==> action->OpenWindow_window.url
                    == Some(text)
                &&& args.url is None || args.url->0.len() == 0 ==> action->OpenWindow_window.url
                    is None
            }
            &&& request.method == "window_close"@ ==> action == (ActionView::CloseWindow {
                reply: ok_text(id, seq!['{'] + written("closed"@, "true"@) + seq!['}']),
            })
        }),
{
    lemma_methods_differ();
    law_replies_as_written(0, Seq::empty(), "queued"@, "true"@, Seq::empty(), Seq::empty());
    law_replies_as_written(0, Seq::empty(), "closed"@, "true"@, Seq::empty(), Seq::empty());
}

/// A method that is not built in goes to the sidecar where there is one, with its
/// number and its arguments as they came, up to 65,536 bytes of them. A method that is
/// built in does what it asks of the host, with a sidecar or without.
pub proof fn law_other_methods_go_to_the_sidecar(
    text: Seq<char>,
    app_name: Seq<char>,
    update: UpdateState,
    staged: Seq<char>,
    connected: bool,
)
    ensures
        ({
            let request = request_of(text);
            let size = encode_utf8(raw_args(text)).len();
            let action = resolved_action(text, app_name, update, staged, connected);
            &&& !built_in(request.method) && connected && size <= 65_536 ==> action == (
            ActionView::Forward {
                line: call_line(request.id as int, request.method, raw_args(text)),
            })
            &&& !built_in(request.method) && connected && size > 65_536 ==> action
                == ActionView::Reply(error_text(request.id as int, "method args too large"@))
            &&& !built_in(request.method) && !connected ==> action == ActionView::Reply(
                error_text(request.id as int, "unknown method"@),
            )
            &&& built_in(request.method) ==> action == action_of(request, app_name, update, staged)
        }),
{
    law_built_in_methods_stay_with_the_host(request_of(text), app_name, update, staged);
}

} // verus!
