//! The server process of an app: what it is told, and how the host waits for
//! its port.

use crate::config::BackendSettings;
use crate::text::{
    all_space, concat2, concat3, decimal, is_digit, is_space, law_decimal_reads_back,
    law_numbers_are_read_in_decimal, law_numbers_are_written_in_decimal,
    law_trimming_keeps_the_rest, law_trimming_takes_the_ends_alone, lemma_decimal, no_space_around,
    number_of, parse_u16, to_decimal, trim, trim_start_char, trimmed, without_leading,
};
use crate::winpath::{child_text, join_text};
use vstd::prelude::*;
use vstd::string::*;

verus! {

/// How long a port may take to open or to be named, in milliseconds.
pub const PORT_LIMIT: u64 = 15_000;

/// How long a port may take to open once it is named, in milliseconds.
pub const NAMED_PORT_LIMIT: u64 = 10_000;

/// The pause between two tries, in milliseconds.
pub const PORT_PAUSE: u64 = 300;

/// The address of a local port.
pub open spec fn local_address(port: u16) -> Seq<char> {
    "127.0.0.1:"@ + decimal(port as int)
}

/// The page of a local port.
pub open spec fn local_page(port: u16) -> Seq<char> {
    "http://127.0.0.1:"@ + decimal(port as int) + "/"@
}

/// The address of a local port.
pub fn port_address(port: u16) -> (r: String)
    ensures
        r@ == local_address(port),
{
    let number = to_decimal(port as u64);
    concat2("127.0.0.1:", number.as_str())
}

/// The page of a local port.
pub fn port_page(port: u16) -> (r: String)
    ensures
        r@ == local_page(port),
{
    let number = to_decimal(port as u64);
    concat3("http://127.0.0.1:", number.as_str(), "/")
}

/// The port that a backend names, where the app has one that names any. Port 0
/// stands for one that the backend picks itself.
pub fn backend_port(backend: &Option<BackendSettings>) -> (r: Option<u16>)
    ensures
        r == match *backend {
            Some(settings) => settings.port,
            None => None,
        },
{
    match backend {
        Some(settings) => settings.port,
        None => None,
    }
}

/// The path of the entry inside the bundle.
pub fn entry_path(entry: &str) -> (r: String)
    ensures
        r@ == without_leading(entry@, '/'),
{
    trim_start_char(entry, '/')
}

/// The first page of an app: of the bundle where no port is named. Where one
/// is, it is known only once the backend is there.
pub fn first_page(port: Option<u16>, entry_path: &str) -> (r: String)
    ensures
        r@ == match port {
            None => "brix://app/"@ + entry_path@,
            Some(_) => Seq::<char>::empty(),
        },
{
    match port {
        None => concat2("brix://app/", entry_path),
        Some(_) => String::new(),
    }
}

/// The port in a port file.
pub open spec fn port_in(content: Seq<char>) -> Option<u16> {
    match number_of(trimmed(content), u16::MAX as int) {
        Some(n) => Some(n as u16),
        None => None,
    }
}

/// Reads the port in a port file.
pub fn read_port(content: &str) -> (r: Option<u16>)
    ensures
        r == port_in(content@),
{
    let text = trim(content);
    parse_u16(text.as_str())
}

/// The port that a backend is reached at: the one it was given, or the one that
/// its port file names.
pub open spec fn actual_port(port: u16, port_file: Option<Seq<char>>) -> Option<u16> {
    if port == 0 {
        match port_file {
            Some(content) => port_in(content),
            None => None,
        }
    } else {
        Some(port)
    }
}

/// What the host tries next while it waits for a backend.
#[derive(Debug, PartialEq, Eq, Structural, Clone, Copy)]
pub enum WaitAction {
    /// Read the port file.
    ReadPortFile,
    /// Connect to the port.
    Connect(u16),
    /// Go on without the backend.
    GiveUp,
}

/// The wait for a backend: the port, once it is known, and the time until which
/// it is tried. Times are milliseconds of one clock.
#[derive(Debug, PartialEq, Eq, Structural, Clone, Copy)]
pub struct PortWait {
    pub port: Option<u16>,
    pub deadline: u64,
}

/// `now` and a while later.
pub open spec fn later(now: u64, while_ms: u64) -> u64 {
    if now + while_ms > u64::MAX {
        u64::MAX
    } else {
        (now + while_ms) as u64
    }
}

fn after(now: u64, while_ms: u64) -> (r: u64)
    ensures
        r == later(now, while_ms),
{
    if while_ms > u64::MAX - now {
        u64::MAX
    } else {
        now + while_ms
    }
}

impl PortWait {
    /// The wait for a port that begins now. Port 0 has to be named first.
    pub fn start(port: u16, now: u64) -> (wait: PortWait)
        ensures
            wait.port == (if port == 0 {
                None
            } else {
                Some(port)
            }),
            wait.deadline == later(now, 15_000),
    {
        if port == 0 {
            PortWait { port: None, deadline: after(now, PORT_LIMIT) }
        } else {
            PortWait { port: Some(port), deadline: after(now, PORT_LIMIT) }
        }
    }

    /// What is tried at a time: nothing more once the time is over.
    pub fn action(&self, now: u64) -> (r: WaitAction)
        ensures
            r == (if now >= self.deadline {
                WaitAction::GiveUp
            } else {
                match self.port {
                    Some(port) => WaitAction::Connect(port),
                    None => WaitAction::ReadPortFile,
                }
            }),
    {
        if now >= self.deadline {
            WaitAction::GiveUp
        } else {
            match self.port {
                Some(port) => WaitAction::Connect(port),
                None => WaitAction::ReadPortFile,
            }
        }
    }

    /// Takes the content of the port file. A port in it is tried for a while
    /// from now on; anything else changes nothing.
    pub fn port_file_read(&mut self, content: &str, now: u64) -> (named: bool)
        ensures
            named == (port_in(content@) is Some),
            match port_in(content@) {
                Some(port) => final(self).port == Some(port) && final(self).deadline == later(
                    now,
                    10_000,
                ),
                None => *final(self) == *old(self),
            },
    {
        match read_port(content) {
            Some(port) => {
                self.port = Some(port);
                self.deadline = after(now, NAMED_PORT_LIMIT);
                true
            },
            None => false,
        }
    }
}

/// The file in the temporary directory in which a backend names its port.
pub fn port_file_path(temp_dir: &str) -> (r: String)
    ensures
        r@ == child_text(temp_dir@, ".brix_port"@),
{
    join_text(temp_dir, ".brix_port")
}

/// Variables of the environment as plain sequences.
pub open spec fn env_view(env: Seq<(String, String)>) -> Seq<(Seq<char>, Seq<char>)> {
    env.map_values(|v: (String, String)| (v.0@, v.1@))
}

/// What every process beside the app is told: where its data lies, the version
/// and the entry.
pub open spec fn shared_env(
    data_dir: Seq<char>,
    temp_dir: Seq<char>,
    version: Seq<char>,
    entry: Seq<char>,
) -> Seq<(Seq<char>, Seq<char>)> {
    seq![
        ("BRIX_DATA_DIR"@, data_dir),
        ("BRIX_TEMP_DIR"@, temp_dir),
        ("BRIX_APP_VERSION"@, version),
        ("BRIX_ENTRY"@, entry),
    ]
}

/// What a backend is told besides: its port, and where to name it where it picks
/// the port itself.
pub open spec fn port_env(temp_dir: Seq<char>, port: Option<u16>) -> Seq<(Seq<char>, Seq<char>)> {
    let number = match port {
        Some(port) => decimal(port as int),
        None => "0"@,
    };
    if port == Some(0u16) {
        seq![("BRIX_PORT"@, number), ("BRIX_PORT_FILE"@, child_text(temp_dir, ".brix_port"@))]
    } else {
        seq![("BRIX_PORT"@, number)]
    }
}

/// What every process beside the app is told.
pub fn sidecar_env(data_dir: &str, temp_dir: &str, version: &str, entry: &str) -> (env: Vec<
    (String, String),
>)
    ensures
        env_view(env@) == shared_env(data_dir@, temp_dir@, version@, entry@),
{
    let mut env: Vec<(String, String)> = Vec::new();
    env.push(("BRIX_DATA_DIR".to_owned(), data_dir.to_owned()));
    env.push(("BRIX_TEMP_DIR".to_owned(), temp_dir.to_owned()));
    env.push(("BRIX_APP_VERSION".to_owned(), version.to_owned()));
    env.push(("BRIX_ENTRY".to_owned(), entry.to_owned()));
    assert(env_view(env@) =~= shared_env(data_dir@, temp_dir@, version@, entry@));
    env
}

/// What a backend is told.
pub fn backend_env(
    data_dir: &str,
    temp_dir: &str,
    version: &str,
    entry: &str,
    port: Option<u16>,
) -> (env: Vec<(String, String)>)
    ensures
        env_view(env@) == shared_env(data_dir@, temp_dir@, version@, entry@) + port_env(
            temp_dir@,
            port,
        ),
{
    let mut env = sidecar_env(data_dir, temp_dir, version, entry);
    let ghost shared = env@;
    let number = match port {
        Some(port) => to_decimal(port as u64),
        None => "0".to_owned(),
    };
    env.push(("BRIX_PORT".to_owned(), number));
    match port {
        Some(0) => {
            let file = port_file_path(temp_dir);
            env.push(("BRIX_PORT_FILE".to_owned(), file));
        },
        _ => {},
    }
    assert(env_view(env@) =~= env_view(shared) + port_env(temp_dir@, port));
    env
}

/// A port that a backend writes into its port file in decimal is the port that
/// the host reads there.
pub proof fn law_named_port_reads_back(port: u16)
    ensures
        port_in(decimal(port as int)) == Some(port),
{
    let text = decimal(port as int);
    lemma_decimal(port as int);
    assert(is_digit(text[0]) && is_digit(text[text.len() - 1]));
    assert(trimmed(text) == text);
    law_decimal_reads_back(port as int, u16::MAX as int);
}

/// A local port is reached on this machine alone, and its page over plain HTTP.
pub proof fn law_local_pages(port: u16)
    ensures
        local_address(port) == "127.0.0.1:"@ + decimal(port as int),
        local_page(port) == "http://"@ + local_address(port) + "/"@,
{
    reveal_strlit("127.0.0.1:");
    reveal_strlit("http://127.0.0.1:");
    reveal_strlit("http://");
    assert("http://127.0.0.1:"@ =~= "http://"@ + "127.0.0.1:"@);
    assert(local_page(port) =~= "http://"@ + local_address(port) + "/"@);
}

/// A port file names the number in it, whatever white space stands round it. One
/// that is too large for a port names none, and neither does a text with anything
/// but digits and a `+`.
pub proof fn law_port_files_name_a_port(
    before: Seq<char>,
    n: int,
    behind: Seq<char>,
    content: Seq<char>,
    i: int,
)
    requires
        all_space(before),
        all_space(behind),
        n >= 0,
    ensures
        n <= 65_535 ==> port_in(before + decimal(n) + behind) == Some(n as u16),
        n > 65_535 ==> port_in(before + decimal(n) + behind) is None,
        0 <= i < content.len() && !is_space(content[i]) && content[i] != '+' && !('0' <= content[i]
            <= '9') ==> port_in(content) is None,
{
    let text = decimal(n);
    lemma_decimal(n);
    assert(is_digit(text[0]) && is_digit(text[text.len() - 1]));
    assert(no_space_around(text));
    law_trimming_takes_the_ends_alone(before, text, behind);
    law_decimal_reads_back(n, n);
    if n <= 65_535 {
        law_decimal_reads_back(n, 65_535);
    }
    if 0 <= i < content.len() && !is_space(content[i]) && content[i] != '+' && !('0' <= content[i]
        <= '9') {
        law_trimming_keeps_the_rest(content, i);
        let rest = trimmed(content);
        let k = choose|k: int| 0 <= k < rest.len() && rest[k] == content[i];
        law_numbers_are_read_in_decimal(rest, 0, u16::MAX as int);
    }
}

/// A port that was given is the one the backend is reached at, whatever its port
/// file says. Where the port is 0 the port file decides.
pub proof fn law_given_port_counts(port: u16, content: Seq<char>, file: Option<Seq<char>>)
    ensures
        port != 0 ==> actual_port(port, file) == Some(port),
        actual_port(0, Some(content)) == port_in(content),
        actual_port(0, None) is None,
{
}

/// A while later is that many milliseconds later, or the last time there is.
pub proof fn law_later_is_later(now: u64, while_ms: u64)
    ensures
        now + while_ms <= u64::MAX ==> later(now, while_ms) == now + while_ms,
        now + while_ms > u64::MAX ==> later(now, while_ms) == u64::MAX,
{
}

/// Every process beside the app is told four things under their names.
pub proof fn law_processes_are_told_of_the_app(
    data_dir: Seq<char>,
    temp_dir: Seq<char>,
    version: Seq<char>,
    entry: Seq<char>,
)
    ensures
        ({
            let env = shared_env(data_dir, temp_dir, version, entry);
            &&& env.len() == 4
            &&& env.contains(("BRIX_DATA_DIR"@, data_dir))
            &&& env.contains(("BRIX_TEMP_DIR"@, temp_dir))
            &&& env.contains(("BRIX_APP_VERSION"@, version))
            &&& env.contains(("BRIX_ENTRY"@, entry))
        }),
{
    let env = shared_env(data_dir, temp_dir, version, entry);
    assert(env[0] == ("BRIX_DATA_DIR"@, data_dir));
    assert(env[1] == ("BRIX_TEMP_DIR"@, temp_dir));
    assert(env[2] == ("BRIX_APP_VERSION"@, version));
    assert(env[3] == ("BRIX_ENTRY"@, entry));
}

/// A backend is told its port in decimal, 0 where none is named. One that picks the
/// port itself is told where to name it, and no other is.
pub proof fn law_backends_are_told_their_port(temp_dir: Seq<char>, port: u16)
    ensures
        port_env(temp_dir, None) == seq![("BRIX_PORT"@, decimal(0))],
        port != 0 ==> port_env(temp_dir, Some(port)) == seq![("BRIX_PORT"@, decimal(port as int))],
        port_env(temp_dir, Some(0)) == seq![
            ("BRIX_PORT"@, decimal(0)),
            ("BRIX_PORT_FILE"@, child_text(temp_dir, ".brix_port"@)),
        ],
{
    reveal_strlit("0");
    assert("0"@ =~= seq!['0']);
    law_numbers_are_written_in_decimal(0, 0);
    assert(decimal(0) == "0"@);
    assert(port_env(temp_dir, None) =~= seq![("BRIX_PORT"@, decimal(0))]);
}

} // verus!
