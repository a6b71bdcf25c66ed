//! Installing a staged update: the new executable is started with a message to
//! itself, waits for the old one to end, takes its place and starts again.

use crate::text::{
    decimal, law_decimal_reads_back, number_of, parse_u32, same_text, to_decimal, views,
};
use vstd::prelude::*;
use vstd::string::*;

verus! {

/// How long the old app may take to end, in milliseconds.
pub const WAIT_LIMIT: u64 = 90_000;

/// The pause between two looks at the old app, in milliseconds.
pub const WAIT_PAUSE: u64 = 400;

/// The exit code of a process that still runs.
pub const STILL_ACTIVE: u32 = 259;

/// What an installer has to do.
#[derive(Debug)]
pub struct InstallJob {
    pub parent_pid: u32,
    pub current_exe: String,
    pub staged: String,
}

/// What an installer has to do as plain values.
#[verifier::ext_equal]
pub ghost struct JobView {
    pub parent_pid: u32,
    pub current_exe: Seq<char>,
    pub staged: Seq<char>,
}

impl View for InstallJob {
    type V = JobView;

    open spec fn view(&self) -> JobView {
        JobView {
            parent_pid: self.parent_pid,
            current_exe: self.current_exe@,
            staged: self.staged@,
        }
    }
}

/// A job that may be missing.
pub open spec fn job_view(job: Option<InstallJob>) -> Option<JobView> {
    match job {
        Some(job) => Some(job@),
        None => None,
    }
}

/// The arguments that start an installer.
pub open spec fn install_args(pid: u32, exe: Seq<char>, staged: Seq<char>) -> Seq<Seq<char>> {
    seq!["--brix-update-install"@, decimal(pid as int), exe, staged]
}

/// The arguments that start an installer, behind the path of the executable.
pub fn installer_args(pid: u32, exe: &str, staged: &str) -> (args: Vec<String>)
    ensures
        views(args@) == install_args(pid, exe@, staged@),
{
    let mut args: Vec<String> = Vec::new();
    args.push("--brix-update-install".to_owned());
    args.push(to_decimal(pid as u64));
    args.push(exe.to_owned());
    args.push(staged.to_owned());
    assert(views(args@) =~= install_args(pid, exe@, staged@));
    args
}

/// The place of the first text that is `word`, or the length.
pub open spec fn place_of(args: Seq<Seq<char>>, word: Seq<char>) -> int
    decreases args.len(),
{
    if args.len() == 0 {
        0
    } else if args[0] == word {
        0
    } else {
        1 + place_of(args.drop_first(), word)
    }
}

/// The place of the first argument that is `word`, or the number of arguments.
pub fn find_arg(args: &[String], word: &str) -> (place: usize)
    ensures
        place == place_of(views(args@), word@),
        place <= args@.len(),
        place < args@.len() <==> views(args@).contains(word@),
        place < args@.len() ==> args@[place as int]@ == word@,
{
    let mut i: usize = 0;
    assert(views(args@).skip(0) == views(args@));
    while i < args.len()
        invariant
            i <= args.len(),
            place_of(views(args@), word@) == i + place_of(views(args@).skip(i as int), word@),
            forall|j: int| 0 <= j < i ==> views(args@)[j] != word@,
        decreases args.len() - i,
    {
        assert(views(args@).skip(i as int)[0] == args@[i as int]@);
        assert(views(args@).skip(i as int).drop_first() == views(args@).skip(i + 1));
        if same_text(args[i].as_str(), word) {
            assert(views(args@)[i as int] == word@);
            return i;
        }
        i += 1;
    }
    assert(views(args@).skip(i as int).len() == 0);
    i
}

/// What the arguments of an installer say: the process to wait for, the
/// executable to replace and the one to put in its place stand behind the
/// message. A process that is no number is none to wait for.
pub open spec fn job_of(args: Seq<Seq<char>>) -> Option<JobView> {
    let at = place_of(args, "--brix-update-install"@);
    if at + 4 > args.len() {
        None
    } else {
        Some(
            JobView {
                parent_pid: match number_of(args[at + 1], u32::MAX as int) {
                    Some(n) => n as u32,
                    None => 0,
                },
                current_exe: args[at + 2],
                staged: args[at + 3],
            },
        )
    }
}

/// Reads the arguments of an installer.
pub fn run_update_installer_mode(args: &[String]) -> (job: Option<InstallJob>)
    ensures
        job_view(job) == job_of(views(args@)),
{
    let at = find_arg(args, "--brix-update-install");
    if args.len() - at < 4 {
        return None;
    }
    let parent_pid: u32 = match parse_u32(args[at + 1].as_str()) {
        Some(n) => n,
        None => 0,
    };
    Some(
        InstallJob {
            parent_pid,
            current_exe: args[at + 2].as_str().to_owned(),
            staged: args[at + 3].as_str().to_owned(),
        },
    )
}

/// An installer that is started with the arguments that the host writes, behind
/// the path of its own executable, does the host's job.
pub proof fn law_installer_reads_what_the_host_writes(
    program: Seq<char>,
    pid: u32,
    exe: Seq<char>,
    staged: Seq<char>,
)
    requires
        program != "--brix-update-install"@,
    ensures
        job_of(seq![program] + install_args(pid, exe, staged)) == Some(
            (JobView { parent_pid: pid, current_exe: exe, staged }),
        ),
{
    let args = seq![program] + install_args(pid, exe, staged);
    assert(args.drop_first() == install_args(pid, exe, staged));
    assert(place_of(args.drop_first(), "--brix-update-install"@) == 0);
    law_decimal_reads_back(pid as int, u32::MAX as int);
}

/// True while an installer has to wait: the old process is there, it has not
/// ended, and the time is not over.
pub fn must_wait(elapsed: u64, exit_code: Option<u32>) -> (r: bool)
    ensures
        r == (elapsed < 90_000 && exit_code == Some(259u32)),
{
    elapsed < WAIT_LIMIT && match exit_code {
        Some(code) => code == STILL_ACTIVE,
        None => false,
    }
}

/// One step of the replacement.
#[derive(Debug, PartialEq, Eq, Structural, Clone, Copy)]
pub enum InstallStep {
    /// Remove the old executable.
    Remove,
    /// Move the new one into its place.
    Rename,
    /// Copy the new one over the old.
    Copy,
    /// Start the new one.
    Relaunch,
    /// Leave all as it is.
    Stop,
}

/// The step after one that went well or not: a removal that fails, or a move
/// that fails, is made good by a copy.
pub open spec fn step_after(step: InstallStep, ok: bool) -> InstallStep {
    match step {
        InstallStep::Remove => if ok {
            InstallStep::Rename
        } else {
            InstallStep::Copy
        },
        InstallStep::Rename => if ok {
            InstallStep::Relaunch
        } else {
            InstallStep::Copy
        },
        InstallStep::Copy => if ok {
            InstallStep::Relaunch
        } else {
            InstallStep::Stop
        },
        InstallStep::Relaunch => InstallStep::Stop,
        InstallStep::Stop => InstallStep::Stop,
    }
}

/// The step after one that went well or not.
pub fn next_install_step(step: InstallStep, ok: bool) -> (r: InstallStep)
    ensures
        r == step_after(step, ok),
{
    match step {
        InstallStep::Remove => if ok {
            InstallStep::Rename
        } else {
            InstallStep::Copy
        },
        InstallStep::Rename => if ok {
            InstallStep::Relaunch
        } else {
            InstallStep::Copy
        },
        InstallStep::Copy => if ok {
            InstallStep::Relaunch
        } else {
            InstallStep::Stop
        },
        InstallStep::Relaunch => InstallStep::Stop,
        InstallStep::Stop => InstallStep::Stop,
    }
}

/// The app is started again only after a move or a copy of the new executable
/// into the place of the old one went well.
pub proof fn law_relaunch_follows_a_replacement(step: InstallStep, ok: bool)
    requires
        step_after(step, ok) == InstallStep::Relaunch,
    ensures
        ok,
        step == InstallStep::Rename || step == InstallStep::Copy,
{
}

pub(crate) proof fn lemma_place_of(before: Seq<Seq<char>>, word: Seq<char>, behind: Seq<Seq<char>>)
    requires
        !before.contains(word),
    ensures
        place_of(before.push(word) + behind, word) == before.len(),
        place_of(before, word) == before.len(),
    decreases before.len(),
{
    let all = before.push(word) + behind;
    if before.len() > 0 {
        assert(before[0] != word);
        let rest = before.drop_first();
        assert(!rest.contains(word)) by {
            if rest.contains(word) {
                let i = choose|i: int| 0 <= i < rest.len() && rest[i] == word;
                assert(before[i + 1] == word);
            }
        }
        lemma_place_of(rest, word, behind);
        assert(all[0] == before[0]);
        assert(all.drop_first() == rest.push(word) + behind);
    } else {
        assert(all[0] == word);
    }
}

/// An installer takes the three arguments behind the first message, wherever that
/// stands: the process to wait for, the executable to replace, and the new one. A
/// process that is no number is none. With fewer arguments, or without the message,
/// there is no job.
pub proof fn law_job_stands_behind_the_message(
    before: Seq<Seq<char>>,
    process: Seq<char>,
    exe: Seq<char>,
    staged: Seq<char>,
    more: Seq<Seq<char>>,
    pid: u32,
)
    requires
        !before.contains("--brix-update-install"@),
    ensures
        ({
            let job = job_of(
                before.push("--brix-update-install"@) + (seq![process, exe, staged] + more),
            );
            &&& job is Some
            &&& job->0.current_exe == exe
            &&& job->0.staged == staged
            &&& number_of(process, u32::MAX as int) == Some(pid as int) ==> job->0.parent_pid == pid
            &&& number_of(process, u32::MAX as int) is None ==> job->0.parent_pid == 0
        }),
        more.len() < 3 ==> job_of(before.push("--brix-update-install"@) + more) is None,
        job_of(before) is None,
{
    let word = "--brix-update-install"@;
    let behind = seq![process, exe, staged] + more;
    let args = before.push(word) + behind;
    lemma_place_of(before, word, behind);
    lemma_place_of(before, word, more);
    assert(args[before.len() as int + 1] == process);
    assert(args[before.len() as int + 2] == exe);
    assert(args[before.len() as int + 3] == staged);
}

/// The host starts an installer with the message, its own process in decimal, its
/// own executable and the new one.
pub proof fn law_installers_are_started_with_their_job(
    pid: u32,
    exe: Seq<char>,
    staged: Seq<char>,
)
    ensures
        install_args(pid, exe, staged).len() == 4,
        install_args(pid, exe, staged)[0] == "--brix-update-install"@,
        install_args(pid, exe, staged)[1] == decimal(pid as int),
        install_args(pid, exe, staged)[2] == exe,
        install_args(pid, exe, staged)[3] == staged,
{
}

/// The old executable is removed and the new one moved into its place; where either
/// fails the new one is copied over it. The app is started again after a move or a
/// copy that went well, and nothing follows after that or after a copy that failed.
pub proof fn law_install_steps()
    ensures
        step_after(InstallStep::Remove, true) == InstallStep::Rename,
        step_after(InstallStep::Remove, false) == InstallStep::Copy,
        step_after(InstallStep::Rename, true) == InstallStep::Relaunch,
        step_after(InstallStep::Rename, false) == InstallStep::Copy,
        step_after(InstallStep::Copy, true) == InstallStep::Relaunch,
        step_after(InstallStep::Copy, false) == InstallStep::Stop,
        forall|ok: bool| #[trigger] step_after(InstallStep::Relaunch, ok) == InstallStep::Stop,
        forall|ok: bool| #[trigger] step_after(InstallStep::Stop, ok) == InstallStep::Stop,
{
}

} // verus!
