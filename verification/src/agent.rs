//! The agent as a whole: from its command line, one turn after another until it ends.

use crate::config::{command, dispatch, Cfg, Command};
use crate::daemon::{cmd_daemon, daemon_next, Daemon, DaemonView};
use crate::off::{cmd_off, off_next, Off, OffView};
use crate::on::{cmd_on, on_next, On, OnView};
use crate::status::{cmd_status, status_next, Status, StatusView};
use crate::sync::Sync;
use crate::text::{lemma_views_push, views};
use crate::world::{turn, Ask, Effect, EffectView, Effects, Reply, Text, Turn, TurnView, Words};
use vstd::prelude::*;

verus! {

/// What the agent is doing.
pub enum Job {
    /// Switching the server on, with the words after the command.
    On(On<Cfg, String>, Vec<String>),
    /// Switching it off; whether its files go too.
    Off(Off<Cfg, String>, bool),
    /// Saying how it stands.
    Status(Status<Cfg>),
    /// Sending heartbeats.
    Daemon(Daemon<Cfg, String, Sync>),
    /// Saying its version.
    Version,
    /// Saying how it is used.
    Usage,
}

/// What the agent is doing, with its texts as characters.
pub enum JobView {
    On(OnView, Words),
    Off(OffView, bool),
    Status(StatusView),
    Daemon(DaemonView),
    Version,
    Usage,
}

impl View for Job {
    type V = JobView;

    open spec fn view(&self) -> JobView {
        match self {
            Job::On(st, args) => JobView::On(st@, views(args@)),
            Job::Off(st, purge) => JobView::Off(st@, *purge),
            Job::Status(st) => JobView::Status(st@),
            Job::Daemon(st) => JobView::Daemon(st@),
            Job::Version => JobView::Version,
            Job::Usage => JobView::Usage,
        }
    }
}

impl JobView {
    /// A heartbeat under way is well formed.
    pub open spec fn wf(self) -> bool {
        self matches JobView::Daemon(st) ==> st.wf()
    }
}

/// The job that a command line, whose first word is the program, asks for.
pub open spec fn first_job(args: Words) -> JobView {
    if args.len() < 2 {
        JobView::Usage
    } else {
        match command(args[1]) {
            Command::On => JobView::On(On::Start, args.skip(2)),
            Command::Off => JobView::Off(Off::Start, false),
            Command::Uninstall => JobView::Off(Off::Start, true),
            Command::Status => JobView::Status(Status::Start),
            Command::Daemon => JobView::Daemon(Daemon::Start),
            Command::Version => JobView::Version,
            Command::Usage => JobView::Usage,
        }
    }
}

/// One turn of the agent.
pub open spec fn job_next(job: JobView, version: Text, reply: Reply) -> (JobView, TurnView) {
    let none = Seq::<EffectView>::empty();
    match job {
        JobView::On(st, args) => {
            let (next, t) = on_next(st, args, version, reply);
            (JobView::On(next, args), t)
        },
        JobView::Off(st, purge) => {
            let (next, t) = off_next(st, purge, reply);
            (JobView::Off(next, purge), t)
        },
        JobView::Status(st) => {
            let (next, t) = status_next(st, version, reply);
            (JobView::Status(next), t)
        },
        JobView::Daemon(st) => {
            let (next, t) = daemon_next(st, reply);
            (JobView::Daemon(next), t)
        },
        JobView::Version => (
            JobView::Version,
            turn(none.push(Effect::Print("vpnyellod "@ + version)), Ask::Exit(0)),
        ),
        JobView::Usage => (
            JobView::Usage,
            turn(
                none.push(
                    Effect::Complain("vpnyellod "@ + version + " — YellowD VPN server agent"@),
                ).push(
                    Effect::Complain("  sudo vpnyellod on [--name NAME] [--registry URL]"@),
                ).push(Effect::Complain("  sudo vpnyellod off"@)).push(
                    Effect::Complain("  vpnyellod status"@),
                ).push(Effect::Complain("  sudo vpnyellod uninstall"@)),
                Ask::Exit(2),
            ),
        ),
    }
}

impl Job {
    /// The job that a command line asks for.
    pub fn new(args: &Vec<String>) -> (r: Job)
        ensures
            r@ == first_job(views(args@)),
            r@.wf(),
    {
        broadcast use lemma_views_push;

        let ghost all = views(args@);
        assert(args.len() >= 2 ==> all[1] == args[1]@);
        match dispatch(args) {
            Command::On => {
                let mut rest: Vec<String> = Vec::new();
                let mut i: usize = 2;
                assert(views(rest@) =~= all.subrange(2, 2));
                while i < args.len()
                    invariant
                        2 <= i <= args.len(),
                        all == views(args@),
                        views(rest@) == all.subrange(2, i as int),
                    decreases args.len() - i,
                {
                    assert(all[i as int] == args[i as int]@);
                    let ghost done = views(rest@);
                    rest.push(args[i].clone());
                    assert(views(rest@) == done.push(all[i as int]));
                    assert(done.push(all[i as int]) =~= all.subrange(2, i + 1));
                    i += 1;
                }
                Job::On(On::Start, rest)
            },
            Command::Off => Job::Off(Off::Start, false),
            Command::Uninstall => Job::Off(Off::Start, true),
            Command::Status => Job::Status(Status::Start),
            Command::Daemon => Job::Daemon(Daemon::Start),
            Command::Version => Job::Version,
            Command::Usage => Job::Usage,
        }
    }

    /// Takes the reply to the last question, and goes on to the next one. The first turn takes
    /// `Reply::Nothing`.
    pub fn step(self, version: &str, reply: &Reply) -> (r: (Job, Turn))
        requires
            self@.wf(),
        ensures
            (r.0@, r.1@) == job_next(self@, version@, *reply),
            r.0@.wf(),
    {
        let none = Effects::none();
        match self {
            Job::On(st, args) => {
                let (next, t) = cmd_on(st, &args, version, reply);
                (Job::On(next, args), t)
            },
            Job::Off(st, purge) => {
                let (next, t) = cmd_off(st, purge, reply);
                (Job::Off(next, purge), t)
            },
            Job::Status(st) => {
                let (next, t) = cmd_status(st, version, reply);
                (Job::Status(next), t)
            },
            Job::Daemon(st) => {
                let (next, t) = cmd_daemon(st, reply);
                (Job::Daemon(next), t)
            },
            Job::Version => (
                Job::Version,
                none.print("vpnyellod ".to_owned().concat(version)).ask(Ask::Exit(0)),
            ),
            Job::Usage => (Job::Usage, usage(version)),
        }
    }
}

/// How the agent is used.
pub fn usage(version: &str) -> (r: Turn)
    ensures
        r@ == job_next(JobView::Usage, version@, Reply::Nothing).1,
{
    Effects::none().complain(
        "vpnyellod ".to_owned().concat(version).concat(" — YellowD VPN server agent"),
    ).complain("  sudo vpnyellod on [--name NAME] [--registry URL]".to_owned()).complain(
        "  sudo vpnyellod off".to_owned(),
    ).complain("  vpnyellod status".to_owned()).complain(
        "  sudo vpnyellod uninstall".to_owned(),
    ).ask(Ask::Exit(2))
}

} // verus!
