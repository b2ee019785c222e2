//! The top level: one session slot, phase-sensitive dispatch, transitions
//! on events, and the question-and-answer protocol with the caller.
use vstd::prelude::*;

use crate::cmd::{parse_command, Cmd};
use crate::dbg::Debugger;
use crate::error::ErrorKind;
use crate::session::{
    push_starting, Answer, Binary, Env, Event, Opt, Outcome, Pending, Phase, Request, Step,
};

verus! {

/// The session in one of its three phases.
pub enum Context {
    Env(Env<()>),
    Static(Env<Binary>),
    Debug(Env<Debugger>),
}

/// The application top level: the phase-tagged session, a pending question
/// when one is outstanding, and the output of the last command.
pub struct Shortstop {
    ctx: Option<Context>,
    pending: Option<Pending>,
    out: String,
}

impl Shortstop {
    /// The session is in a usable state: a phase is present and the
    /// breakpoint table is well-formed.
    pub closed spec fn wf(self) -> bool {
        match self.ctx {
            Some(Context::Env(e)) => e.breakpoints.wf(),
            Some(Context::Static(e)) => e.breakpoints.wf(),
            Some(Context::Debug(e)) => e.breakpoints.wf(),
            None => false,
        }
    }

    /// The current phase.
    pub closed spec fn phase_spec(self) -> Phase {
        match self.ctx {
            Some(Context::Env(e)) => Phase::Empty,
            Some(Context::Static(e)) => Phase::Loaded,
            Some(Context::Debug(e)) => Phase::Running,
            None => Phase::Empty,
        }
    }

    /// No question is outstanding.
    pub closed spec fn pending_none(self) -> bool {
        self.pending is None
    }

    /// The outstanding question, if any.
    pub closed spec fn pending_spec(self) -> Option<Pending> {
        self.pending
    }

    /// The output accumulated since it was last taken.
    pub closed spec fn output_spec(self) -> Seq<char> {
        self.out@
    }

    /// The breakpoint table of the session, whatever the phase.
    pub closed spec fn table_spec(self) -> crate::bp::BreakpointTable {
        match self.ctx {
            Some(Context::Env(e)) => e.breakpoints,
            Some(Context::Static(e)) => e.breakpoints,
            Some(Context::Debug(e)) => e.breakpoints,
            None => arbitrary(),
        }
    }

    /// The stored argument list, as character sequences.
    pub closed spec fn args_spec(self) -> Seq<Seq<char>> {
        match self.ctx {
            Some(Context::Env(e)) => e.config.args.deep_view(),
            Some(Context::Static(e)) => e.config.args.deep_view(),
            Some(Context::Debug(e)) => e.config.args.deep_view(),
            None => arbitrary(),
        }
    }

    /// The last examine format.
    pub closed spec fn fmt_spec(self) -> crate::fmt::Fmt {
        match self.ctx {
            Some(Context::Env(e)) => e.last_fmt,
            Some(Context::Static(e)) => e.last_fmt,
            Some(Context::Debug(e)) => e.last_fmt,
            None => arbitrary(),
        }
    }

    /// The last examine address.
    pub closed spec fn addr_spec(self) -> Option<u64> {
        match self.ctx {
            Some(Context::Env(e)) => e.last_addr,
            Some(Context::Static(e)) => e.last_addr,
            Some(Context::Debug(e)) => e.last_addr,
            None => arbitrary(),
        }
    }

    /// The stored program path.
    pub closed spec fn path_spec(self) -> Option<Seq<char>> {
        let p = match self.ctx {
            Some(Context::Env(e)) => e.config.path,
            Some(Context::Static(e)) => e.config.path,
            Some(Context::Debug(e)) => e.config.path,
            None => arbitrary(),
        };
        match p {
            Some(path) => Some(path@),
            None => None,
        }
    }

    /// The loaded binary's path, in the loaded phase.
    pub closed spec fn loaded_path_spec(self) -> Option<Seq<char>> {
        match self.ctx {
            Some(Context::Static(e)) => Some(e.inner.path@),
            _ => None,
        }
    }

    /// A fresh session in the empty phase.
    pub fn new(opt: Opt) -> (s: Shortstop)
        ensures
            s.wf(),
            s.phase_spec() == Phase::Empty,
            s.pending_none(),
            s.table_spec().rows().len() == 0,
            s.table_spec().next_id() == 1,
            s.args_spec() == opt.args.deep_view(),
            s.fmt_spec() == (crate::fmt::Fmt {
                reverse: false,
                repeat: None,
                format: None,
                size: None,
            }),
            s.addr_spec() is None,
    {
        Shortstop {
            ctx: Some(Context::Env(Env::<()>::new(opt))),
            pending: None,
            out: String::new(),
        }
    }

    /// The current phase.
    pub fn phase(&self) -> (p: Phase)
        ensures
            p == self.phase_spec(),
    {
        match &self.ctx {
            Some(Context::Env(e)) => Phase::Empty,
            Some(Context::Static(e)) => Phase::Loaded,
            Some(Context::Debug(e)) => Phase::Running,
            None => Phase::Empty,
        }
    }

    /// Take the output the handled commands produced so far.
    pub fn take_output(&mut self) -> (s: String)
        ensures
            final(self).wf() == old(self).wf(),
            final(self).phase_spec() == old(self).phase_spec(),
            final(self).pending_none() == old(self).pending_none(),
            session_preserved(*old(self), *final(self)),
            final(self).path_spec() == old(self).path_spec(),
            final(self).loaded_path_spec() == old(self).loaded_path_spec(),
            s@ == old(self).output_spec(),
            final(self).output_spec() == Seq::<char>::empty(),
    {
        let s = self.out.clone();
        self.out = String::new();
        s
    }

    /// How many breakpoints the session holds.
    pub fn breakpoint_count(&self) -> (n: usize)
        requires
            self.wf(),
        ensures
            n == self.table_spec().rows().len(),
    {
        match &self.ctx {
            Some(Context::Env(e)) => e.breakpoints.len(),
            Some(Context::Static(e)) => e.breakpoints.len(),
            Some(Context::Debug(e)) => e.breakpoints.len(),
            None => 0,
        }
    }

    /// The number, address and enabled flag of the breakpoint at a
    /// position, in insertion order.
    pub fn breakpoint_at(&self, i: usize) -> (r: Option<(u64, u64, bool)>)
        requires
            self.wf(),
        ensures
            match r {
                Some(e) => i < self.table_spec().rows().len() && e == (
                    self.table_spec().rows()[i as int].0,
                    self.table_spec().rows()[i as int].1.addr,
                    self.table_spec().rows()[i as int].1.enabled,
                ),
                None => i >= self.table_spec().rows().len(),
            },
    {
        match &self.ctx {
            Some(Context::Env(e)) => Self::table_entry(&e.breakpoints, i),
            Some(Context::Static(e)) => Self::table_entry(&e.breakpoints, i),
            Some(Context::Debug(e)) => Self::table_entry(&e.breakpoints, i),
            None => None,
        }
    }

    fn table_entry(t: &crate::bp::BreakpointTable, i: usize) -> (r: Option<(u64, u64, bool)>)
        ensures
            match r {
                Some(e) => i < t.rows().len() && e == (
                    t.rows()[i as int].0,
                    t.rows()[i as int].1.addr,
                    t.rows()[i as int].1.enabled,
                ),
                None => i >= t.rows().len(),
            },
    {
        if i < t.len() {
            let id = t.id_at(i);
            let bp = t.bp_at(i);
            Some((id, bp.addr, bp.enabled))
        } else {
            None
        }
    }

    /// Record an outstanding request and hand the caller its visible part.
    fn ask(&mut self, req: Request) -> (o: Outcome)
        ensures
            !final(self).pending_none(),
            final(self).wf() == old(self).wf(),
            final(self).phase_spec() == old(self).phase_spec(),
            session_preserved(*old(self), *final(self)),
            final(self).path_spec() == old(self).path_spec(),
            final(self).loaded_path_spec() == old(self).loaded_path_spec(),
            match req {
                Request::Confirm(q, p) => o == Outcome::Confirm(q),
                Request::Spawn(pa, ar) => o == Outcome::Spawn(pa, ar),
                Request::ShowMaps(pid) => o == Outcome::ShowMaps(pid),
            },
    {
        match req {
            Request::Confirm(prompt, pending) => {
                self.pending = Some(pending);
                Outcome::Confirm(prompt)
            },
            Request::Spawn(path, args) => {
                self.pending = Some(Pending::AwaitSpawn);
                Outcome::Spawn(path, args)
            },
            Request::ShowMaps(pid) => {
                self.pending = Some(Pending::AwaitMaps);
                Outcome::ShowMaps(pid)
            },
        }
    }

    /// Parse one command line and handle the command.
    pub fn handle_command_line(&mut self, line: &str) -> (r: Result<Outcome, ErrorKind>)
        requires
            old(self).wf(),
            old(self).pending_none(),
        ensures
            final(self).wf(),
            r is Err ==> final(self).phase_spec() == old(self).phase_spec()
                && final(self).pending_none(),
            r matches Ok(Outcome::Done) ==> final(self).pending_none(),
    {
        let cmd = match parse_command(line) {
            Ok(cmd) => cmd,
            Err(e) => {
                return Err(e);
            },
        };
        self.handle_command(cmd)
    }

    /// Dispatch a command to the current phase's handler and apply the
    /// transition its event asks for.  A rejected command leaves the phase
    /// as it was: in the empty phase everything but `file`, `set` and the
    /// empty line is rejected for want of an executable; in the loaded
    /// phase `continue`, `stepi` and `info` are rejected because nothing
    /// runs.
    pub fn handle_command(&mut self, cmd: Cmd) -> (r: Result<Outcome, ErrorKind>)
        requires
            old(self).wf(),
            old(self).pending_none(),
        ensures
            final(self).wf(),
            r is Err ==> final(self).phase_spec() == old(self).phase_spec()
                && final(self).pending_none(),
            r matches Ok(Outcome::Done) ==> final(self).pending_none(),
            (r matches Ok(o) && !(o matches Outcome::Done)) ==> !final(self).pending_none(),
            (old(self).phase_spec() == Phase::Empty && !((cmd matches Cmd::File { .. }) || (
            cmd matches Cmd::SetEnv { .. }) || (cmd matches Cmd::Repeat))) ==> r == Err::<
                Outcome,
                ErrorKind,
            >(ErrorKind::NoExecutable),
            (old(self).phase_spec() == Phase::Loaded && ((cmd matches Cmd::Continue { .. }) || (
            cmd matches Cmd::Stepi { .. }) || (cmd matches Cmd::Info { .. }))) ==> r == Err::<
                Outcome,
                ErrorKind,
            >(ErrorKind::NotRunning),
            cmd matches Cmd::File { path } ==> old(self).phase_spec() == Phase::Empty ==> (
            r matches Ok(o) && o matches Outcome::Done && final(self).phase_spec()
                == Phase::Loaded) && final(self).loaded_path_spec() == Some(path@)
                && final(self).path_spec() == Some(path@) && session_preserved(
                *old(self),
                *final(self),
            ),
            cmd matches Cmd::Run { args } ==> old(self).phase_spec() == Phase::Loaded ==> (
            r matches Ok(o) && o matches Outcome::Spawn(p, a) && final(self).phase_spec()
                == Phase::Loaded && a.deep_view() == final(self).args_spec() && final(self).args_spec() == (if args@.len() > 0 {
                args.deep_view()
            } else {
                old(self).args_spec()
            })) && final(self).table_spec() == old(self).table_spec()
                && final(self).fmt_spec() == old(self).fmt_spec()
                && final(self).addr_spec() == old(self).addr_spec(),
            cmd matches Cmd::File { path } ==> old(self).phase_spec() == Phase::Loaded ==> (
            r matches Ok(o) && o matches Outcome::Confirm(q) && final(self).phase_spec()
                == Phase::Loaded) && session_preserved(*old(self), *final(self)),
            cmd matches Cmd::Break { loc } ==> old(self).phase_spec() == Phase::Loaded ==> old(self).table_spec().next_id() < u64::MAX ==> (r matches Ok(o) && o matches Outcome::Done)
                && final(self).phase_spec() == Phase::Loaded && final(self).table_spec().rows()
                == old(self).table_spec().rows().push(
                (
                    old(self).table_spec().next_id(),
                    crate::bp::Breakpoint { addr: loc, enabled: false, saved: None },
                ),
            ) && final(self).table_spec().next_id() == old(self).table_spec().next_id() + 1,
            cmd matches Cmd::Break { loc } ==> old(self).phase_spec() == Phase::Running ==> r is Ok
                ==> final(self).table_spec().rows().len() == old(self).table_spec().rows().len()
                + 1 && final(self).table_spec().rows().last().0 == old(self).table_spec().next_id() && final(self).table_spec().rows().last().1.addr == loc
                && final(self).table_spec().rows().last().1.enabled && final(self).table_spec().rows().last().1.saved is Some && (forall|i: int|
                0 <= i < old(self).table_spec().rows().len() ==> #[trigger] final(self).table_spec().rows()[i] == old(self).table_spec().rows()[i]),
            cmd matches Cmd::Continue { n } ==> old(self).phase_spec() == Phase::Running ==> r is Ok
                ==> (r matches Ok(o) && o matches Outcome::Done) && crate::bp::same_numbers(
                old(self).table_spec().rows(),
                final(self).table_spec().rows(),
            ) && final(self).args_spec() == old(self).args_spec()
                && final(self).fmt_spec() == old(self).fmt_spec()
                && final(self).addr_spec() == old(self).addr_spec() && (final(self).phase_spec()
                == Phase::Running || final(self).phase_spec() == Phase::Loaded),
            cmd matches Cmd::Stepi { n } ==> old(self).phase_spec() == Phase::Running ==> r is Ok
                ==> (r matches Ok(o) && o matches Outcome::Done) && final(self).table_spec() == old(self).table_spec() && final(self).args_spec() == old(self).args_spec()
                && final(self).fmt_spec() == old(self).fmt_spec()
                && final(self).addr_spec() == old(self).addr_spec() && (final(self).phase_spec()
                == Phase::Running || final(self).phase_spec() == Phase::Loaded),
    {
        let ctx = self.ctx.take();
        match ctx {
            Some(Context::Env(mut env)) => {
                match env.handle_command(cmd) {
                    Ok(Some(Event::Open(bin))) => {
                        self.ctx = Some(Context::Static(env.into_binary(bin)));
                        Ok(Outcome::Done)
                    },
                    Ok(Some(ev)) => {
                        // The empty phase only ever opens a file.
                        proof {
                            assert(false);
                        }
                        self.ctx = Some(Context::Env(env));
                        Ok(Outcome::Done)
                    },
                    Ok(None) => {
                        self.ctx = Some(Context::Env(env));
                        Ok(Outcome::Done)
                    },
                    Err(e) => {
                        self.ctx = Some(Context::Env(env));
                        Err(e)
                    },
                }
            },
            Some(Context::Static(mut env)) => {
                match env.handle_command(cmd, &mut self.out) {
                    Ok(Step::Done(None)) => {
                        self.ctx = Some(Context::Static(env));
                        Ok(Outcome::Done)
                    },
                    Ok(Step::Done(Some(ev))) => {
                        // The loaded phase transitions only through the
                        // question-and-answer protocol.
                        proof {
                            assert(false);
                        }
                        self.ctx = Some(Context::Static(env));
                        Ok(Outcome::Done)
                    },
                    Ok(Step::Ask(req)) => {
                        self.ctx = Some(Context::Static(env));
                        Ok(self.ask(req))
                    },
                    Err(e) => {
                        self.ctx = Some(Context::Static(env));
                        Err(e)
                    },
                }
            },
            Some(Context::Debug(mut env)) => {
                match env.handle_command(cmd, &mut self.out) {
                    Ok(Step::Done(None)) => {
                        self.ctx = Some(Context::Debug(env));
                        Ok(Outcome::Done)
                    },
                    Ok(Step::Done(Some(ev))) => {
                        // The only event out of the running phase is the
                        // process's exit: fall back to the loaded phase.
                        let prog = env.inner.prog().clone();
                        env.inner.clear_target();
                        let bin = Binary::new(prog);
                        self.ctx = Some(Context::Static(env.into_binary(bin)));
                        Ok(Outcome::Done)
                    },
                    Ok(Step::Ask(req)) => {
                        self.ctx = Some(Context::Debug(env));
                        Ok(self.ask(req))
                    },
                    Err(e) => {
                        self.ctx = Some(Context::Debug(env));
                        Err(e)
                    },
                }
            },
            None => {
                proof {
                    assert(false);
                }
                vstd::pervasive::unreached()
            },
        }
    }

    /// Answer the outstanding request: the user's yes or no, the pid of
    /// the freshly launched program, or the failure to launch it.
    pub fn resume(&mut self, ans: Answer) -> (r: Result<Outcome, ErrorKind>)
        requires
            old(self).wf(),
            !old(self).pending_none(),
        ensures
            final(self).wf(),
            r matches Ok(Outcome::Done) ==> final(self).pending_none(),
            r is Err ==> final(self).pending_none() && final(self).phase_spec() == old(self).phase_spec(),
            old(self).pending_spec() matches Some(Pending::ChangeFile(p)) ==> ans matches
                Answer::Yes ==> (r matches Ok(o) && o matches Outcome::Done) && final(self).phase_spec() == Phase::Loaded && final(self).loaded_path_spec() == Some(p@)
                && session_preserved(*old(self), *final(self)),
            old(self).pending_spec() matches Some(Pending::ChangeFile(p)) ==> ans matches Answer::No
                ==> (r matches Ok(o) && o matches Outcome::Done) && final(self).phase_spec() == old(self).phase_spec() && session_preserved(*old(self), *final(self)) && final(self).path_spec() == old(self).path_spec() && final(self).output_spec() == old(self).output_spec() + "File not changed."@ + "\n"@,
            old(self).pending_spec() matches Some(Pending::Restart(rargs)) ==> ans matches
                Answer::Yes ==> old(self).phase_spec() == Phase::Running ==> (r matches Ok(o)
                && o matches Outcome::Spawn(pp, aa) && final(self).phase_spec() == Phase::Running
                && final(self).table_spec() == old(self).table_spec()
                && final(self).fmt_spec() == old(self).fmt_spec()
                && final(self).addr_spec() == old(self).addr_spec() && aa.deep_view()
                == final(self).args_spec() && final(self).args_spec() == (if rargs@.len() > 0 {
                rargs.deep_view()
            } else {
                old(self).args_spec()
            })),
            old(self).pending_spec() matches Some(Pending::Restart(rargs)) ==> ans matches
                Answer::No ==> (r matches Ok(o) && o matches Outcome::Done) && final(self).phase_spec() == old(self).phase_spec() && session_preserved(*old(self), *final(self))
                && final(self).output_spec() == old(self).output_spec()
                + "Program not restarted."@ + "\n"@,
            ans matches Answer::Yes ==> old(self).pending_spec() == Some(Pending::DeleteAll)
                ==> old(self).phase_spec() == Phase::Running ==> r is Ok ==> final(self).table_spec().rows().len()
                == 0 && final(self).phase_spec() == Phase::Running
                && final(self).args_spec() == old(self).args_spec()
                && final(self).fmt_spec() == old(self).fmt_spec()
                && final(self).addr_spec() == old(self).addr_spec(),
            ans matches Answer::No ==> old(self).pending_spec() == Some(Pending::DeleteAll) ==> (
            r matches Ok(o) && o matches Outcome::Done) && final(self).phase_spec() == old(self).phase_spec() && session_preserved(*old(self), *final(self)),
            ans matches Answer::Spawned(pid) ==> old(self).pending_spec() == Some(
                Pending::AwaitSpawn,
            ) ==> r is Ok ==> final(self).phase_spec() == Phase::Running
                && crate::bp::same_numbers(
                old(self).table_spec().rows(),
                final(self).table_spec().rows(),
            ) && (forall|i: int|
                0 <= i < old(self).table_spec().rows().len() ==> ((
                #[trigger] final(self).table_spec().rows()[i]).1.enabled
                    && final(self).table_spec().rows()[i].1.saved is Some)
                    || final(self).table_spec().rows()[i].1 == old(self).table_spec().rows()[i].1)
                && final(self).args_spec() == old(self).args_spec()
                && final(self).fmt_spec() == old(self).fmt_spec()
                && final(self).addr_spec() == old(self).addr_spec(),
            ans matches Answer::SpawnFailed(p) ==> old(self).pending_spec() == Some(
                Pending::AwaitSpawn,
            ) ==> r == Err::<Outcome, ErrorKind>(ErrorKind::Path(p))
                && final(self).phase_spec() == old(self).phase_spec() && session_preserved(
                *old(self),
                *final(self),
            ),
            ans matches Answer::Shown ==> old(self).pending_spec() == Some(Pending::AwaitMaps)
                ==> (r matches Ok(o) && o matches Outcome::Done) && final(self).phase_spec() == old(self).phase_spec() && session_preserved(*old(self), *final(self)),
    {
        let pending = match self.pending.take() {
            Some(p) => p,
            None => {
                proof {
                    assert(false);
                }
                vstd::pervasive::unreached()
            },
        };
        match pending {
            Pending::ChangeFile(path) => {
                match ans {
                    Answer::Yes => self.change_file(path),
                    Answer::No => {
                        push_output(&mut self.out, "File not changed.");
                        Ok(Outcome::Done)
                    },
                    _ => Err(ErrorKind::ProcessEvent),
                }
            },
            Pending::Restart(args) => {
                match ans {
                    Answer::Yes => self.restart(args),
                    Answer::No => {
                        push_output(&mut self.out, "Program not restarted.");
                        Ok(Outcome::Done)
                    },
                    _ => Err(ErrorKind::ProcessEvent),
                }
            },
            Pending::DeleteAll => {
                match ans {
                    Answer::Yes => self.delete_all(),
                    Answer::No => Ok(Outcome::Done),
                    _ => Err(ErrorKind::ProcessEvent),
                }
            },
            Pending::AwaitSpawn => {
                match ans {
                    Answer::Spawned(pid) => self.spawned(pid),
                    Answer::SpawnFailed(path) => Err(ErrorKind::Path(path)),
                    _ => Err(ErrorKind::ProcessEvent),
                }
            },
            Pending::AwaitMaps => {
                match ans {
                    Answer::Shown => Ok(Outcome::Done),
                    _ => Err(ErrorKind::ProcessEvent),
                }
            },
        }
    }

    /// The user confirmed the file change: load the new binary, keeping
    /// breakpoints, arguments and the examine context; a live tracee is
    /// killed first.
    fn change_file(&mut self, path: String) -> (r: Result<Outcome, ErrorKind>)
        requires
            old(self).wf(),
            old(self).pending_none(),
        ensures
            final(self).wf(),
            final(self).pending_none(),
            (r matches Ok(o) && o matches Outcome::Done),
            final(self).phase_spec() == Phase::Loaded,
            final(self).loaded_path_spec() == Some(path@),
            final(self).path_spec() == Some(path@),
            session_preserved(*old(self), *final(self)),
    {
        let ctx = self.ctx.take();
        match ctx {
            Some(Context::Env(mut env)) => {
                match env.set_file(path) {
                    Event::Open(bin) => {
                        self.ctx = Some(Context::Static(env.into_binary(bin)));
                    },
                    _ => {
                        proof {
                            assert(false);
                        }
                        self.ctx = Some(Context::Env(env));
                    },
                }
                Ok(Outcome::Done)
            },
            Some(Context::Static(mut env)) => {
                match env.set_file(path) {
                    Event::Open(bin) => {
                        self.ctx = Some(Context::Static(env.into_binary(bin)));
                    },
                    _ => {
                        proof {
                            assert(false);
                        }
                        self.ctx = Some(Context::Static(env));
                    },
                }
                Ok(Outcome::Done)
            },
            Some(Context::Debug(mut env)) => {
                env.inner.teardown();
                match env.set_file(path) {
                    Event::Open(bin) => {
                        self.ctx = Some(Context::Static(env.into_binary(bin)));
                    },
                    _ => {
                        proof {
                            assert(false);
                        }
                        self.ctx = Some(Context::Debug(env));
                    },
                }
                Ok(Outcome::Done)
            },
            None => {
                proof {
                    assert(false);
                }
                vstd::pervasive::unreached()
            },
        }
    }

    /// The user confirmed the restart: kill the old tracee, take the new
    /// arguments, and ask the caller to launch the program again.
    fn restart(&mut self, args: Vec<String>) -> (r: Result<Outcome, ErrorKind>)
        requires
            old(self).wf(),
            old(self).pending_none(),
        ensures
            final(self).wf(),
            r matches Ok(Outcome::Done) ==> final(self).pending_none(),
            r is Err ==> final(self).pending_none() && final(self).phase_spec() == old(self).phase_spec() && session_preserved(*old(self), *final(self)),
            old(self).phase_spec() == Phase::Running ==> (r matches Ok(o) && o matches
                Outcome::Spawn(pp, aa) && final(self).phase_spec() == Phase::Running
                && final(self).table_spec() == old(self).table_spec()
                && final(self).fmt_spec() == old(self).fmt_spec()
                && final(self).addr_spec() == old(self).addr_spec() && aa.deep_view()
                == final(self).args_spec() && final(self).args_spec() == (if args@.len() > 0 {
                args.deep_view()
            } else {
                old(self).args_spec()
            })),
            old(self).phase_spec() != Phase::Running ==> r == Err::<Outcome, ErrorKind>(
                ErrorKind::ProcessEvent,
            ),
    {
        let ctx = self.ctx.take();
        match ctx {
            Some(Context::Debug(mut env)) => {
                if args.len() > 0 {
                    env.set_args(args);
                }
                env.inner.teardown();
                let prog = env.inner.prog().clone();
                let run_args = env.args();
                push_starting(&mut self.out, prog.as_str(), &run_args);
                self.ctx = Some(Context::Debug(env));
                Ok(self.ask(Request::Spawn(prog, run_args)))
            },
            Some(other) => {
                self.ctx = Some(other);
                Err(ErrorKind::ProcessEvent)
            },
            None => {
                proof {
                    assert(false);
                }
                vstd::pervasive::unreached()
            },
        }
    }

    /// The user confirmed deleting every breakpoint: lift each one against
    /// the live tracee and empty the table.
    fn delete_all(&mut self) -> (r: Result<Outcome, ErrorKind>)
        requires
            old(self).wf(),
            old(self).pending_none(),
        ensures
            final(self).wf(),
            final(self).pending_none(),
            final(self).phase_spec() == old(self).phase_spec(),
            final(self).args_spec() == old(self).args_spec(),
            final(self).fmt_spec() == old(self).fmt_spec(),
            final(self).addr_spec() == old(self).addr_spec(),
            (old(self).phase_spec() == Phase::Running && r is Ok) ==> (r matches Ok(o) && o matches
                Outcome::Done) && final(self).table_spec().rows().len() == 0,
            old(self).phase_spec() != Phase::Running ==> r == Err::<Outcome, ErrorKind>(
                ErrorKind::ProcessEvent,
            ) && final(self).table_spec() == old(self).table_spec(),
    {
        let ctx = self.ctx.take();
        match ctx {
            Some(Context::Debug(mut env)) => {
                let res = env.delete_all_breakpoints();
                self.ctx = Some(Context::Debug(env));
                match res {
                    Ok(u) => Ok(Outcome::Done),
                    Err(e) => Err(e),
                }
            },
            Some(other) => {
                self.ctx = Some(other);
                Err(ErrorKind::ProcessEvent)
            },
            None => {
                proof {
                    assert(false);
                }
                vstd::pervasive::unreached()
            },
        }
    }

    /// The caller launched the program: adopt the child, consume its
    /// initial stop, and plant every breakpoint of the table against it.
    fn spawned(&mut self, pid: i32) -> (r: Result<Outcome, ErrorKind>)
        requires
            old(self).wf(),
            old(self).pending_none(),
        ensures
            final(self).wf(),
            final(self).pending_none(),
            final(self).args_spec() == old(self).args_spec(),
            final(self).fmt_spec() == old(self).fmt_spec(),
            final(self).addr_spec() == old(self).addr_spec(),
            crate::bp::same_numbers(
                old(self).table_spec().rows(),
                final(self).table_spec().rows(),
            ),
            final(self).table_spec().next_id() == old(self).table_spec().next_id(),
            r is Ok ==> forall|i: int|
                0 <= i < old(self).table_spec().rows().len() ==> ((
                #[trigger] final(self).table_spec().rows()[i]).1.enabled
                    && final(self).table_spec().rows()[i].1.saved is Some)
                    || final(self).table_spec().rows()[i].1 == old(self).table_spec().rows()[i].1,
            old(self).phase_spec() == Phase::Loaded ==> (r is Ok ==> (r matches Ok(o) && o matches
                Outcome::Done) && final(self).phase_spec() == Phase::Running) && (r is Err ==> final(self).phase_spec() == Phase::Loaded),
            old(self).phase_spec() == Phase::Running ==> final(self).phase_spec() == Phase::Running
                && (r is Ok ==> (r matches Ok(o) && o matches Outcome::Done)),
            old(self).phase_spec() == Phase::Empty ==> r == Err::<Outcome, ErrorKind>(
                ErrorKind::ProcessEvent,
            ) && final(self).phase_spec() == Phase::Empty,
    {
        let ctx = self.ctx.take();
        match ctx {
            Some(Context::Static(env)) => {
                let mut dbg = Debugger::new(env.inner.path.clone());
                match dbg.attach(pid) {
                    Ok(u) => {
                        let mut env2 = env.into_debugger(dbg);
                        env2.enable_all_breakpoints(&mut self.out);
                        self.ctx = Some(Context::Debug(env2));
                        Ok(Outcome::Done)
                    },
                    Err(e) => {
                        // The child was forked: reap it before giving up.
                        dbg.teardown();
                        self.ctx = Some(Context::Static(env));
                        Err(e)
                    },
                }
            },
            Some(Context::Debug(mut env)) => {
                match env.inner.attach(pid) {
                    Ok(u) => {
                        env.enable_all_breakpoints(&mut self.out);
                        self.ctx = Some(Context::Debug(env));
                        Ok(Outcome::Done)
                    },
                    Err(e) => {
                        env.inner.teardown();
                        self.ctx = Some(Context::Debug(env));
                        Err(e)
                    },
                }
            },
            Some(other) => {
                self.ctx = Some(other);
                Err(ErrorKind::ProcessEvent)
            },
            None => {
                proof {
                    assert(false);
                }
                vstd::pervasive::unreached()
            },
        }
    }

    /// Kill and reap the tracee, if one is alive: called on any exit path.
    pub fn teardown(&mut self)
        ensures
            final(self).wf() == old(self).wf(),
            final(self).phase_spec() == old(self).phase_spec(),
    {
        match &mut self.ctx {
            Some(c) => {
                match c {
                    Context::Debug(env) => {
                        env.inner.teardown();
                    },
                    _ => {},
                }
            },
            None => {},
        }
    }
}


/// The session state a phase change must carry over: breakpoints,
/// arguments, and the examine context.
pub open spec fn session_preserved(pre: Shortstop, post: Shortstop) -> bool {
    &&& post.table_spec() == pre.table_spec()
    &&& post.args_spec() == pre.args_spec()
    &&& post.fmt_spec() == pre.fmt_spec()
    &&& post.addr_spec() == pre.addr_spec()
}

/// Append a line of output.
fn push_output(out: &mut String, line: &str)
    ensures
        final(out)@ == old(out)@ + line@ + "\n"@,
{
    out.append(line);
    out.append("\n");
}

} // verus!
