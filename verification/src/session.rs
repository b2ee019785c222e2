//! The session: configuration, the three phases (no file, file loaded,
//! process running), phase-sensitive command handling, and the top-level
//! state machine that drives transitions.
//!
//! Everything the session cannot do from here — reading a line, resolving
//! a path, forking the child, reading `/proc` — is handed to the caller as
//! a request; the caller answers through `resume`.
use vstd::prelude::*;

use crate::bp::{delete_msgs_spec, delete_rows_spec, has_id, id_in, lemma_delete_spec_push, lemma_id_in_push, lemma_remove_first_at, marked_rows, no_breakpoint_msg, remove_first_id, same_numbers, step_over, Breakpoint, BreakpointTable};
use crate::cmd::{Cmd, Info, Proc, SetCmd};
use crate::dbg::Debugger;
use crate::error::ErrorKind;
use crate::examine::dump_memory;
use crate::fmt::{size_width, spec_overlay, Fmt};
use crate::numfmt::{pad_right, u64_to_hex_pad, u64_to_radix};
use crate::bp::{absent_msgs_spec, lemma_absent_msgs_push, lemma_has_id_same};
use crate::mem::store_bytes;
use crate::trace::{Event as TraceEvent, INT3};

verus! {

/// The command-line options of the debugger itself.
#[derive(Debug, Clone)]
pub struct Opt {
    /// The program to debug, if one was given.
    pub prog: Option<String>,
    /// The initial arguments for the debugged program.
    pub args: Vec<String>,
}

/// What the session keeps of its command line: the program path and the
/// argument list for the next run.
#[derive(Debug, Clone)]
pub struct Config {
    pub path: Option<String>,
    pub args: Vec<String>,
}

impl Config {
    /// The configuration the command-line options ask for.
    pub fn new(opt: Opt) -> (c: Config)
        ensures
            c.path == opt.prog,
            c.args == opt.args,
    {
        Config { path: opt.prog, args: opt.args }
    }
}

/// A program resolved as the one to debug, but not running.
#[derive(Debug, Clone)]
pub struct Binary {
    pub path: String,
}

impl Binary {
    /// The binary at a path.
    pub fn new(path: String) -> (b: Binary)
        ensures
            b.path == path,
    {
        Binary { path }
    }
}

/// An event a handler emits to drive a phase transition.
pub enum Event {
    /// A program was chosen: move to the loaded phase.
    Open(Binary),
    /// The debugged process exited: fall back to the loaded phase.
    ProcessExited,
}

/// Work only the caller can do, queued behind a question or an action.
pub enum Pending {
    /// Waiting for yes or no: change the debugged file to this path.
    ChangeFile(String),
    /// Waiting for yes or no: restart the program with these arguments.
    Restart(Vec<String>),
    /// Waiting for yes or no: delete every breakpoint.
    DeleteAll,
    /// Waiting for the caller to fork and exec the program under tracing.
    AwaitSpawn,
    /// Waiting for the caller to render the process's mappings.
    AwaitMaps,
}

/// What a handler asks the caller to do.
pub enum Request {
    /// Ask the user the given yes-or-no question.
    Confirm(String, Pending),
    /// Fork and exec the program with the arguments, under tracing.
    Spawn(String, Vec<String>),
    /// Show `/proc/<pid>/maps`.
    ShowMaps(i32),
}

/// What one handled command comes to: a possible transition event, or a
/// request to the caller.
pub enum Step {
    Done(Option<Event>),
    Ask(Request),
}

/// What the top level reports to its caller after a command.
#[derive(Debug)]
pub enum Outcome {
    /// The command is finished; print the output.
    Done,
    /// Ask the user the given yes-or-no question and `resume` with the
    /// answer.
    Confirm(String),
    /// Fork and exec the program under tracing and `resume` with the pid.
    Spawn(String, Vec<String>),
    /// Show the mappings of the process and `resume`.
    ShowMaps(i32),
}

/// The caller's answer to a request.
#[derive(Debug)]
pub enum Answer {
    Yes,
    No,
    /// The program was forked and exec'ed; here is its pid.
    Spawned(i32),
    /// The program could not be launched; here is the path that failed.
    SpawnFailed(String),
    /// The mappings were shown.
    Shown,
}

/// The session phase.
#[derive(Debug, Clone, Copy, PartialEq, Eq, Structural)]
pub enum Phase {
    /// No executable file specified yet.
    Empty,
    /// A file is loaded but no process runs.
    Loaded,
    /// A debugged process is live.
    Running,
}

/// The environment: an inner phase state and everything that survives
/// phase transitions — configuration, breakpoints, and the last examine
/// format and address.
pub struct Env<T> {
    pub inner: T,
    pub config: Config,
    pub breakpoints: BreakpointTable,
    pub last_fmt: Fmt,
    pub last_addr: Option<u64>,
}

impl<T> Env<T> {
    /// Carry every session field over to a new phase state.
    pub fn into_context<U>(self, ctx: U) -> (e: Env<U>)
        ensures
            e.inner == ctx,
            e.config == self.config,
            e.breakpoints == self.breakpoints,
            e.last_fmt == self.last_fmt,
            e.last_addr == self.last_addr,
    {
        Env {
            inner: ctx,
            config: self.config,
            breakpoints: self.breakpoints,
            last_fmt: self.last_fmt,
            last_addr: self.last_addr,
        }
    }

    /// Move to the running phase around a debugger.
    pub fn into_debugger(self, dbg: Debugger) -> (e: Env<Debugger>)
        ensures
            e.inner == dbg,
            e.config == self.config,
            e.breakpoints == self.breakpoints,
            e.last_fmt == self.last_fmt,
            e.last_addr == self.last_addr,
    {
        self.into_context(dbg)
    }

    /// Move to the loaded phase around a binary.
    pub fn into_binary(self, bin: Binary) -> (e: Env<Binary>)
        ensures
            e.inner == bin,
            e.config == self.config,
            e.breakpoints == self.breakpoints,
            e.last_fmt == self.last_fmt,
            e.last_addr == self.last_addr,
    {
        self.into_context(bin)
    }

    /// Record a new program path and emit the open event for it.
    pub fn set_file(&mut self, path: String) -> (ev: Event)
        ensures
            final(self).config.path == Some(path),
            final(self).config.args == old(self).config.args,
            final(self).breakpoints == old(self).breakpoints,
            final(self).last_fmt == old(self).last_fmt,
            final(self).last_addr == old(self).last_addr,
            final(self).inner == old(self).inner,
            (ev matches Event::Open(b) && b.path == path),
    {
        self.config.path = Some(path.clone());
        Event::Open(Binary::new(path))
    }

    /// The argument list for the next run.
    pub fn args(&self) -> (r: Vec<String>)
        ensures
            r.deep_view() == self.config.args.deep_view(),
    {
        self.config.args.clone()
    }

    /// Replace the argument list for the next run.
    pub fn set_args(&mut self, args: Vec<String>)
        ensures
            *final(self) == (Env { config: Config { args, ..old(self).config }, ..*old(self) }),
    {
        self.config.args = args;
    }

    /// The last examine address, if any command set one.
    pub fn addr(&self) -> (r: Option<u64>)
        ensures
            r == self.last_addr,
    {
        self.last_addr
    }

    /// Record the examine address.
    pub fn set_addr(&mut self, addr: u64)
        ensures
            *final(self) == (Env { last_addr: Some(addr), ..*old(self) }),
    {
        self.last_addr = Some(addr);
    }

    /// The last examine format.
    pub fn fmt(&self) -> (r: Fmt)
        ensures
            r == self.last_fmt,
    {
        self.last_fmt
    }

    /// Overlay a format patch onto the last examine format.
    pub fn set_fmt(&mut self, fmt: Fmt)
        ensures
            *final(self) == (Env { last_fmt: spec_overlay(old(self).last_fmt, fmt), ..*old(self) }),
    {
        self.last_fmt.update(fmt);
    }

    /// Register a breakpoint, disabled, under the next number.
    pub fn add_breakpoint(&mut self, loc: u64) -> (r: Option<u64>)
        requires
            old(self).breakpoints.wf(),
        ensures
            final(self).breakpoints.wf(),
            final(self).inner == old(self).inner,
            final(self).config == old(self).config,
            final(self).last_fmt == old(self).last_fmt,
            final(self).last_addr == old(self).last_addr,
            match r {
                Some(id) => old(self).breakpoints.next_id() < u64::MAX
                    && final(self).breakpoints.next_id() == old(self).breakpoints.next_id() + 1
                    && id == old(self).breakpoints.next_id() && final(self).breakpoints.rows()
                    == old(self).breakpoints.rows().push(
                    (id, Breakpoint { addr: loc, enabled: false, saved: None }),
                ),
                None => *final(self) == *old(self) && old(self).breakpoints.next_id()
                    == u64::MAX,
            },
    {
        self.breakpoints.add(loc)
    }

    /// Handle `set`: expressions are not supported; `set args` replaces
    /// the argument list.
    pub fn handle_set_command(&mut self, expr: Option<String>, cmd: Option<SetCmd>) -> (r: Result<
        Option<Event>,
        ErrorKind,
    >)
        ensures
            final(self).breakpoints == old(self).breakpoints,
            final(self).last_fmt == old(self).last_fmt,
            final(self).last_addr == old(self).last_addr,
            final(self).inner == old(self).inner,
            final(self).config.path == old(self).config.path,
            expr is Some ==> r == Err::<Option<Event>, ErrorKind>(ErrorKind::SetExpr)
                && *final(self) == *old(self),
            expr is None ==> (r matches Ok(ev) && ev is None),
            expr is None ==> final(self).config.args == (match cmd {
                Some(SetCmd::Args { args }) => args,
                None => old(self).config.args,
            }),
    {
        if expr.is_some() {
            return Err(ErrorKind::SetExpr);
        }
        match cmd {
            Some(SetCmd::Args { args }) => {
                self.set_args(args);
                Ok(None)
            },
            None => Ok(None),
        }
    }
}

/// The session fields beside the breakpoint table are unchanged.
pub open spec fn env_rest_same<T>(pre: Env<T>, post: Env<T>) -> bool {
    &&& post.inner == pre.inner
    &&& post.config == pre.config
    &&& post.last_fmt == pre.last_fmt
    &&& post.last_addr == pre.last_addr
}

/// The session fields that survive every running-phase command: the
/// configuration and the examine context.
pub open spec fn env_session_same<T>(pre: Env<T>, post: Env<T>) -> bool {
    &&& post.config == pre.config
    &&& post.last_fmt == pre.last_fmt
    &&& post.last_addr == pre.last_addr
}

/// Handle commands before any file is specified: only `file`, `set` and
/// the empty line are accepted.
impl Env<()> {
    /// The starting environment, from the command-line options.
    pub fn new(opt: Opt) -> (e: Env<()>)
        ensures
            e.breakpoints.wf(),
            e.config.path == opt.prog,
            e.config.args == opt.args,
            e.last_fmt == (Fmt { reverse: false, repeat: None, format: None, size: None }),
            e.last_addr is None,
            e.breakpoints.rows().len() == 0,
            e.breakpoints.next_id() == 1,
    {
        Env {
            inner: (),
            config: Config::new(opt),
            breakpoints: BreakpointTable::new(),
            last_fmt: Fmt { reverse: false, repeat: None, format: None, size: None },
            last_addr: None,
        }
    }

    /// Dispatch a command in the empty phase.
    pub fn handle_command(&mut self, cmd: Cmd) -> (r: Result<Option<Event>, ErrorKind>)
        requires
            old(self).breakpoints.wf(),
        ensures
            final(self).breakpoints.wf(),
            match cmd {
                Cmd::File { path } => (r matches Ok(ev) && ev matches Some(Event::Open(b))
                    && b.path == path) && final(self).breakpoints == old(self).breakpoints
                    && final(self).config.args == old(self).config.args && final(self).last_fmt
                    == old(self).last_fmt && final(self).last_addr == old(self).last_addr && final(self).config.path == Some(path),
                Cmd::SetEnv { expr, cmd } => if expr is Some {
                    r == Err::<Option<Event>, ErrorKind>(ErrorKind::SetExpr)
                } else {
                    (r matches Ok(ev) && ev is None)
                },
                Cmd::Repeat => (r matches Ok(ev) && ev is None),
                _ => r == Err::<Option<Event>, ErrorKind>(ErrorKind::NoExecutable) && *final(self)
                    == *old(self),
            },
    {
        match cmd {
            Cmd::File { path } => Ok(Some(self.set_file(path))),
            Cmd::SetEnv { expr, cmd } => self.handle_set_command(expr, cmd),
            Cmd::Repeat => Ok(None),
            _ => Err(ErrorKind::NoExecutable),
        }
    }
}

/// Append a line and the line break that ends it.
fn push_line(out: &mut String, line: &str)
    ensures
        final(out)@ == old(out)@ + line@ + "\n"@,
{
    out.append(line);
    out.append("\n");
}

/// Append `No breakpoint number {num}.` for an unknown breakpoint number.
fn push_no_breakpoint(out: &mut String, num: u64)
    ensures
        final(out)@ == old(out)@ + "No breakpoint number "@ + crate::numfmt::radix_chars(
            num as int,
            10,
        ) + ".\n"@,
{
    out.append("No breakpoint number ");
    let d = u64_to_radix(num, 10);
    out.append(d.as_str());
    out.append(".\n");
}

/// One row of the breakpoint listing, with its header line.
pub open spec fn bp_row_msg(id: u64, bp: Breakpoint) -> Seq<char> {
    "Num        Type             Disp Enb  Address              What"@ + "\n"@
        + crate::numfmt::right_pad(crate::numfmt::radix_chars(id as int, 10), 10)
        + " breakpoint       keep "@ + (if bp.enabled {
        "y   "@
    } else {
        "n   "@
    }) + "0x"@ + crate::numfmt::zero_pad(crate::numfmt::radix_chars(bp.addr as int, 16), 18)
        + " \n"@
}

/// The listing of the first `i` rows of the table.
pub open spec fn listing_upto(rows: Seq<(u64, Breakpoint)>, i: int) -> Seq<char>
    decreases i,
{
    if i <= 0 {
        Seq::empty()
    } else {
        listing_upto(rows, i - 1) + bp_row_msg(rows[i - 1].0, rows[i - 1].1)
    }
}

/// The register line, `rip` padded to fifteen columns with its value in
/// hex and decimal.
pub open spec fn registers_msg(pc: u64) -> Seq<char> {
    "rip            0x"@ + crate::numfmt::radix_chars(pc as int, 16) + "   "@
        + crate::numfmt::radix_chars(pc as int, 10) + "\n"@
}

/// Print the register line for the program counter.
fn push_registers(out: &mut String, pc: u64)
    ensures
        final(out)@ == old(out)@ + registers_msg(pc),
{
    out.append("rip            0x");
    let h = u64_to_radix(pc, 16);
    out.append(h.as_str());
    out.append("   ");
    let d = u64_to_radix(pc, 10);
    out.append(d.as_str());
    out.append("\n");
}

/// The breakpoint-hit line, `Breakpoint {num}, 0x{pc:x} in ??`.
pub open spec fn hit_msg(num: u64, pc: u64) -> Seq<char> {
    "Breakpoint "@ + crate::numfmt::radix_chars(num as int, 10) + ", 0x"@
        + crate::numfmt::radix_chars(pc as int, 16) + " in ??\n"@
}

/// The exit line, `[Inferior 1 (process {pid}) exited normally]`.
pub open spec fn exited_msg(pid: u64) -> Seq<char> {
    "[Inferior 1 (process "@ + crate::numfmt::radix_chars(pid as int, 10)
        + ") exited normally]\n"@
}

/// The hit lines of the first `i` rows whose address is `pc`, in table
/// order.
pub open spec fn hits_upto(rows: Seq<(u64, Breakpoint)>, pc: u64, i: int) -> Seq<char>
    decreases i,
{
    if i <= 0 {
        Seq::empty()
    } else {
        hits_upto(rows, pc, i - 1) + (if rows[i - 1].1.addr == pc {
            hit_msg(rows[i - 1].0, pc)
        } else {
            Seq::<char>::empty()
        })
    }
}

/// A prefix of some text is a prefix of any extension of it.
proof fn lemma_prefix_keeps(a: Seq<char>, b: Seq<char>, x: Seq<char>)
    requires
        a.is_prefix_of(b),
    ensures
        a.is_prefix_of(b + x),
{
    assert((b + x).subrange(0, a.len() as int) =~= b.subrange(0, a.len() as int));
}

/// Replacing a row's breakpoint at its own address keeps numbers and
/// addresses in place.
proof fn lemma_same_numbers_update(
    rows0: Seq<(u64, Breakpoint)>,
    pre: Seq<(u64, Breakpoint)>,
    post: Seq<(u64, Breakpoint)>,
    i: int,
    bp: Breakpoint,
)
    requires
        same_numbers(rows0, pre),
        0 <= i < pre.len(),
        bp.addr == pre[i].1.addr,
        post == pre.update(i, (pre[i].0, bp)),
    ensures
        same_numbers(rows0, post),
{
    assert forall|j: int|
        0 <= j < rows0.len() implies (#[trigger] post[j]).0 == rows0[j].0 && post[j].1.addr
        == rows0[j].1.addr by {
        if j != i {
            assert(post[j] == pre[j]);
        }
    }
}

/// Report a breakpoint hit, as `Breakpoint {num}, 0x{pc:x} in ??`.
fn push_breakpoint_hit(out: &mut String, num: u64, pc: u64)
    ensures
        final(out)@ == old(out)@ + hit_msg(num, pc),
{
    out.append("Breakpoint ");
    let d = u64_to_radix(num, 10);
    out.append(d.as_str());
    out.append(", 0x");
    let h = u64_to_radix(pc, 16);
    out.append(h.as_str());
    out.append(" in ??\n");
}

/// Report the process's exit, as `[Inferior 1 (process {pid}) exited
/// normally]`.
fn push_exited(out: &mut String, pid: u64)
    ensures
        final(out)@ == old(out)@ + exited_msg(pid),
{
    out.append("[Inferior 1 (process ");
    let d = u64_to_radix(pid, 10);
    out.append(d.as_str());
    out.append(") exited normally]\n");
}

/// Announce the program start, as `Starting program: PATH ARGS`.
pub fn push_starting(out: &mut String, prog: &str, args: &Vec<String>) {
    out.append("Starting program: ");
    out.append(prog);
    let n = args.len();
    let mut i: usize = 0;
    while i < n
        invariant
            n == args@.len(),
        decreases n - i,
    {
        out.append(" ");
        out.append(args[i].as_str());
        i += 1;
    }
    out.append("\n");
}

/// Handle commands with a file loaded but no process running.
impl Env<Binary> {
    /// Dispatch a command in the loaded phase.
    pub fn handle_command(&mut self, cmd: Cmd, out: &mut String) -> (r: Result<Step, ErrorKind>)
        requires
            old(self).breakpoints.wf(),
        ensures
            final(self).breakpoints.wf(),
            match cmd {
                Cmd::Continue { n } => r == Err::<Step, ErrorKind>(ErrorKind::NotRunning)
                    && *final(self) == *old(self),
                Cmd::Stepi { n } => r == Err::<Step, ErrorKind>(ErrorKind::NotRunning)
                    && *final(self) == *old(self),
                Cmd::Info { cmd: c } => r == Err::<Step, ErrorKind>(ErrorKind::NotRunning)
                    && *final(self) == *old(self),
                Cmd::Run { args } => (r matches Ok(s) && s matches Step::Ask(Request::Spawn(p, a))
                    && p == old(self).inner.path && a.deep_view()
                    == final(self).config.args.deep_view()) && final(self).config.args == (
                if args.len() > 0 {
                    args
                } else {
                    old(self).config.args
                }) && final(self).breakpoints == old(self).breakpoints && final(self).last_fmt
                    == old(self).last_fmt && final(self).last_addr == old(self).last_addr && final(self).inner == old(self).inner,
                Cmd::File { path } => (r matches Ok(s) && s matches Step::Ask(
                    Request::Confirm(q, Pending::ChangeFile(p)),
                ) && p == path && q@ == "Are you sure you want to change the file?"@) && *final(self) == *old(self) && final(out)@ == old(out)@
                    + "A program is being debugged already."@ + "\n"@,
                Cmd::Break { loc } => if old(self).breakpoints.next_id() < u64::MAX {
                    (r matches Ok(s) && s matches Step::Done(ev) && ev is None)
                        && final(self).breakpoints.rows() == old(self).breakpoints.rows().push(
                        (
                            old(self).breakpoints.next_id(),
                            Breakpoint { addr: loc, enabled: false, saved: None },
                        ),
                    ) && final(self).breakpoints.next_id() == old(self).breakpoints.next_id() + 1
                        && final(out)@ == old(out)@ && env_rest_same(*old(self), *final(self))
                } else {
                    r == Err::<Step, ErrorKind>(ErrorKind::BreakpointLimit) && *final(self)
                        == *old(self) && final(out)@ == old(out)@
                },
                Cmd::Delete { args } => (r matches Ok(s) && s matches Step::Done(ev) && ev is None)
                    && final(self).breakpoints.rows() == delete_rows_spec(
                    old(self).breakpoints.rows(),
                    args@,
                ) && final(self).breakpoints.next_id() == old(self).breakpoints.next_id()
                    && final(out)@ == old(out)@ + delete_msgs_spec(
                    old(self).breakpoints.rows(),
                    args@,
                ) && env_rest_same(*old(self), *final(self)),
                Cmd::Disable { args } => (r matches Ok(s) && s matches Step::Done(ev) && ev is None)
                    && marked_rows(
                    old(self).breakpoints.rows(),
                    final(self).breakpoints.rows(),
                    args@,
                    false,
                ) && final(self).breakpoints.next_id() == old(self).breakpoints.next_id()
                    && final(out)@ == old(out)@ && env_rest_same(*old(self), *final(self)),
                Cmd::Enable { args } => (r matches Ok(s) && s matches Step::Done(ev) && ev is None)
                    && marked_rows(
                    old(self).breakpoints.rows(),
                    final(self).breakpoints.rows(),
                    args@,
                    true,
                ) && final(self).breakpoints.next_id() == old(self).breakpoints.next_id()
                    && final(out)@ == old(out)@ && env_rest_same(*old(self), *final(self)),
                _ => !(r matches Ok(Step::Done(Some(ev)))),
            },
    {
        match cmd {
            Cmd::Break { loc } => {
                match self.add_breakpoint(loc) {
                    Some(id) => Ok(Step::Done(None)),
                    None => Err(ErrorKind::BreakpointLimit),
                }
            },
            Cmd::Delete { args } => {
                self.delete_breakpoints(&args, out);
                Ok(Step::Done(None))
            },
            Cmd::Disable { args } => {
                self.mark_breakpoints(&args, false);
                Ok(Step::Done(None))
            },
            Cmd::Enable { args } => {
                self.mark_breakpoints(&args, true);
                Ok(Step::Done(None))
            },
            Cmd::Examine { fmt, addr } => {
                // Without a tracee there is no memory to show.
                Ok(Step::Done(None))
            },
            Cmd::File { path } => {
                push_line(out, "A program is being debugged already.");
                Ok(
                    Step::Ask(
                        Request::Confirm(
                            String::from_str("Are you sure you want to change the file?"),
                            Pending::ChangeFile(path),
                        ),
                    ),
                )
            },
            Cmd::Repeat => Ok(Step::Done(None)),
            Cmd::Run { args } => {
                if args.len() > 0 {
                    self.set_args(args);
                }
                let prog = self.inner.path.clone();
                let run_args = self.args();
                push_starting(out, prog.as_str(), &run_args);
                Ok(Step::Ask(Request::Spawn(prog, run_args)))
            },
            Cmd::SetEnv { expr, cmd } => {
                match self.handle_set_command(expr, cmd) {
                    Ok(ev) => Ok(Step::Done(None)),
                    Err(e) => Err(e),
                }
            },
            Cmd::Info { .. } | Cmd::Continue { .. } | Cmd::Stepi { .. } => Err(
                ErrorKind::NotRunning,
            ),
        }
    }

    /// Set the enabled flag of the numbered breakpoints; no tracee is
    /// alive, so no memory changes, and unknown numbers are skipped.
    fn mark_breakpoints(&mut self, args: &Vec<u64>, enabled: bool)
        requires
            old(self).breakpoints.wf(),
        ensures
            final(self).breakpoints.wf(),
            marked_rows(
                old(self).breakpoints.rows(),
                final(self).breakpoints.rows(),
                args@,
                enabled,
            ),
            final(self).breakpoints.next_id() == old(self).breakpoints.next_id(),
            env_rest_same(*old(self), *final(self)),
    {
        let ghost rows0 = self.breakpoints.rows();
        let mut k: usize = 0;
        let n = args.len();
        proof {
            assert(args@.take(0) =~= Seq::<u64>::empty());
        }
        while k < n
            invariant
                k <= n,
                n == args@.len(),
                self.breakpoints.wf(),
                self.breakpoints.next_id() == old(self).breakpoints.next_id(),
                rows0 == old(self).breakpoints.rows(),
                marked_rows(rows0, self.breakpoints.rows(), args@.take(k as int), enabled),
                env_rest_same(*old(self), *self),
            decreases n - k,
        {
            let num = args[k];
            let ghost pre = self.breakpoints.rows();
            proof {
                assert(args@.take(k + 1) =~= args@.take(k as int).push(num));
            }
            match self.breakpoints.find(num) {
                Some(i) => {
                    let mut bp = self.breakpoints.bp_at(i);
                    bp.enabled = enabled;
                    self.breakpoints.set_bp_at(i, bp);
                    proof {
                        lemma_mark_step(
                            rows0,
                            pre,
                            self.breakpoints.rows(),
                            args@.take(k as int),
                            num,
                            i as int,
                            enabled,
                        );
                    }
                },
                None => {
                    proof {
                        lemma_mark_skip(rows0, pre, args@.take(k as int), num, enabled);
                    }
                },
            }
            k += 1;
        }
        proof {
            assert(args@.take(n as int) =~= args@);
        }
    }

    /// Delete the numbered breakpoints: each number removes its row if one
    /// is left, and prints `No breakpoint number N.` otherwise.
    fn delete_breakpoints(&mut self, args: &Vec<u64>, out: &mut String)
        requires
            old(self).breakpoints.wf(),
        ensures
            final(self).breakpoints.wf(),
            final(self).breakpoints.rows() == delete_rows_spec(
                old(self).breakpoints.rows(),
                args@,
            ),
            final(self).breakpoints.next_id() == old(self).breakpoints.next_id(),
            final(out)@ == old(out)@ + delete_msgs_spec(old(self).breakpoints.rows(), args@),
            env_rest_same(*old(self), *final(self)),
    {
        let ghost rows0 = self.breakpoints.rows();
        let ghost out0 = out@;
        let mut k: usize = 0;
        let n = args.len();
        proof {
            assert(args@.take(0) =~= Seq::<u64>::empty());
            assert(out0 + delete_msgs_spec(rows0, args@.take(0)) =~= out0);
        }
        while k < n
            invariant
                k <= n,
                n == args@.len(),
                self.breakpoints.wf(),
                self.breakpoints.next_id() == old(self).breakpoints.next_id(),
                rows0 == old(self).breakpoints.rows(),
                self.breakpoints.rows() == delete_rows_spec(rows0, args@.take(k as int)),
                out@ == out0 + delete_msgs_spec(rows0, args@.take(k as int)),
                env_rest_same(*old(self), *self),
            decreases n - k,
        {
            let num = args[k];
            let ghost pre = self.breakpoints.rows();
            proof {
                assert(args@.take(k + 1) =~= args@.take(k as int).push(num));
                lemma_delete_spec_push(rows0, args@.take(k as int), num);
            }
            match self.breakpoints.find(num) {
                Some(i) => {
                    proof {
                        assert(has_id(pre, num));
                        lemma_remove_first_at(pre, num, i as int);
                        assert(out0 + delete_msgs_spec(rows0, args@.take(k as int)) + Seq::<
                            char,
                        >::empty() =~= out0 + delete_msgs_spec(rows0, args@.take(k as int)));
                    }
                    self.breakpoints.remove_at(i);
                },
                None => {
                    proof {
                        assert(!has_id(pre, num)) by {
                            if has_id(pre, num) {
                                let w = choose|w: int|
                                    0 <= w < pre.len() && #[trigger] pre[w].0 == num;
                            }
                        }
                    }
                    push_no_breakpoint(out, num);
                    proof {
                        assert(out@ =~= (out0 + delete_msgs_spec(rows0, args@.take(k as int)))
                            + no_breakpoint_msg(num));
                        assert((out0 + delete_msgs_spec(rows0, args@.take(k as int)))
                            + no_breakpoint_msg(num) =~= out0 + (delete_msgs_spec(
                            rows0,
                            args@.take(k as int),
                        ) + no_breakpoint_msg(num)));
                    }
                },
            }
            k += 1;
        }
        proof {
            assert(args@.take(n as int) =~= args@);
        }
    }
}

/// `post` is `pre` with exactly the listed numbers' rows planted: those
/// rows are enabled with a saved byte, every other row is untouched, and
/// numbers and addresses stay throughout.
pub open spec fn planted_rows(
    pre: Seq<(u64, Breakpoint)>,
    post: Seq<(u64, Breakpoint)>,
    ids: Seq<u64>,
) -> bool {
    &&& same_numbers(pre, post)
    &&& forall|i: int|
        0 <= i < pre.len() && id_in(ids, (#[trigger] post[i]).0) ==> post[i].1.enabled
            && post[i].1.saved is Some
    &&& forall|i: int| 0 <= i < pre.len() && !id_in(ids, (#[trigger] post[i]).0) ==> post[i].1 == pre[i].1
}

/// Planting one found number keeps a planted-rows relation one id longer.
proof fn lemma_plant_step(
    rows0: Seq<(u64, Breakpoint)>,
    pre: Seq<(u64, Breakpoint)>,
    post: Seq<(u64, Breakpoint)>,
    done: Seq<u64>,
    num: u64,
    i: int,
    bp: Breakpoint,
)
    requires
        planted_rows(rows0, pre, done),
        0 <= i < pre.len(),
        pre[i].0 == num,
        forall|a: int, b: int| 0 <= a < b < pre.len() ==> #[trigger] pre[a].0 < #[trigger] pre[b].0,
        bp.addr == pre[i].1.addr,
        bp.enabled,
        bp.saved is Some,
        post == pre.update(i, (pre[i].0, bp)),
    ensures
        planted_rows(rows0, post, done.push(num)),
{
    assert forall|j: int|
        0 <= j < rows0.len() implies (#[trigger] post[j]).0 == rows0[j].0 && post[j].1.addr
        == rows0[j].1.addr by {
        if j != i {
            assert(post[j] == pre[j]);
        }
    }
    assert forall|j: int|
        0 <= j < rows0.len() && id_in(done.push(num), (#[trigger] post[j]).0) implies post[j].1.enabled
        && post[j].1.saved is Some by {
        lemma_id_in_push(done, num, post[j].0);
        if j != i {
            assert(post[j] == pre[j]);
            if post[j].0 == num {
                if j < i {
                    assert(pre[j].0 < pre[i].0);
                } else {
                    assert(pre[i].0 < pre[j].0);
                }
            }
        }
    }
    assert forall|j: int|
        0 <= j < rows0.len() && !id_in(done.push(num), (#[trigger] post[j]).0) implies post[j].1
        == rows0[j].1 by {
        lemma_id_in_push(done, num, post[j].0);
        assert(post[j] == pre[j]);
    }
}

/// A number with no row leaves the planted-rows relation intact.
proof fn lemma_plant_skip(
    rows0: Seq<(u64, Breakpoint)>,
    pre: Seq<(u64, Breakpoint)>,
    done: Seq<u64>,
    num: u64,
)
    requires
        planted_rows(rows0, pre, done),
        forall|j: int| 0 <= j < pre.len() ==> #[trigger] pre[j].0 != num,
    ensures
        planted_rows(rows0, pre, done.push(num)),
{
    assert forall|j: int|
        0 <= j < rows0.len() && id_in(done.push(num), (#[trigger] pre[j]).0) implies pre[j].1.enabled
        && pre[j].1.saved is Some by {
        lemma_id_in_push(done, num, pre[j].0);
    }
    assert forall|j: int|
        0 <= j < rows0.len() && !id_in(done.push(num), (#[trigger] pre[j]).0) implies pre[j].1
        == rows0[j].1 by {
        lemma_id_in_push(done, num, pre[j].0);
    }
}

/// Marking one found number keeps a marked-rows relation one id longer.
proof fn lemma_mark_step(
    rows0: Seq<(u64, Breakpoint)>,
    pre: Seq<(u64, Breakpoint)>,
    post: Seq<(u64, Breakpoint)>,
    done: Seq<u64>,
    num: u64,
    i: int,
    enabled: bool,
)
    requires
        marked_rows(rows0, pre, done, enabled),
        0 <= i < pre.len(),
        pre[i].0 == num,
        forall|a: int, b: int| 0 <= a < b < pre.len() ==> #[trigger] pre[a].0 < #[trigger] pre[b].0,
        post == pre.update(
            i,
            (pre[i].0, Breakpoint { enabled, ..pre[i].1 }),
        ),
    ensures
        marked_rows(rows0, post, done.push(num), enabled),
{
    assert forall|j: int| 0 <= j < rows0.len() implies (#[trigger] post[j]).0 == rows0[j].0
        && post[j].1.addr == rows0[j].1.addr && post[j].1.saved == rows0[j].1.saved by {
        if j != i {
            assert(post[j] == pre[j]);
        }
    }
    assert forall|j: int|
        0 <= j < rows0.len() && id_in(done.push(num), (#[trigger] post[j]).0) implies post[j].1.enabled
        == enabled by {
        lemma_id_in_push(done, num, post[j].0);
        if j != i {
            assert(post[j] == pre[j]);
            if post[j].0 == num {
                // Numbers are strictly increasing, so no second row holds it.
                if j < i {
                    assert(pre[j].0 < pre[i].0);
                } else {
                    assert(pre[i].0 < pre[j].0);
                }
            }
        }
    }
    assert forall|j: int|
        0 <= j < rows0.len() && !id_in(done.push(num), (#[trigger] post[j]).0) implies post[j].1
        == rows0[j].1 by {
        lemma_id_in_push(done, num, post[j].0);
        assert(post[j] == pre[j]);
    }
}

/// A number with no row leaves the marked-rows relation intact.
proof fn lemma_mark_skip(
    rows0: Seq<(u64, Breakpoint)>,
    pre: Seq<(u64, Breakpoint)>,
    done: Seq<u64>,
    num: u64,
    enabled: bool,
)
    requires
        marked_rows(rows0, pre, done, enabled),
        forall|j: int| 0 <= j < pre.len() ==> #[trigger] pre[j].0 != num,
    ensures
        marked_rows(rows0, pre, done.push(num), enabled),
{
    assert forall|j: int|
        0 <= j < rows0.len() && id_in(done.push(num), (#[trigger] pre[j]).0) implies pre[j].1.enabled
        == enabled by {
        lemma_id_in_push(done, num, pre[j].0);
    }
    assert forall|j: int|
        0 <= j < rows0.len() && !id_in(done.push(num), (#[trigger] pre[j]).0) implies pre[j].1
        == rows0[j].1 by {
        lemma_id_in_push(done, num, pre[j].0);
    }
}

/// Handle commands with a live debugged process.
impl Env<Debugger> {
    /// Dispatch a command in the running phase.
    pub fn handle_command(&mut self, cmd: Cmd, out: &mut String) -> (r: Result<Step, ErrorKind>)
        requires
            old(self).breakpoints.wf(),
        ensures
            final(self).breakpoints.wf(),
            (r matches Ok(Step::Done(Some(ev))) ==> ev matches Event::ProcessExited
                && !final(self).inner.is_live()),
            match cmd {
                Cmd::File { path } => (r matches Ok(s) && s matches Step::Ask(
                    Request::Confirm(q, Pending::ChangeFile(p)),
                ) && p == path && q@ == "Are you sure you want to change the file?"@) && *final(self) == *old(self) && final(out)@ == old(out)@
                    + "A program is being debugged already."@ + "\n"@,
                Cmd::Run { args } => (r matches Ok(s) && s matches Step::Ask(
                    Request::Confirm(q, Pending::Restart(a)),
                ) && q@ == "Start it from the beginning?"@ && a == args) && *final(self) == *old(self) && final(out)@ == old(out)@
                    + "The program being debugged has been started already."@ + "\n"@,
                Cmd::Break { loc } => env_session_same(*old(self), *final(self)) && !(r matches Ok(
                    Step::Ask(q),
                )) && !(r matches Ok(Step::Done(Some(e2)))) && (r is Ok ==> (exists|b: u8|
                    final(self).breakpoints.rows() == old(self).breakpoints.rows().push(
                        (
                            old(self).breakpoints.next_id(),
                            Breakpoint { addr: loc, enabled: true, saved: Some(b) },
                        ),
                    )) && final(self).breakpoints.next_id() == old(self).breakpoints.next_id()
                    + 1),
                Cmd::Continue { n } => env_session_same(*old(self), *final(self)) && same_numbers(
                    old(self).breakpoints.rows(),
                    final(self).breakpoints.rows(),
                ) && final(self).breakpoints.next_id() == old(self).breakpoints.next_id() && !(
                r matches Ok(Step::Ask(q))),
                Cmd::Stepi { n } => env_session_same(*old(self), *final(self)) && final(self).breakpoints == old(self).breakpoints && !(r matches Ok(Step::Ask(q))),
                Cmd::Delete { args } => env_session_same(*old(self), *final(self)) && final(self).breakpoints.next_id() == old(self).breakpoints.next_id() && (args@.len() > 0
                    ==> !(r matches Ok(Step::Ask(q)))) && !(r matches Ok(Step::Done(Some(e2)))),
                Cmd::Disable { args } => env_session_same(*old(self), *final(self)) && same_numbers(
                    old(self).breakpoints.rows(),
                    final(self).breakpoints.rows(),
                ) && final(self).breakpoints.next_id() == old(self).breakpoints.next_id() && !(
                r matches Ok(Step::Ask(q))) && !(r matches Ok(Step::Done(Some(e2)))),
                Cmd::Enable { args } => env_session_same(*old(self), *final(self)) && same_numbers(
                    old(self).breakpoints.rows(),
                    final(self).breakpoints.rows(),
                ) && final(self).breakpoints.next_id() == old(self).breakpoints.next_id() && !(
                r matches Ok(Step::Ask(q))) && !(r matches Ok(Step::Done(Some(e2)))),
                Cmd::Examine { fmt, addr } => final(self).breakpoints == old(self).breakpoints
                    && final(self).config == old(self).config && final(self).inner == old(self).inner && !(r matches Ok(Step::Ask(q))) && !(r matches Ok(Step::Done(Some(e2)))),
                Cmd::SetEnv { expr, cmd: sc } => final(self).breakpoints == old(self).breakpoints
                    && final(self).last_fmt == old(self).last_fmt && final(self).last_addr == old(self).last_addr && final(self).inner == old(self).inner && !(r matches Ok(Step::Ask(q)))
                    && !(r matches Ok(Step::Done(Some(e2)))),
                Cmd::Repeat => *final(self) == *old(self) && !(r matches Ok(Step::Ask(q))) && !(
                r matches Ok(Step::Done(Some(e2)))),
                Cmd::Info { cmd: ic } => *final(self) == *old(self) && !(r matches Ok(
                    Step::Done(Some(e2)),
                )),
            },
    {
        match cmd {
            Cmd::Break { loc } => self.break_command(loc),
            Cmd::Continue { n } => self.continue_command(n, out),
            Cmd::Stepi { n } => self.stepi_command(n, out),
            Cmd::Delete { args } => self.delete_command(args, out),
            Cmd::Disable { args } => self.disable_command(args, out),
            Cmd::Enable { args } => self.enable_command(args, out),
            Cmd::Examine { fmt, addr } => self.examine_command(fmt, addr, out),
            Cmd::File { path } => {
                push_line(out, "A program is being debugged already.");
                Ok(
                    Step::Ask(
                        Request::Confirm(
                            String::from_str("Are you sure you want to change the file?"),
                            Pending::ChangeFile(path),
                        ),
                    ),
                )
            },
            Cmd::Repeat => Ok(Step::Done(None)),
            Cmd::Run { args } => {
                push_line(out, "The program being debugged has been started already.");
                Ok(
                    Step::Ask(
                        Request::Confirm(
                            String::from_str("Start it from the beginning?"),
                            Pending::Restart(args),
                        ),
                    ),
                )
            },
            Cmd::SetEnv { expr, cmd } => {
                match self.handle_set_command(expr, cmd) {
                    Ok(ev) => Ok(Step::Done(None)),
                    Err(e) => Err(e),
                }
            },
            Cmd::Info { cmd } => self.info_command(cmd, out),
        }
    }

    /// Register a breakpoint under the next number and plant it at once:
    /// on success int3 sits at the address and the original byte is
    /// saved; if planting fails the breakpoint stays registered but
    /// lifted, and memory is untouched.
    fn break_command(&mut self, loc: u64) -> (r: Result<Step, ErrorKind>)
        requires
            old(self).breakpoints.wf(),
        ensures
            final(self).breakpoints.wf(),
            env_session_same(*old(self), *final(self)),
            !(r matches Ok(Step::Done(Some(ev)))),
            !(r matches Ok(Step::Ask(q))),
            if old(self).breakpoints.next_id() < u64::MAX {
                final(self).breakpoints.next_id() == old(self).breakpoints.next_id() + 1 && (match r {
                    Ok(s) => final(self).breakpoints.rows() == old(self).breakpoints.rows().push(
                        (
                            old(self).breakpoints.next_id(),
                            Breakpoint {
                                addr: loc,
                                enabled: true,
                                saved: Some(old(self).inner.mem_of()[loc as int]),
                            },
                        ),
                    ) && final(self).inner.mem_of() == store_bytes(
                        old(self).inner.mem_of(),
                        loc as int,
                        seq![INT3],
                    ),
                    Err(e) => final(self).breakpoints.rows() == old(self).breakpoints.rows().push(
                        (
                            old(self).breakpoints.next_id(),
                            Breakpoint { addr: loc, enabled: false, saved: None },
                        ),
                    ) && final(self).inner.mem_of() == old(self).inner.mem_of() && (!old(self).inner.is_live() ==> e == ErrorKind::NotRunning),
                })
            } else {
                r == Err::<Step, ErrorKind>(ErrorKind::BreakpointLimit) && *final(self) == *old(self)
            },
    {
        let ghost rows0 = self.breakpoints.rows();
        let id = match self.breakpoints.add(loc) {
            Some(id) => id,
            None => {
                return Err(ErrorKind::BreakpointLimit);
            },
        };
        let i = self.breakpoints.len() - 1;
        let mut bp = self.breakpoints.bp_at(i);
        let ghost rows1 = self.breakpoints.rows();
        match bp.enable(&mut self.inner) {
            Ok(u) => {
                self.breakpoints.set_bp_at(i, bp);
                proof {
                    assert(bp == (Breakpoint {
                        addr: loc,
                        enabled: true,
                        saved: Some(old(self).inner.mem_of()[loc as int]),
                    }));
                    assert(self.breakpoints.rows() =~= rows0.push((id, bp)));
                }
                Ok(Step::Done(None))
            },
            Err(e) => Err(e),
        }
    }

    /// Continue execution `n` times, stepping over any enabled breakpoint
    /// the program counter sits on, and reporting breakpoint hits and the
    /// process's exit.  Numbers and addresses of the table survive; an
    /// exit is never swallowed: a plain completion means the tracee is
    /// still live.
    fn continue_command(&mut self, n: u64, out: &mut String) -> (r: Result<Step, ErrorKind>)
        requires
            old(self).breakpoints.wf(),
        ensures
            final(self).breakpoints.wf(),
            same_numbers(old(self).breakpoints.rows(), final(self).breakpoints.rows()),
            final(self).breakpoints.next_id() == old(self).breakpoints.next_id(),
            env_session_same(*old(self), *final(self)),
            (old(out)@ + "Continuing."@ + "\n"@).is_prefix_of(final(out)@),
            (r matches Ok(Step::Done(Some(ev))) ==> ev matches Event::ProcessExited
                && !final(self).inner.is_live()),
            (r matches Ok(Step::Done(ev)) && ev is None && n > 0) ==> final(self).inner.is_live(),
            !(r matches Ok(Step::Ask(q))),
    {
        let ghost rows0 = self.breakpoints.rows();
        push_line(out, "Continuing.");
        let ghost base = out@;
        let mut c: u64 = 0;
        while c < n
            invariant
                c <= n,
                self.breakpoints.wf(),
                rows0 == old(self).breakpoints.rows(),
                same_numbers(rows0, self.breakpoints.rows()),
                self.breakpoints.next_id() == old(self).breakpoints.next_id(),
                env_session_same(*old(self), *self),
                base.is_prefix_of(out@),
                base == old(out)@ + "Continuing."@ + "\n"@,
                c > 0 ==> self.inner.is_live(),
            decreases n - c,
        {
            // Step over breakpoints planted at the current stop.
            let pc = match self.inner.pc() {
                Ok(pc) => pc,
                Err(e) => {
                    return Err(e);
                },
            };
            let mut i: usize = 0;
            while i < self.breakpoints.len()
                invariant
                    self.breakpoints.wf(),
                    rows0 == old(self).breakpoints.rows(),
                    same_numbers(rows0, self.breakpoints.rows()),
                    self.breakpoints.next_id() == old(self).breakpoints.next_id(),
                    env_session_same(*old(self), *self),
                    base.is_prefix_of(out@),
                    base == old(out)@ + "Continuing."@ + "\n"@,
                decreases self.breakpoints.rows().len() - i,
            {
                let ghost pre = self.breakpoints.rows();
                let mut bp = self.breakpoints.bp_at(i);
                if bp.addr == pc && bp.enabled && bp.saved.is_some() {
                    match step_over(&mut bp, &mut self.inner) {
                        Ok(ev) => {
                            self.breakpoints.set_bp_at(i, bp);
                            proof {
                                lemma_same_numbers_update(
                                    rows0,
                                    pre,
                                    self.breakpoints.rows(),
                                    i as int,
                                    bp,
                                );
                            }
                        },
                        Err(e) => {
                            self.breakpoints.set_bp_at(i, bp);
                            return Err(e);
                        },
                    }
                }
                i += 1;
            }
            // Continue to the next stop and act on what it reports.
            let ev = match self.inner.cont() {
                Ok(ev) => ev,
                Err(e) => {
                    return Err(e);
                },
            };
            let ghost outpre = out@;
            let ghost rows_at = self.breakpoints.rows();
            match self.handle_cont_event(ev, out) {
                Ok(Some(sev)) => {
                    proof {
                        match ev {
                            TraceEvent::Exited(p, c2) => {
                                lemma_prefix_keeps(base, outpre, exited_msg(if p >= 0 {
                                    p as u64
                                } else {
                                    0u64
                                }));
                            },
                            _ => {},
                        }
                    }
                    return Ok(Step::Done(Some(sev)));
                },
                Ok(None) => {
                    proof {
                        match ev {
                            TraceEvent::Stopped => {
                                let pcv = choose|pcv: u64|
                                    out@ == outpre + #[trigger] hits_upto(
                                        rows_at,
                                        pcv,
                                        rows_at.len() as int,
                                    );
                                lemma_prefix_keeps(
                                    base,
                                    outpre,
                                    hits_upto(rows_at, pcv, rows_at.len() as int),
                                );
                            },
                            _ => {},
                        }
                    }
                },
                Err(e) => {
                    return Err(e);
                },
            }
            c += 1;
        }
        Ok(Step::Done(None))
    }

    /// Report what one continue stop came to: an exit prints the inferior
    /// line and yields the transition event; a stop reports every
    /// breakpoint whose address the program counter sits on; a signal is
    /// passed over.
    fn handle_cont_event(&mut self, ev: TraceEvent, out: &mut String) -> (r: Result<
        Option<Event>,
        ErrorKind,
    >)
        ensures
            final(self).breakpoints == old(self).breakpoints,
            env_session_same(*old(self), *final(self)),
            match ev {
                TraceEvent::Exited(p, c) => r matches Ok(sev) && sev == Some(Event::ProcessExited)
                    && final(self).inner == old(self).inner && final(out)@ == old(out)@
                    + exited_msg(
                    if p >= 0 {
                        p as u64
                    } else {
                        0u64
                    },
                ),
                TraceEvent::Signal => r matches Ok(sev) && sev is None && *final(self) == *old(self) && final(out)@ == old(out)@,
                TraceEvent::Stopped => final(self).inner.is_live() == old(self).inner.is_live() && (
                r matches Ok(sev) ==> sev is None && exists|pcv: u64|
                    final(out)@ == old(out)@ + #[trigger] hits_upto(
                        old(self).breakpoints.rows(),
                        pcv,
                        old(self).breakpoints.rows().len() as int,
                    )) && (r is Err ==> final(out)@ == old(out)@),
            },
    {
        match ev {
            TraceEvent::Exited(pid, code) => {
                push_exited(out, if pid >= 0 {
                    pid as u64
                } else {
                    0
                });
                Ok(Some(Event::ProcessExited))
            },
            TraceEvent::Stopped => {
                let pc2 = match self.inner.pc() {
                    Ok(pc2) => pc2,
                    Err(e) => {
                        return Err(e);
                    },
                };
                self.report_stop(pc2, out);
                Ok(None)
            },
            TraceEvent::Signal => Ok(None),
        }
    }

    /// Print the hit line of every breakpoint whose address equals the
    /// stopped program counter, in table order.
    fn report_stop(&self, pc2: u64, out: &mut String)
        ensures
            final(out)@ == old(out)@ + hits_upto(
                self.breakpoints.rows(),
                pc2,
                self.breakpoints.rows().len() as int,
            ),
    {
        let ghost out0 = out@;
        let n = self.breakpoints.len();
        let mut i: usize = 0;
        proof {
            assert(out0 + hits_upto(self.breakpoints.rows(), pc2, 0) =~= out0);
        }
        while i < n
            invariant
                i <= n,
                n == self.breakpoints.rows().len(),
                out@ == out0 + hits_upto(self.breakpoints.rows(), pc2, i as int),
            decreases n - i,
        {
            let ghost outpre = out@;
            let bp = self.breakpoints.bp_at(i);
            if bp.addr == pc2 {
                let id = self.breakpoints.id_at(i);
                push_breakpoint_hit(out, id, pc2);
                proof {
                    assert(out@ =~= out0 + (hits_upto(self.breakpoints.rows(), pc2, i as int)
                        + hit_msg(id, pc2)));
                }
            } else {
                proof {
                    assert(out@ =~= out0 + (hits_upto(self.breakpoints.rows(), pc2, i as int)
                        + Seq::<char>::empty()));
                }
            }
            i += 1;
        }
    }

    /// Step `n` instructions.  The breakpoint table is untouched; a plain
    /// completion means the tracee is still live, and an exit seen while
    /// stepping prints the inferior line and falls back to the loaded
    /// phase, as a continue does.
    fn stepi_command(&mut self, n: u64, out: &mut String) -> (r: Result<Step, ErrorKind>)
        requires
            old(self).breakpoints.wf(),
        ensures
            final(self).breakpoints == old(self).breakpoints,
            final(self).breakpoints.wf(),
            env_session_same(*old(self), *final(self)),
            (r matches Ok(Step::Done(Some(ev))) ==> ev matches Event::ProcessExited
                && !final(self).inner.is_live() && exists|p: u64|
                final(out)@ == old(out)@ + #[trigger] exited_msg(p)),
            (r matches Ok(Step::Done(ev)) && ev is None && n > 0) ==> final(self).inner.is_live(),
            (r matches Ok(Step::Done(ev)) && ev is None) ==> final(out)@ == old(out)@,
            r is Err ==> final(out)@ == old(out)@,
            !(r matches Ok(Step::Ask(q))),
    {
        let mut c: u64 = 0;
        while c < n
            invariant
                c <= n,
                self.breakpoints == old(self).breakpoints,
                self.breakpoints.wf(),
                env_session_same(*old(self), *self),
                out@ == old(out)@,
                c > 0 ==> self.inner.is_live(),
            decreases n - c,
        {
            match self.inner.step() {
                Ok(TraceEvent::Exited(pid, code)) => {
                    push_exited(out, if pid >= 0 {
                        pid as u64
                    } else {
                        0
                    });
                    return Ok(Step::Done(Some(Event::ProcessExited)));
                },
                Ok(ev) => {},
                Err(e) => {
                    return Err(e);
                },
            }
            c += 1;
        }
        Ok(Step::Done(None))
    }

    /// Delete the numbered breakpoints, lifting each first; with no
    /// numbers, ask before deleting them all.  Each number removes its
    /// row if one is left and prints `No breakpoint number N.` otherwise.
    fn delete_command(&mut self, args: Vec<u64>, out: &mut String) -> (r: Result<Step, ErrorKind>)
        requires
            old(self).breakpoints.wf(),
        ensures
            final(self).breakpoints.wf(),
            env_session_same(*old(self), *final(self)),
            final(self).breakpoints.next_id() == old(self).breakpoints.next_id(),
            !(r matches Ok(Step::Done(Some(ev)))),
            args@.len() == 0 ==> (r matches Ok(s) && s matches Step::Ask(
                Request::Confirm(q, Pending::DeleteAll),
            )) && *final(self) == *old(self) && final(out)@ == old(out)@,
            args@.len() > 0 ==> !(r matches Ok(Step::Ask(q))),
            (args@.len() > 0 && r is Ok) ==> final(self).breakpoints.rows() == delete_rows_spec(
                old(self).breakpoints.rows(),
                args@,
            ) && final(out)@ == old(out)@ + delete_msgs_spec(old(self).breakpoints.rows(), args@),
    {
        if args.len() == 0 {
            return Ok(
                Step::Ask(
                    Request::Confirm(
                        String::from_str("Delete all breakpoints?"),
                        Pending::DeleteAll,
                    ),
                ),
            );
        }
        let ghost rows0 = self.breakpoints.rows();
        let ghost out0 = out@;
        let mut k: usize = 0;
        let n = args.len();
        proof {
            assert(args@.take(0) =~= Seq::<u64>::empty());
            assert(out0 + delete_msgs_spec(rows0, args@.take(0)) =~= out0);
        }
        while k < n
            invariant
                k <= n,
                n == args@.len(),
                self.breakpoints.wf(),
                self.breakpoints.next_id() == old(self).breakpoints.next_id(),
                rows0 == old(self).breakpoints.rows(),
                self.breakpoints.rows() == delete_rows_spec(rows0, args@.take(k as int)),
                out@ == out0 + delete_msgs_spec(rows0, args@.take(k as int)),
                env_session_same(*old(self), *self),
            decreases n - k,
        {
            let num = args[k];
            let ghost pre = self.breakpoints.rows();
            proof {
                assert(args@.take(k + 1) =~= args@.take(k as int).push(num));
                lemma_delete_spec_push(rows0, args@.take(k as int), num);
            }
            match self.breakpoints.find(num) {
                Some(i) => {
                    proof {
                        assert(has_id(pre, num));
                        lemma_remove_first_at(pre, num, i as int);
                        assert(out0 + delete_msgs_spec(rows0, args@.take(k as int)) + Seq::<
                            char,
                        >::empty() =~= out0 + delete_msgs_spec(rows0, args@.take(k as int)));
                    }
                    let mut bp = self.breakpoints.remove_at(i);
                    match bp.disable(&mut self.inner) {
                        Ok(u) => {},
                        Err(e) => {
                            return Err(e);
                        },
                    }
                },
                None => {
                    proof {
                        assert(!has_id(pre, num)) by {
                            if has_id(pre, num) {
                                let w = choose|w: int|
                                    0 <= w < pre.len() && #[trigger] pre[w].0 == num;
                            }
                        }
                    }
                    push_no_breakpoint(out, num);
                    proof {
                        assert(out@ =~= out0 + (delete_msgs_spec(rows0, args@.take(k as int))
                            + no_breakpoint_msg(num)));
                    }
                },
            }
            k += 1;
        }
        proof {
            assert(args@.take(n as int) =~= args@);
        }
        Ok(Step::Done(None))
    }

    /// Lift every breakpoint and empty the table.
    pub fn delete_all_breakpoints(&mut self) -> (r: Result<(), ErrorKind>)
        requires
            old(self).breakpoints.wf(),
        ensures
            final(self).breakpoints.wf(),
            env_session_same(*old(self), *final(self)),
            final(self).breakpoints.next_id() == old(self).breakpoints.next_id(),
            r is Ok ==> final(self).breakpoints.rows().len() == 0,
    {
        while self.breakpoints.len() > 0
            invariant
                self.breakpoints.wf(),
                env_session_same(*old(self), *self),
                self.breakpoints.next_id() == old(self).breakpoints.next_id(),
            decreases self.breakpoints.rows().len(),
        {
            let mut bp = self.breakpoints.remove_at(0);
            match bp.disable(&mut self.inner) {
                Ok(u) => {},
                Err(e) => {
                    return Err(e);
                },
            }
        }
        Ok(())
    }

    /// Lift the numbered breakpoints; unknown numbers print `No
    /// breakpoint number N.`.  Numbers, addresses and saved bytes stay;
    /// on success the listed rows are lifted and the rest untouched.
    fn disable_command(&mut self, args: Vec<u64>, out: &mut String) -> (r: Result<Step, ErrorKind>)
        requires
            old(self).breakpoints.wf(),
        ensures
            final(self).breakpoints.wf(),
            env_session_same(*old(self), *final(self)),
            final(self).breakpoints.next_id() == old(self).breakpoints.next_id(),
            same_numbers(old(self).breakpoints.rows(), final(self).breakpoints.rows()),
            !(r matches Ok(Step::Done(Some(ev)))),
            !(r matches Ok(Step::Ask(q))),
            r is Ok ==> marked_rows(
                old(self).breakpoints.rows(),
                final(self).breakpoints.rows(),
                args@,
                false,
            ) && final(out)@ == old(out)@ + absent_msgs_spec(old(self).breakpoints.rows(), args@),
    {
        let ghost rows0 = self.breakpoints.rows();
        let ghost out0 = out@;
        let mut k: usize = 0;
        let n = args.len();
        proof {
            assert(args@.take(0) =~= Seq::<u64>::empty());
            assert(out0 + absent_msgs_spec(rows0, args@.take(0)) =~= out0);
        }
        while k < n
            invariant
                k <= n,
                n == args@.len(),
                self.breakpoints.wf(),
                self.breakpoints.next_id() == old(self).breakpoints.next_id(),
                rows0 == old(self).breakpoints.rows(),
                marked_rows(rows0, self.breakpoints.rows(), args@.take(k as int), false),
                out@ == out0 + absent_msgs_spec(rows0, args@.take(k as int)),
                env_session_same(*old(self), *self),
            decreases n - k,
        {
            let num = args[k];
            let ghost pre = self.breakpoints.rows();
            proof {
                assert(args@.take(k + 1) =~= args@.take(k as int).push(num));
                lemma_absent_msgs_push(rows0, args@.take(k as int), num);
                lemma_has_id_same(rows0, pre, num);
            }
            match self.breakpoints.find(num) {
                Some(i) => {
                    proof {
                        assert(has_id(pre, num));
                        assert(out@ =~= out0 + (absent_msgs_spec(rows0, args@.take(k as int))
                            + Seq::<char>::empty()));
                    }
                    let mut bp = self.breakpoints.bp_at(i);
                    match bp.disable(&mut self.inner) {
                        Ok(u) => {
                            self.breakpoints.set_bp_at(i, bp);
                            proof {
                                assert(bp == (Breakpoint { enabled: false, ..pre[i as int].1 }));
                                lemma_mark_step(
                                    rows0,
                                    pre,
                                    self.breakpoints.rows(),
                                    args@.take(k as int),
                                    num,
                                    i as int,
                                    false,
                                );
                            }
                        },
                        Err(e) => {
                            return Err(e);
                        },
                    }
                },
                None => {
                    proof {
                        assert(!has_id(pre, num)) by {
                            if has_id(pre, num) {
                                let w = choose|w: int|
                                    0 <= w < pre.len() && #[trigger] pre[w].0 == num;
                            }
                        }
                        lemma_mark_skip(rows0, pre, args@.take(k as int), num, false);
                    }
                    push_no_breakpoint(out, num);
                    proof {
                        assert(out@ =~= out0 + (absent_msgs_spec(rows0, args@.take(k as int))
                            + no_breakpoint_msg(num)));
                    }
                },
            }
            k += 1;
        }
        proof {
            assert(args@.take(n as int) =~= args@);
        }
        Ok(Step::Done(None))
    }

    /// Plant the numbered breakpoints; unknown numbers print `No
    /// breakpoint number N.`.  Numbers and addresses stay; on success the
    /// listed rows are planted with a saved byte and the rest untouched.
    fn enable_command(&mut self, args: Vec<u64>, out: &mut String) -> (r: Result<Step, ErrorKind>)
        requires
            old(self).breakpoints.wf(),
        ensures
            final(self).breakpoints.wf(),
            env_session_same(*old(self), *final(self)),
            final(self).breakpoints.next_id() == old(self).breakpoints.next_id(),
            same_numbers(old(self).breakpoints.rows(), final(self).breakpoints.rows()),
            !(r matches Ok(Step::Done(Some(ev)))),
            !(r matches Ok(Step::Ask(q))),
            r is Ok ==> planted_rows(
                old(self).breakpoints.rows(),
                final(self).breakpoints.rows(),
                args@,
            ) && final(out)@ == old(out)@ + absent_msgs_spec(old(self).breakpoints.rows(), args@),
    {
        let ghost rows0 = self.breakpoints.rows();
        let ghost out0 = out@;
        let mut k: usize = 0;
        let n = args.len();
        proof {
            assert(args@.take(0) =~= Seq::<u64>::empty());
            assert(out0 + absent_msgs_spec(rows0, args@.take(0)) =~= out0);
        }
        while k < n
            invariant
                k <= n,
                n == args@.len(),
                self.breakpoints.wf(),
                self.breakpoints.next_id() == old(self).breakpoints.next_id(),
                rows0 == old(self).breakpoints.rows(),
                planted_rows(rows0, self.breakpoints.rows(), args@.take(k as int)),
                out@ == out0 + absent_msgs_spec(rows0, args@.take(k as int)),
                env_session_same(*old(self), *self),
            decreases n - k,
        {
            let num = args[k];
            let ghost pre = self.breakpoints.rows();
            proof {
                assert(args@.take(k + 1) =~= args@.take(k as int).push(num));
                lemma_absent_msgs_push(rows0, args@.take(k as int), num);
                lemma_has_id_same(rows0, pre, num);
            }
            match self.breakpoints.find(num) {
                Some(i) => {
                    proof {
                        assert(has_id(pre, num));
                        assert(out@ =~= out0 + (absent_msgs_spec(rows0, args@.take(k as int))
                            + Seq::<char>::empty()));
                    }
                    let mut bp = self.breakpoints.bp_at(i);
                    match bp.enable(&mut self.inner) {
                        Ok(u) => {
                            self.breakpoints.set_bp_at(i, bp);
                            proof {
                                lemma_plant_step(
                                    rows0,
                                    pre,
                                    self.breakpoints.rows(),
                                    args@.take(k as int),
                                    num,
                                    i as int,
                                    bp,
                                );
                            }
                        },
                        Err(e) => {
                            return Err(e);
                        },
                    }
                },
                None => {
                    proof {
                        assert(!has_id(pre, num)) by {
                            if has_id(pre, num) {
                                let w = choose|w: int|
                                    0 <= w < pre.len() && #[trigger] pre[w].0 == num;
                            }
                        }
                        lemma_plant_skip(rows0, pre, args@.take(k as int), num);
                    }
                    push_no_breakpoint(out, num);
                    proof {
                        assert(out@ =~= out0 + (absent_msgs_spec(rows0, args@.take(k as int))
                            + no_breakpoint_msg(num)));
                    }
                },
            }
            k += 1;
        }
        proof {
            assert(args@.take(n as int) =~= args@);
        }
        Ok(Step::Done(None))
    }

    /// Plant every breakpoint of the table against the live tracee, as
    /// after a fresh run; a breakpoint that cannot be planted reports its
    /// error and stays as it was.  Numbers and addresses survive, and each
    /// row ends planted with a saved byte or untouched.
    pub fn enable_all_breakpoints(&mut self, out: &mut String)
        requires
            old(self).breakpoints.wf(),
        ensures
            final(self).breakpoints.wf(),
            same_numbers(old(self).breakpoints.rows(), final(self).breakpoints.rows()),
            final(self).breakpoints.next_id() == old(self).breakpoints.next_id(),
            env_session_same(*old(self), *final(self)),
            forall|i: int|
                0 <= i < old(self).breakpoints.rows().len() ==> ((
                #[trigger] final(self).breakpoints.rows()[i]).1.enabled
                    && final(self).breakpoints.rows()[i].1.saved is Some)
                    || final(self).breakpoints.rows()[i].1 == old(self).breakpoints.rows()[i].1,
    {
        let ghost rows0 = self.breakpoints.rows();
        let mut i: usize = 0;
        while i < self.breakpoints.len()
            invariant
                i <= rows0.len(),
                self.breakpoints.wf(),
                rows0 == old(self).breakpoints.rows(),
                same_numbers(rows0, self.breakpoints.rows()),
                self.breakpoints.next_id() == old(self).breakpoints.next_id(),
                env_session_same(*old(self), *self),
                forall|j: int|
                    0 <= j < i ==> ((#[trigger] self.breakpoints.rows()[j]).1.enabled
                        && self.breakpoints.rows()[j].1.saved is Some)
                        || self.breakpoints.rows()[j].1 == rows0[j].1,
                forall|j: int|
                    i <= j < rows0.len() ==> (#[trigger] self.breakpoints.rows()[j]).1
                        == rows0[j].1,
            decreases self.breakpoints.rows().len() - i,
        {
            let ghost pre = self.breakpoints.rows();
            let mut bp = self.breakpoints.bp_at(i);
            match bp.enable(&mut self.inner) {
                Ok(u) => {
                    self.breakpoints.set_bp_at(i, bp);
                    proof {
                        lemma_same_numbers_update(rows0, pre, self.breakpoints.rows(), i as int, bp);
                        assert forall|j: int|
                            0 <= j < i + 1 implies ((#[trigger] self.breakpoints.rows()[j]).1.enabled
                            && self.breakpoints.rows()[j].1.saved is Some)
                            || self.breakpoints.rows()[j].1 == rows0[j].1 by {
                            if j < i {
                                assert(self.breakpoints.rows()[j] == pre[j]);
                            }
                        }
                    }
                },
                Err(e) => {
                    let msg = e.message();
                    push_line(out, msg.as_str());
                },
            }
            i += 1;
        }
    }

    /// Examine memory: overlay the format patch, take the address if one
    /// was given, and dump `repeat` values of `size` bytes from the last
    /// address, advancing it past what was shown.
    fn examine_command(&mut self, fmtp: Option<Fmt>, addrp: Option<u64>, out: &mut String) -> (r:
        Result<Step, ErrorKind>)
        requires
            old(self).breakpoints.wf(),
        ensures
            final(self).breakpoints.wf(),
            !(r matches Ok(Step::Done(Some(ev)))),
            !(r matches Ok(Step::Ask(q))),
            final(self).last_fmt == (match fmtp {
                Some(f) => spec_overlay(old(self).last_fmt, f),
                None => old(self).last_fmt,
            }),
            (r == Err::<Step, ErrorKind>(ErrorKind::ArgumentRequired)) <==> (addrp is None && old(self).last_addr is None),
            final(self).inner == old(self).inner,
            final(self).breakpoints == old(self).breakpoints,
            final(self).config == old(self).config,
            ({
                let f = match fmtp {
                    Some(p) => spec_overlay(old(self).last_fmt, p),
                    None => old(self).last_fmt,
                };
                let a0 = match addrp {
                    Some(a) => Some(a),
                    None => old(self).last_addr,
                };
                let repeat = match f.repeat {
                    Some(rp) => rp,
                    None => 1u64,
                };
                let width = crate::fmt::spec_size_width(
                    match f.size {
                        Some(s) => s,
                        None => 'w',
                    },
                );
                r is Ok ==> a0 is Some && final(out)@ == old(out)@ + crate::examine::dump_upto(
                    old(self).inner.mem_of(),
                    a0->Some_0 as int,
                    repeat as int,
                    repeat as int,
                    width as int,
                    8int / width as int,
                ) && final(self).last_addr == Some((a0->Some_0 + repeat * width) as u64)
            }),
    {
        if let Some(f) = fmtp {
            self.set_fmt(f);
        }
        if let Some(a) = addrp {
            self.set_addr(a);
        }
        let addr0 = match self.last_addr {
            Some(a) => a,
            None => {
                return Err(ErrorKind::ArgumentRequired);
            },
        };
        let fmt = self.fmt();
        let repeat = match fmt.repeat {
            Some(rp) => rp,
            None => 1,
        };
        let size = match fmt.size {
            Some(s) => s,
            None => 'w',
        };
        let width = size_width(size);
        let cols = 8 / width;
        match dump_memory(&self.inner, addr0, repeat, width, cols, out) {
            Ok(u) => {},
            Err(e) => {
                return Err(e);
            },
        }
        self.set_addr(addr0 + repeat * width);
        Ok(Step::Done(None))
    }

    /// Show things about the running process.
    fn info_command(&mut self, cmd: Info, out: &mut String) -> (r: Result<Step, ErrorKind>)
        requires
            old(self).breakpoints.wf(),
        ensures
            final(self).breakpoints.wf(),
            *final(self) == *old(self),
            !(r matches Ok(Step::Done(Some(ev)))),
            match cmd {
                Info::Breakpoints { args } => (r matches Ok(s) && s matches Step::Done(ev)
                    && ev is None) && final(out)@ == old(out)@ + listing_upto(
                    old(self).breakpoints.rows(),
                    old(self).breakpoints.rows().len() as int,
                ),
                Info::Registers { names } => (r is Ok ==> (r matches Ok(s) && s matches
                    Step::Done(ev) && ev is None) && exists|pc: u64|
                    final(out)@ == old(out)@ + #[trigger] registers_msg(pc)) && (r is Err
                    ==> final(out)@ == old(out)@),
                Info::Proc { cmd: p } => final(out)@ == old(out)@ && if old(self).inner.is_live() {
                    r matches Ok(s) && s matches Step::Ask(Request::ShowMaps(pid))
                } else {
                    r == Err::<Step, ErrorKind>(ErrorKind::NotRunning)
                },
            },
    {
        match cmd {
            Info::Proc { cmd: Proc::Mappings } => {
                match self.inner.pid() {
                    Some(pid) => Ok(Step::Ask(Request::ShowMaps(pid))),
                    None => Err(ErrorKind::NotRunning),
                }
            },
            Info::Breakpoints { args } => {
                self.info_breakpoints(out);
                Ok(Step::Done(None))
            },
            Info::Registers { names } => {
                let pc = match self.inner.pc() {
                    Ok(pc) => pc,
                    Err(e) => {
                        return Err(e);
                    },
                };
                push_registers(out, pc);
                Ok(Step::Done(None))
            },
        }
    }

    /// List the breakpoints, one header and row per entry, in insertion
    /// order.
    fn info_breakpoints(&self, out: &mut String)
        ensures
            final(out)@ == old(out)@ + listing_upto(
                self.breakpoints.rows(),
                self.breakpoints.rows().len() as int,
            ),
    {
        let ghost out0 = out@;
        let n = self.breakpoints.len();
        let mut i: usize = 0;
        proof {
            assert(out0 + listing_upto(self.breakpoints.rows(), 0) =~= out0);
        }
        while i < n
            invariant
                i <= n,
                n == self.breakpoints.rows().len(),
                out@ == out0 + listing_upto(self.breakpoints.rows(), i as int),
            decreases n - i,
        {
            let id = self.breakpoints.id_at(i);
            let bp = self.breakpoints.bp_at(i);
            push_line(out, "Num        Type             Disp Enb  Address              What");
            let num = pad_right(u64_to_radix(id, 10), 10);
            out.append(num.as_str());
            out.append(" breakpoint       keep ");
            if bp.enabled {
                out.append("y   ");
            } else {
                out.append("n   ");
            }
            out.append("0x");
            let h = u64_to_hex_pad(bp.addr, 18);
            out.append(h.as_str());
            out.append(" \n");
            proof {
                assert(out@ =~= out0 + (listing_upto(self.breakpoints.rows(), i as int)
                    + bp_row_msg(id, bp)));
            }
            i += 1;
        }
    }
}

} // verus!
