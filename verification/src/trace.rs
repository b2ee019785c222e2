//! One traced child process: the ptrace calls it is driven by, and the
//! word-granular memory reads and writes built on them.
use vstd::prelude::*;

use crate::error::ErrorKind;
use crate::mem::{bytes_at, lemma_store_bytes_concat, store_bytes};

verus! {

/// The signal number of SIGTRAP, the trap a stopped tracee reports.
pub const SIGTRAP_NO: i32 = 5;

/// The int3 opcode, written over the first byte of an instruction to plant
/// a software breakpoint.
pub const INT3: u8 = 0xCC;

/// An event of the debugged process, as the debugger's callers see it.
#[derive(Debug, Clone, Copy, PartialEq, Eq)]
pub enum Event {
    /// The process exited: its pid and its exit code.
    Exited(i32, i32),
    /// The process stopped under the debugger's control.
    Stopped,
    /// The process was terminated by a signal.
    Signal,
}

/// The shape of a wait status, with the outside types flattened to plain
/// values: pid and exit code, or signal numbers.
#[derive(Debug, Clone, Copy, PartialEq, Eq)]
pub enum WaitKind {
    Exited(i32, i32),
    Signaled(i32),
    Stopped(i32),
    Other,
}

/// One traced child process.
///
/// The ghost map stands for the bytes of the tracee's address space while
/// the tracee is stopped: a successful peek returns them and a successful
/// poke changes them.  The ghost counter likewise stands for the stopped
/// tracee's program counter: reads sample it, the write sets it.  Letting
/// the tracee run (continuing, stepping, waiting) leaves both
/// unconstrained again, since the tracee changes them itself.
pub struct Tracee {
    /// The child's process id, while one is alive.
    pub pid: Option<i32>,
    /// The last wait status seen, in flattened shape.
    pub status: Option<WaitKind>,
    /// The model of the stopped tracee's memory.
    pub mem: Ghost<Map<int, u8>>,
    /// The model of the stopped tracee's program counter.
    pub pc: Ghost<u64>,
}

/// The trap discipline after a SIGTRAP stop: either the program counter
/// sits on a planted int3 (the stop was attributed to a software
/// breakpoint and the counter stepped back onto the patched address), or
/// the byte before it is no int3 and nothing was adjusted.
pub open spec fn trap_pc_adjusted(t: Tracee) -> bool {
    ||| t.pc@ == 0
    ||| bytes_at(t.mem@, t.pc@ as int, seq![INT3])
    ||| !bytes_at(t.mem@, t.pc@ as int - 1, seq![INT3])
}

impl Tracee {
    /// Take charge of a freshly forked child.  Only the pid is stated:
    /// callers learn nothing of the new tracee's memory until they read
    /// it.
    pub fn new(pid: i32) -> (t: Tracee)
        ensures
            t.pid == Some(pid),
            t.status is None,
    {
        Tracee { pid: Some(pid), status: None, mem: Ghost(arbitrary()), pc: Ghost(arbitrary()) }
    }

    /// Relies on nix's `ptrace::read` (PTRACE_PEEKDATA): it returns the
    /// machine word of the stopped tracee at the given address, or fails.
    /// The word is little-endian on x86-64, so its bytes are the eight
    /// bytes of memory in address order.
    #[verifier::external_body]
    fn peek_word(&self, vaddr: u64) -> (r: Result<Vec<u8>, ErrorKind>)
        requires
            self.pid is Some,
        ensures
            match r {
                Ok(w) => w@.len() == 8 && bytes_at(self.mem@, vaddr as int, w@),
                Err(e) => e == ErrorKind::Read(vaddr),
            },
    {
        let pid = nix::unistd::Pid::from_raw(self.pid.unwrap());
        match nix::sys::ptrace::read(pid, vaddr as nix::sys::ptrace::AddressType) {
            Ok(word) => Ok(word.to_le_bytes().to_vec()),
            Err(_) => Err(ErrorKind::Read(vaddr)),
        }
    }

    /// Relies on nix's `ptrace::write` (PTRACE_POKEDATA): it overwrites the
    /// machine word of the stopped tracee at the given address, or fails
    /// without writing.
    #[verifier::external_body]
    fn poke_word(&mut self, vaddr: u64, word: &Vec<u8>) -> (r: Result<(), ErrorKind>)
        requires
            old(self).pid is Some,
            word@.len() == 8,
        ensures
            final(self).pid == old(self).pid,
            final(self).status == old(self).status,
            final(self).pc == old(self).pc,
            match r {
                Ok(u) => final(self).mem@ == store_bytes(old(self).mem@, vaddr as int, word@),
                Err(e) => e == ErrorKind::Write(vaddr) && final(self).mem@ == old(self).mem@,
            },
    {
        let pid = nix::unistd::Pid::from_raw(self.pid.unwrap());
        let mut arr = [0u8; 8];
        arr.copy_from_slice(&word[0..8]);
        let data = i64::from_le_bytes(arr);
        match nix::sys::ptrace::write(pid, vaddr as nix::sys::ptrace::AddressType, data) {
            Ok(u) => Ok(u),
            Err(_) => Err(ErrorKind::Write(vaddr)),
        }
    }

    /// Relies on nix's `waitpid`: it blocks until the child changes state
    /// and reports how.  The child may have run meanwhile, so nothing is
    /// carried over about its memory.
    #[verifier::external_body]
    fn wait_status(&mut self) -> (r: Result<WaitKind, ErrorKind>)
        requires
            old(self).pid is Some,
        ensures
            final(self).pid == old(self).pid,
    {
        let pid = nix::unistd::Pid::from_raw(self.pid.unwrap());
        match nix::sys::wait::waitpid(pid, None) {
            Ok(nix::sys::wait::WaitStatus::Exited(p, code)) => Ok(
                WaitKind::Exited(p.as_raw(), code),
            ),
            Ok(nix::sys::wait::WaitStatus::Signaled(_, sig, _)) => Ok(
                WaitKind::Signaled(sig as i32),
            ),
            Ok(nix::sys::wait::WaitStatus::Stopped(_, sig)) => Ok(WaitKind::Stopped(sig as i32)),
            Ok(_) => Ok(WaitKind::Other),
            Err(_) => Err(ErrorKind::ProcessEvent),
        }
    }

    /// Relies on nix's `ptrace::cont` (PTRACE_CONT): it sets the stopped
    /// tracee running, delivering no signal.  The tracee then runs, so
    /// nothing is carried over about its memory.
    #[verifier::external_body]
    fn resume(&mut self) -> (r: Result<(), ErrorKind>)
        requires
            old(self).pid is Some,
        ensures
            final(self).pid == old(self).pid,
            final(self).status == old(self).status,
    {
        let pid = nix::unistd::Pid::from_raw(self.pid.unwrap());
        match nix::sys::ptrace::cont(pid, None) {
            Ok(u) => Ok(u),
            Err(_) => Err(ErrorKind::ProcessEvent),
        }
    }

    /// Relies on nix's `ptrace::step` (PTRACE_SINGLESTEP): it lets the
    /// stopped tracee execute one instruction, delivering no signal.  The
    /// tracee runs that instruction, so nothing is carried over about its
    /// memory.
    #[verifier::external_body]
    fn singlestep(&mut self) -> (r: Result<(), ErrorKind>)
        requires
            old(self).pid is Some,
        ensures
            final(self).pid == old(self).pid,
            final(self).status == old(self).status,
    {
        let pid = nix::unistd::Pid::from_raw(self.pid.unwrap());
        match nix::sys::ptrace::step(pid, None) {
            Ok(u) => Ok(u),
            Err(_) => Err(ErrorKind::ProcessEvent),
        }
    }

    /// Relies on nix's `ptrace::getregs`: it returns the stopped tracee's
    /// general-purpose registers; `rip` among them is the program counter,
    /// which the ghost counter models while the tracee is stopped.
    #[verifier::external_body]
    fn read_pc_raw(&self) -> (r: Result<u64, ErrorKind>)
        requires
            self.pid is Some,
        ensures
            r matches Ok(v) ==> v == self.pc@,
            r matches Err(e) ==> e == ErrorKind::ProcessEvent,
    {
        let pid = nix::unistd::Pid::from_raw(self.pid.unwrap());
        match nix::sys::ptrace::getregs(pid) {
            Ok(regs) => Ok(regs.rip),
            Err(_) => Err(ErrorKind::ProcessEvent),
        }
    }

    /// Relies on nix's `ptrace::getregs` and `ptrace::setregs`: reads the
    /// stopped tracee's register set, changes `rip` alone, and writes the
    /// set back, moving the modeled program counter to the given value;
    /// on failure the registers are left as they were.
    #[verifier::external_body]
    fn write_pc_raw(&mut self, pc: u64) -> (r: Result<(), ErrorKind>)
        requires
            old(self).pid is Some,
        ensures
            final(self).pid == old(self).pid,
            final(self).status == old(self).status,
            final(self).mem == old(self).mem,
            r is Ok ==> final(self).pc@ == pc,
            r matches Err(e) ==> e == ErrorKind::ProcessEvent && final(self).pc == old(self).pc,
    {
        let pid = nix::unistd::Pid::from_raw(self.pid.unwrap());
        match nix::sys::ptrace::getregs(pid) {
            Ok(mut regs) => {
                regs.rip = pc;
                match nix::sys::ptrace::setregs(pid, regs) {
                    Ok(u) => Ok(u),
                    Err(_) => Err(ErrorKind::ProcessEvent),
                }
            },
            Err(_) => Err(ErrorKind::ProcessEvent),
        }
    }

    /// Relies on nix's `ptrace::setoptions`: PTRACE_SETOPTIONS replaces
    /// the whole option mask, so the two options the debugger needs are
    /// set together in one call — PTRACE_O_EXITKILL (the kernel kills the
    /// tracee when this process exits) and PTRACE_O_TRACECLONE (the
    /// tracee stops on its next clone).
    #[verifier::external_body]
    fn set_trace_options(&mut self) -> (r: Result<(), ErrorKind>)
        requires
            old(self).pid is Some,
        ensures
            *final(self) == *old(self),
    {
        let pid = nix::unistd::Pid::from_raw(self.pid.unwrap());
        let opts = nix::sys::ptrace::Options::PTRACE_O_EXITKILL
            | nix::sys::ptrace::Options::PTRACE_O_TRACECLONE;
        match nix::sys::ptrace::setoptions(pid, opts) {
            Ok(u) => Ok(u),
            Err(_) => Err(ErrorKind::ProcessEvent),
        }
    }

    /// Relies on nix's `ptrace::getevent`: it returns the pending ptrace
    /// event message of the stopped tracee.
    #[verifier::external_body]
    fn get_event_raw(&self) -> (r: Result<i64, ErrorKind>)
        requires
            self.pid is Some,
    {
        let pid = nix::unistd::Pid::from_raw(self.pid.unwrap());
        match nix::sys::ptrace::getevent(pid) {
            Ok(ev) => Ok(ev),
            Err(_) => Err(ErrorKind::ProcessEvent),
        }
    }

    /// Relies on nix's `ptrace::kill`: it sends SIGKILL to the traced
    /// child.
    #[verifier::external_body]
    fn send_kill(&mut self) -> (r: Result<(), ErrorKind>)
        requires
            old(self).pid is Some,
        ensures
            *final(self) == *old(self),
    {
        let pid = nix::unistd::Pid::from_raw(self.pid.unwrap());
        match nix::sys::ptrace::kill(pid) {
            Ok(u) => Ok(u),
            Err(_) => Err(ErrorKind::ProcessEvent),
        }
    }

    /// Read the program counter of the stopped tracee.
    pub fn pc(&self) -> (r: Result<u64, ErrorKind>)
        requires
            self.pid is Some,
        ensures
            r matches Ok(v) ==> v == self.pc@,
    {
        self.read_pc_raw()
    }

    /// After a fresh fork-and-exec under tracing: consume the initial
    /// exec stop, then ask the kernel to kill the tracee when this process
    /// exits and to stop it on a clone.
    pub fn finish_launch(&mut self) -> (r: Result<(), ErrorKind>)
        requires
            old(self).pid is Some,
        ensures
            final(self).pid == old(self).pid,
    {
        match self.wait_status() {
            Ok(st) => st,
            Err(e) => {
                return Err(e);
            },
        };
        match self.set_trace_options() {
            Ok(u) => u,
            Err(e) => {
                return Err(e);
            },
        };
        match self.get_event_raw() {
            Ok(ev) => ev,
            Err(e) => {
                return Err(e);
            },
        };
        Ok(())
    }

    /// Kill the tracee and reap it, if one is alive.
    pub fn kill(&mut self)
        ensures
            final(self).pid is None,
    {
        if self.pid.is_some() {
            match self.send_kill() {
                Ok(u) => {
                    match self.wait_status() {
                        Ok(st) => {},
                        Err(e) => {},
                    };
                },
                Err(e) => {},
            };
            self.pid = None;
        }
    }

    /// Classify a flattened wait status, record it, and adjust the
    /// program counter for a software-breakpoint trap: an exit clears the
    /// pid; a SIGTRAP stop whose instruction byte before the program
    /// counter is int3 has the counter stepped back onto the patched
    /// address; any other status is an unexpected process event.
    fn classify_wait(&mut self, st: WaitKind) -> (r: Result<Event, ErrorKind>)
        requires
            old(self).pid is Some,
        ensures
            final(self).status == Some(st),
            final(self).mem == old(self).mem,
            match st {
                WaitKind::Exited(p, c) => r == Ok::<Event, ErrorKind>(Event::Exited(p, c))
                    && final(self).pid is None,
                WaitKind::Signaled(sig) => r == Ok::<Event, ErrorKind>(Event::Signal)
                    && final(self).pid == old(self).pid,
                WaitKind::Stopped(sig) => final(self).pid == old(self).pid && if sig == SIGTRAP_NO {
                    (r is Ok ==> r == Ok::<Event, ErrorKind>(Event::Stopped) && trap_pc_adjusted(
                        *final(self),
                    )) && (r is Err ==> r->Err_0 matches ErrorKind::Read(a) || r->Err_0
                        == ErrorKind::ProcessEvent)
                } else {
                    r == Err::<Event, ErrorKind>(ErrorKind::ProcessEvent)
                },
                WaitKind::Other => r == Err::<Event, ErrorKind>(ErrorKind::ProcessEvent)
                    && final(self).pid == old(self).pid,
            },
    {
        self.status = Some(st);
        match st {
            WaitKind::Exited(p, code) => {
                self.pid = None;
                Ok(Event::Exited(p, code))
            },
            WaitKind::Signaled(sig) => Ok(Event::Signal),
            WaitKind::Stopped(sig) => {
                if sig == SIGTRAP_NO {
                    let pc = match self.read_pc_raw() {
                        Ok(pc) => pc,
                        Err(e) => {
                            return Err(e);
                        },
                    };
                    if pc >= 1 {
                        let word = match self.peek_word(pc - 1) {
                            Ok(w) => w,
                            Err(e) => {
                                return Err(e);
                            },
                        };
                        proof {
                            crate::mem::lemma_bytes_at_index(self.mem@, pc as int - 1, word@, 0);
                        }
                        if word[0] == INT3 {
                            match self.write_pc_raw(pc - 1) {
                                Ok(u) => u,
                                Err(e) => {
                                    return Err(e);
                                },
                            };
                            proof {
                                assert(seq![INT3][0] == INT3);
                                assert(self.pc@ as int == pc as int - 1);
                                assert(self.mem@.dom().contains(self.pc@ as int));
                                assert(self.mem@[self.pc@ as int] == INT3);
                                assert(seq![INT3].drop_first() =~= Seq::<u8>::empty());
                                assert(bytes_at(self.mem@, self.pc@ as int + 1, Seq::<u8>::empty()));
                                assert(bytes_at(self.mem@, self.pc@ as int, seq![INT3]));
                            }
                        } else {
                            proof {
                                assert(!bytes_at(self.mem@, self.pc@ as int - 1, seq![INT3])) by {
                                    if bytes_at(self.mem@, self.pc@ as int - 1, seq![INT3]) {
                                        crate::mem::lemma_bytes_at_index(
                                            self.mem@,
                                            self.pc@ as int - 1,
                                            seq![INT3],
                                            0,
                                        );
                                    }
                                }
                            }
                        }
                    }
                    Ok(Event::Stopped)
                } else {
                    Err(ErrorKind::ProcessEvent)
                }
            },
            WaitKind::Other => Err(ErrorKind::ProcessEvent),
        }
    }

    /// Wait for the next state change of the tracee and classify it.  A
    /// stop leaves the program counter stepped back onto a patched
    /// instruction when the trap was a software breakpoint's.
    pub fn wait(&mut self) -> (r: Result<Event, ErrorKind>)
        requires
            old(self).pid is Some,
        ensures
            match r {
                Ok(ev) => if ev matches Event::Exited(p, c) {
                    final(self).pid is None
                } else {
                    final(self).pid == old(self).pid
                },
                Err(e) => final(self).pid == old(self).pid,
            },
            r == Ok::<Event, ErrorKind>(Event::Stopped) ==> trap_pc_adjusted(*final(self)),
    {
        let st = match self.wait_status() {
            Ok(st) => st,
            Err(e) => {
                return Err(e);
            },
        };
        self.classify_wait(st)
    }

    /// Continue the tracee and wait for what it does next.
    pub fn cont(&mut self) -> (r: Result<Event, ErrorKind>)
        requires
            old(self).pid is Some,
        ensures
            match r {
                Ok(ev) => if ev matches Event::Exited(p, c) {
                    final(self).pid is None
                } else {
                    final(self).pid == old(self).pid
                },
                Err(e) => final(self).pid == old(self).pid,
            },
            r == Ok::<Event, ErrorKind>(Event::Stopped) ==> trap_pc_adjusted(*final(self)),
    {
        match self.resume() {
            Ok(u) => u,
            Err(e) => {
                return Err(e);
            },
        };
        self.wait()
    }

    /// Step the tracee one instruction and wait for what it does next.
    pub fn step(&mut self) -> (r: Result<Event, ErrorKind>)
        requires
            old(self).pid is Some,
        ensures
            match r {
                Ok(ev) => if ev matches Event::Exited(p, c) {
                    final(self).pid is None
                } else {
                    final(self).pid == old(self).pid
                },
                Err(e) => final(self).pid == old(self).pid,
            },
            r == Ok::<Event, ErrorKind>(Event::Stopped) ==> trap_pc_adjusted(*final(self)),
    {
        match self.singlestep() {
            Ok(u) => u,
            Err(e) => {
                return Err(e);
            },
        };
        self.wait()
    }

    /// Read `n` bytes of the stopped tracee's memory at `vaddr`, fetching
    /// machine words until enough bytes have accumulated and truncating
    /// the last word.
    pub fn read_mem(&self, vaddr: u64, n: usize) -> (r: Result<Vec<u8>, ErrorKind>)
        requires
            self.pid is Some,
        ensures
            match r {
                Ok(v) => v@.len() == n && bytes_at(self.mem@, vaddr as int, v@),
                Err(e) => e matches ErrorKind::Read(a),
            },
    {
        let mut data: Vec<u8> = Vec::new();
        while data.len() < n
            invariant
                self.pid is Some,
                bytes_at(self.mem@, vaddr as int, data@),
                data@.len() <= n + 8,
            decreases n + 8 - data@.len(),
        {
            let cur = match vaddr.checked_add(data.len() as u64) {
                Some(cur) => cur,
                None => {
                    return Err(ErrorKind::Read(vaddr));
                },
            };
            let word = match self.peek_word(cur) {
                Ok(w) => w,
                Err(e) => {
                    return Err(e);
                },
            };
            let ghost dstart = data@.len();
            let mut k: usize = 0;
            while k < 8
                invariant
                    k <= 8,
                    word@.len() == 8,
                    dstart < n,
                    data@.len() == dstart + k,
                    cur == vaddr + dstart,
                    bytes_at(self.mem@, cur as int, word@),
                    bytes_at(self.mem@, vaddr as int, data@),
                decreases 8 - k,
            {
                let b = word[k];
                let ghost dpre = data@;
                data.push(b);
                proof {
                    crate::mem::lemma_bytes_at_index(self.mem@, cur as int, word@, k as int);
                    assert((vaddr as int) + dpre.len() == (cur as int) + (k as int));
                    crate::mem::lemma_bytes_at_snoc(self.mem@, vaddr as int, dpre, b);
                    assert(data@ == dpre.push(b));
                }
                k += 1;
            }
        }
        let ghost whole = data@;
        data.truncate(n);
        proof {
            crate::mem::lemma_bytes_at_prefix(self.mem@, vaddr as int, whole, n as int);
            assert(data@ == whole.subrange(0, n as int));
        }
        Ok(data)
    }

    /// Write `data` over the stopped tracee's memory at `vaddr`: aligned
    /// words first, then a trailing partial word by reading the word at
    /// the tail, overlaying the remaining bytes, and writing it back, so
    /// that nothing outside the written range changes.
    pub fn write_mem(&mut self, vaddr: u64, data: &Vec<u8>) -> (r: Result<usize, ErrorKind>)
        requires
            old(self).pid is Some,
        ensures
            final(self).pid == old(self).pid,
            match r {
                Ok(nw) => nw == data@.len() && final(self).mem@ == store_bytes(
                    old(self).mem@,
                    vaddr as int,
                    data@,
                ),
                Err(e) => (e matches ErrorKind::Read(a) || e matches ErrorKind::Write(a)) && exists|
                    k: int,
                |
                    0 <= k <= data@.len() && k % 8 == 0 && final(self).mem@ == store_bytes(
                        old(self).mem@,
                        vaddr as int,
                        #[trigger] data@.subrange(0, k),
                    ),
            },
    {
        let len = data.len();
        let mut off: usize = 0;
        proof {
            assert(data@.subrange(0, 0) =~= Seq::<u8>::empty());
            crate::mem::lemma_store_bytes_empty(old(self).mem@, vaddr as int, data@.subrange(0, 0));
        }
        while len - off >= 8
            invariant
                old(self).pid is Some,
                self.pid == old(self).pid,
                off <= len,
                off % 8 == 0,
                len == data@.len(),
                self.mem@ == store_bytes(old(self).mem@, vaddr as int, data@.subrange(0, off as int)),
            decreases len - off,
        {
            let cur = match vaddr.checked_add(off as u64) {
                Some(cur) => cur,
                None => {
                    return Err(ErrorKind::Write(vaddr));
                },
            };
            let mut word: Vec<u8> = Vec::new();
            let mut k: usize = 0;
            while k < 8
                invariant
                    k <= 8,
                    off + 8 <= len,
                    len == data@.len(),
                    word@ =~= data@.subrange(off as int, off + k),
                decreases 8 - k,
            {
                let b = data[off + k];
                word.push(b);
                proof {
                    assert(word@ =~= data@.subrange(off as int, off + k + 1));
                }
                k += 1;
            }
            match self.poke_word(cur, &word) {
                Ok(u) => u,
                Err(e) => {
                    return Err(e);
                },
            };
            proof {
                lemma_store_bytes_concat(
                    old(self).mem@,
                    vaddr as int,
                    data@.subrange(0, off as int),
                    word@,
                );
                assert(data@.subrange(0, off as int) + word@ =~= data@.subrange(0, off + 8));
            }
            off += 8;
        }
        let rem = len - off;
        if rem > 0 {
            let cur = match vaddr.checked_add(off as u64) {
                Some(cur) => cur,
                None => {
                    return Err(ErrorKind::Write(vaddr));
                },
            };
            let tail = match self.peek_word(cur) {
                Ok(w) => w,
                Err(e) => {
                    return Err(e);
                },
            };
            // The word to write back: the remaining bytes of `data`, then
            // the old bytes past the end of the write.
            let mut word: Vec<u8> = Vec::new();
            let mut k: usize = 0;
            while k < rem
                invariant
                    k <= rem,
                    rem == len - off,
                    off < len,
                    len == data@.len(),
                    word@ =~= data@.subrange(off as int, off + k),
                decreases rem - k,
            {
                let b = data[off + k];
                word.push(b);
                proof {
                    assert(word@ =~= data@.subrange(off as int, off + k + 1));
                }
                k += 1;
            }
            while k < 8
                invariant
                    rem <= k <= 8,
                    rem == len - off,
                    off < len,
                    rem < 8,
                    len == data@.len(),
                    tail@.len() == 8,
                    word@ =~= data@.subrange(off as int, len as int) + tail@.subrange(
                        rem as int,
                        k as int,
                    ),
                decreases 8 - k,
            {
                let b = tail[k];
                word.push(b);
                proof {
                    assert(word@ =~= data@.subrange(off as int, len as int) + tail@.subrange(
                        rem as int,
                        k + 1,
                    ));
                }
                k += 1;
            }
            let ghost m0 = old(self).mem@;
            let ghost m1 = self.mem@;
            match self.poke_word(cur, &word) {
                Ok(u) => u,
                Err(e) => {
                    proof {
                        assert(self.mem@ == store_bytes(m0, vaddr as int, data@.subrange(
                            0,
                            off as int,
                        )));
                    }
                    return Err(e);
                },
            };
            proof {
                lemma_tail_write(m0, m1, vaddr as int, data@, off as int, tail@, word@);
            }
        }
        proof {
            if rem == 0 {
                assert(data@.subrange(0, off as int) =~= data@);
            }
        }
        Ok(len)
    }
}

/// Writing the composed tail word over memory that already holds the full
/// words is the same as writing all of `data` over the original memory:
/// the bytes past the end of `data` are written back unchanged.
proof fn lemma_tail_write(
    m0: Map<int, u8>,
    m1: Map<int, u8>,
    vaddr: int,
    data: Seq<u8>,
    off: int,
    tail: Seq<u8>,
    word: Seq<u8>,
)
    requires
        0 <= off < data.len(),
        data.len() - off < 8,
        m1 == store_bytes(m0, vaddr, data.subrange(0, off)),
        bytes_at(m1, vaddr + off, tail),
        tail.len() == 8,
        word =~= data.subrange(off, data.len() as int) + tail.subrange(
            data.len() - off,
            8,
        ),
    ensures
        store_bytes(m1, vaddr + off, word) =~= store_bytes(m0, vaddr, data),
{
    let rem = data.len() - off;
    let lhs = store_bytes(m1, vaddr + off, word);
    let rhs = store_bytes(m0, vaddr, data);
    assert(word.len() == 8);
    assert forall|a: int| lhs.dom().contains(a) implies rhs.dom().contains(a) by {
        if !(m0.dom().contains(a) || vaddr <= a < vaddr + data.len()) {
            // Then `a` lies in the written-back part of the tail word,
            // which the peek found in memory.
            if vaddr + off <= a < vaddr + off + 8 {
                let i = a - (vaddr + off);
                crate::mem::lemma_bytes_at_index(m1, vaddr + off, tail, i);
            }
        }
    }
    assert forall|a: int| rhs.dom().contains(a) implies lhs.dom().contains(a) by {}
    assert forall|a: int| lhs.dom().contains(a) implies lhs[a] == rhs[a] by {
        if vaddr + off <= a < vaddr + off + 8 {
            let i = a - (vaddr + off);
            assert(word[i] == if i < rem {
                data[off + i]
            } else {
                tail[i]
            });
            if i >= rem {
                crate::mem::lemma_bytes_at_index(m1, vaddr + off, tail, i);
            }
        }
    }
}

} // verus!
