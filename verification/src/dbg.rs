//! The debugger: one program under debugging, its live tracee if any, and
//! the soft-breakpoint primitives over tracee memory.
use vstd::prelude::*;

use crate::error::ErrorKind;
use crate::mem::{bytes_at, lemma_store_bytes_empty, store_bytes};
use crate::trace::{Event, Tracee, INT3};

verus! {

/// The debugger for one program: its path, and the traced child while one
/// is alive.
pub struct Debugger {
    prog: String,
    target: Option<Tracee>,
}

impl Debugger {
    /// Whether a tracee is alive to operate on.
    pub closed spec fn is_live(self) -> bool {
        self.target is Some && self.target->Some_0.pid is Some
    }

    /// The memory model of the live tracee.
    pub closed spec fn mem_of(self) -> Map<int, u8> {
        self.target->Some_0.mem@
    }

    /// The program path this debugger was made for.
    pub closed spec fn prog_spec(self) -> Seq<char> {
        self.prog@
    }

    /// The modeled program counter of the live tracee.
    pub closed spec fn pc_of(self) -> u64 {
        self.target->Some_0.pc@
    }

    /// The trap discipline after a stop: the program counter sits on a
    /// planted int3, or the byte before it is no int3 and nothing was
    /// adjusted.
    pub open spec fn trap_adjusted(self) -> bool {
        ||| self.pc_of() == 0
        ||| bytes_at(self.mem_of(), self.pc_of() as int, seq![INT3])
        ||| !bytes_at(self.mem_of(), self.pc_of() as int - 1, seq![INT3])
    }

    /// A debugger for the program at `prog`, with no tracee yet.
    pub fn new(prog: String) -> (d: Debugger)
        ensures
            !d.is_live(),
            d.prog_spec() == prog@,
    {
        Debugger { prog, target: None }
    }

    /// The program path, for display and for launching.
    pub fn prog(&self) -> (p: &String)
        ensures
            p@ == self.prog_spec(),
    {
        &self.prog
    }

    /// Whether a tracee is alive.
    pub fn running(&self) -> (r: bool)
        ensures
            r == self.is_live(),
    {
        match &self.target {
            Some(t) => t.pid.is_some(),
            None => false,
        }
    }

    /// The pid of the live tracee.
    pub fn pid(&self) -> (r: Option<i32>)
        ensures
            r is Some <==> self.is_live(),
    {
        match &self.target {
            Some(t) => t.pid,
            None => None,
        }
    }

    /// Adopt a freshly forked-and-exec'ed child as the tracee: consume its
    /// initial stop and set the trace options.
    pub fn attach(&mut self, pid: i32) -> (r: Result<(), ErrorKind>)
        ensures
            final(self).prog_spec() == old(self).prog_spec(),
            r is Ok ==> final(self).is_live(),
    {
        let mut t = Tracee::new(pid);
        match t.finish_launch() {
            Ok(u) => u,
            Err(e) => {
                // Keep the tracee: it was forked, and must be reaped on
                // teardown even when its launch handshake failed.
                self.target = Some(t);
                return Err(e);
            },
        };
        self.target = Some(t);
        Ok(())
    }

    /// Drop the tracee after it exited and was reaped.
    pub fn clear_target(&mut self)
        ensures
            !final(self).is_live(),
            final(self).prog_spec() == old(self).prog_spec(),
    {
        self.target = None;
    }

    /// Kill and reap the tracee, if one is alive.
    pub fn teardown(&mut self)
        ensures
            !final(self).is_live(),
            final(self).prog_spec() == old(self).prog_spec(),
    {
        match &mut self.target {
            Some(t) => {
                t.kill();
            },
            None => {},
        }
    }

    /// The program counter of the live tracee; `NotRunning` without one.
    pub fn pc(&self) -> (r: Result<u64, ErrorKind>)
        ensures
            !self.is_live() ==> r == Err::<u64, ErrorKind>(ErrorKind::NotRunning),
            r matches Ok(v) ==> v == self.pc_of(),
    {
        match &self.target {
            Some(t) => {
                if t.pid.is_some() {
                    t.pc()
                } else {
                    Err(ErrorKind::NotRunning)
                }
            },
            None => Err(ErrorKind::NotRunning),
        }
    }

    /// Read `n` bytes of tracee memory at `vaddr`.
    pub fn read(&self, vaddr: u64, n: usize) -> (r: Result<Vec<u8>, ErrorKind>)
        ensures
            match r {
                Ok(v) => self.is_live() && v@.len() == n && bytes_at(
                    self.mem_of(),
                    vaddr as int,
                    v@,
                ),
                Err(e) => if !self.is_live() {
                    e == ErrorKind::NotRunning
                } else {
                    e matches ErrorKind::Read(a)
                },
            },
    {
        match &self.target {
            Some(t) => {
                if t.pid.is_some() {
                    t.read_mem(vaddr, n)
                } else {
                    Err(ErrorKind::NotRunning)
                }
            },
            None => Err(ErrorKind::NotRunning),
        }
    }

    /// Write `data` over tracee memory at `vaddr`.  On success exactly the
    /// range `[vaddr, vaddr + data.len())` changes; on a mid-write failure
    /// some word-aligned prefix of `data` has been written and nothing
    /// else.
    pub fn write(&mut self, vaddr: u64, data: &Vec<u8>) -> (r: Result<(), ErrorKind>)
        ensures
            final(self).prog_spec() == old(self).prog_spec(),
            final(self).is_live() == old(self).is_live(),
            match r {
                Ok(u) => old(self).is_live() && final(self).mem_of() == store_bytes(
                    old(self).mem_of(),
                    vaddr as int,
                    data@,
                ),
                Err(e) => if !old(self).is_live() {
                    e == ErrorKind::NotRunning && *final(self) == *old(self)
                } else {
                    (e matches ErrorKind::Read(a) || e matches ErrorKind::Write(a)) && exists|
                        k: int,
                    |
                        0 <= k <= data@.len() && k % 8 == 0 && final(self).mem_of() == store_bytes(
                            old(self).mem_of(),
                            vaddr as int,
                            #[trigger] data@.subrange(0, k),
                        )
                },
            },
    {
        match &mut self.target {
            Some(t) => {
                if t.pid.is_some() {
                    match t.write_mem(vaddr, data) {
                        Ok(n) => Ok(()),
                        Err(e) => Err(e),
                    }
                } else {
                    Err(ErrorKind::NotRunning)
                }
            },
            None => Err(ErrorKind::NotRunning),
        }
    }

    /// Plant a soft breakpoint: read the byte at `vaddr`, write int3 over
    /// it, and return the original byte.  On failure memory is unchanged.
    pub fn set_breakpoint(&mut self, vaddr: u64) -> (r: Result<u8, ErrorKind>)
        ensures
            final(self).prog_spec() == old(self).prog_spec(),
            final(self).is_live() == old(self).is_live(),
            match r {
                Ok(b) => old(self).is_live() && old(self).mem_of().dom().contains(vaddr as int)
                    && b == old(self).mem_of()[vaddr as int] && final(self).mem_of() == store_bytes(
                    old(self).mem_of(),
                    vaddr as int,
                    seq![INT3],
                ),
                Err(e) => final(self).mem_of() == old(self).mem_of() && (!old(self).is_live() ==> e
                    == ErrorKind::NotRunning),
            },
    {
        let bytes = match self.read(vaddr, 1) {
            Ok(v) => v,
            Err(e) => {
                return Err(e);
            },
        };
        let byte = bytes[0];
        proof {
            crate::mem::lemma_bytes_at_index(self.mem_of(), vaddr as int, bytes@, 0);
        }
        let patch: Vec<u8> = vec![INT3];
        match self.write(vaddr, &patch) {
            Ok(u) => Ok(byte),
            Err(e) => {
                proof {
                    if old(self).is_live() {
                        let k = choose|k: int|
                            0 <= k <= patch@.len() && k % 8 == 0 && self.mem_of() == store_bytes(
                                old(self).mem_of(),
                                vaddr as int,
                                #[trigger] patch@.subrange(0, k),
                            );
                        assert(k == 0);
                        assert(patch@.subrange(0, 0) =~= Seq::<u8>::empty());
                        lemma_store_bytes_empty(
                            old(self).mem_of(),
                            vaddr as int,
                            patch@.subrange(0, 0),
                        );
                        assert(store_bytes(old(self).mem_of(), vaddr as int, patch@.subrange(0, 0))
                            =~= old(self).mem_of());
                    }
                }
                Err(e)
            },
        }
    }

    /// Remove a soft breakpoint: write the saved byte back over the int3.
    /// On failure memory is unchanged.
    pub fn remove_breakpoint(&mut self, vaddr: u64, saved: u8) -> (r: Result<(), ErrorKind>)
        ensures
            final(self).prog_spec() == old(self).prog_spec(),
            final(self).is_live() == old(self).is_live(),
            match r {
                Ok(u) => old(self).is_live() && final(self).mem_of() == store_bytes(
                    old(self).mem_of(),
                    vaddr as int,
                    seq![saved],
                ),
                Err(e) => final(self).mem_of() == old(self).mem_of() && (!old(self).is_live() ==> e
                    == ErrorKind::NotRunning),
            },
    {
        let patch: Vec<u8> = vec![saved];
        match self.write(vaddr, &patch) {
            Ok(u) => Ok(()),
            Err(e) => {
                proof {
                    if old(self).is_live() {
                        let k = choose|k: int|
                            0 <= k <= patch@.len() && k % 8 == 0 && self.mem_of() == store_bytes(
                                old(self).mem_of(),
                                vaddr as int,
                                #[trigger] patch@.subrange(0, k),
                            );
                        assert(k == 0);
                        assert(patch@.subrange(0, 0) =~= Seq::<u8>::empty());
                        lemma_store_bytes_empty(
                            old(self).mem_of(),
                            vaddr as int,
                            patch@.subrange(0, 0),
                        );
                        assert(store_bytes(old(self).mem_of(), vaddr as int, patch@.subrange(0, 0))
                            =~= old(self).mem_of());
                    }
                }
                Err(e)
            },
        }
    }

    /// Continue the tracee and classify what it does next.
    pub fn cont(&mut self) -> (r: Result<Event, ErrorKind>)
        ensures
            final(self).prog_spec() == old(self).prog_spec(),
            !old(self).is_live() ==> r == Err::<Event, ErrorKind>(ErrorKind::NotRunning),
            (r matches Ok(ev) && !(ev matches Event::Exited(p, c))) ==> final(self).is_live(),
            (r matches Ok(Event::Exited(p, c))) ==> !final(self).is_live(),
            r == Ok::<Event, ErrorKind>(Event::Stopped) ==> final(self).trap_adjusted(),
    {
        match &mut self.target {
            Some(t) => {
                if t.pid.is_some() {
                    t.cont()
                } else {
                    Err(ErrorKind::NotRunning)
                }
            },
            None => Err(ErrorKind::NotRunning),
        }
    }

    /// Step the tracee one instruction and classify what it does next.
    pub fn step(&mut self) -> (r: Result<Event, ErrorKind>)
        ensures
            final(self).prog_spec() == old(self).prog_spec(),
            !old(self).is_live() ==> r == Err::<Event, ErrorKind>(ErrorKind::NotRunning),
            (r matches Ok(ev) && !(ev matches Event::Exited(p, c))) ==> final(self).is_live(),
            (r matches Ok(Event::Exited(p, c))) ==> !final(self).is_live(),
            r == Ok::<Event, ErrorKind>(Event::Stopped) ==> final(self).trap_adjusted(),
    {
        match &mut self.target {
            Some(t) => {
                if t.pid.is_some() {
                    t.step()
                } else {
                    Err(ErrorKind::NotRunning)
                }
            },
            None => Err(ErrorKind::NotRunning),
        }
    }
}

} // verus!
