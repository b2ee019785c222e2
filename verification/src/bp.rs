//! Software breakpoints: one saved-byte record per address, a table of
//! them keyed by ever-growing numbers, and the step-over discipline.
use vstd::prelude::*;

use crate::dbg::Debugger;
use crate::error::ErrorKind;
use crate::mem::{bytes_at, store_bytes};
use crate::trace::{Event, INT3};

verus! {

/// One soft breakpoint: where it is, whether it is planted, and the
/// original byte while it is.
#[derive(Debug, Clone, Copy, PartialEq, Eq)]
pub struct Breakpoint {
    /// Target virtual address.
    pub addr: u64,
    /// Whether the int3 byte is in place.
    pub enabled: bool,
    /// The original byte, saved when the breakpoint was first planted.
    pub saved: Option<u8>,
}

impl Breakpoint {
    /// A new, unplanted breakpoint for a target address.
    pub fn new(addr: u64) -> (b: Breakpoint)
        ensures
            b == (Breakpoint { addr, enabled: false, saved: None }),
    {
        Breakpoint { addr, enabled: false, saved: None }
    }

    /// Plant the breakpoint: save the byte at its address and write int3
    /// over it.
    pub fn enable(&mut self, dbg: &mut Debugger) -> (r: Result<(), ErrorKind>)
        ensures
            final(self).addr == old(self).addr,
            final(dbg).prog_spec() == old(dbg).prog_spec(),
            final(dbg).is_live() == old(dbg).is_live(),
            match r {
                Ok(u) => final(self).enabled && final(self).saved == Some(
                    old(dbg).mem_of()[old(self).addr as int],
                ) && final(dbg).mem_of() == store_bytes(
                    old(dbg).mem_of(),
                    old(self).addr as int,
                    seq![INT3],
                ),
                Err(e) => *final(self) == *old(self) && final(dbg).mem_of() == old(dbg).mem_of() && (
                !old(dbg).is_live() ==> e == ErrorKind::NotRunning),
            },
    {
        match dbg.set_breakpoint(self.addr) {
            Ok(byte) => {
                self.saved = Some(byte);
                self.enabled = true;
                Ok(())
            },
            Err(e) => Err(e),
        }
    }

    /// Lift the breakpoint: restore the saved byte, if one was ever saved,
    /// and mark it disabled.
    pub fn disable(&mut self, dbg: &mut Debugger) -> (r: Result<(), ErrorKind>)
        ensures
            final(self).addr == old(self).addr,
            final(self).saved == old(self).saved,
            final(dbg).prog_spec() == old(dbg).prog_spec(),
            final(dbg).is_live() == old(dbg).is_live(),
            match r {
                Ok(u) => !final(self).enabled && if old(self).saved is Some {
                    final(dbg).mem_of() == store_bytes(
                        old(dbg).mem_of(),
                        old(self).addr as int,
                        seq![old(self).saved->Some_0],
                    )
                } else {
                    final(dbg).mem_of() == old(dbg).mem_of()
                },
                Err(e) => final(self).enabled == old(self).enabled && final(dbg).mem_of() == old(
                    dbg,
                ).mem_of(),
            },
    {
        match self.saved {
            Some(byte) => {
                match dbg.remove_breakpoint(self.addr, byte) {
                    Ok(u) => {},
                    Err(e) => {
                        return Err(e);
                    },
                };
            },
            None => {},
        }
        self.enabled = false;
        Ok(())
    }
}

/// Planting a breakpoint and lifting it again leaves every byte of memory
/// as it was: the byte at the address is the one the plant saved, and no
/// other address is touched.
pub proof fn lemma_breakpoint_reversible(m: Map<int, u8>, addr: int)
    requires
        m.dom().contains(addr),
    ensures
        store_bytes(store_bytes(m, addr, seq![INT3]), addr, seq![m[addr]]) =~= m,
{
    let planted = store_bytes(m, addr, seq![INT3]);
    let restored = store_bytes(planted, addr, seq![m[addr]]);
    assert forall|a: int| restored.dom().contains(a) implies m.dom().contains(a) by {}
    assert forall|a: int| m.dom().contains(a) implies restored.dom().contains(a) by {}
    assert forall|a: int| restored.dom().contains(a) implies restored[a] == m[a] by {}
}

/// Step over a breakpoint the program counter sits on: lift it, step one
/// instruction with the original byte in place, and plant it again.  When
/// the step does not end the process, the breakpoint comes back armed:
/// enabled, with int3 at its address.
pub fn step_over(bp: &mut Breakpoint, dbg: &mut Debugger) -> (r: Result<Event, ErrorKind>)
    requires
        old(bp).enabled,
        old(bp).saved is Some,
    ensures
        final(bp).addr == old(bp).addr,
        final(dbg).prog_spec() == old(dbg).prog_spec(),
        match r {
            Ok(ev) => if ev matches Event::Exited(p, c) {
                !final(dbg).is_live()
            } else {
                final(bp).enabled && final(dbg).is_live() && bytes_at(
                    final(dbg).mem_of(),
                    final(bp).addr as int,
                    seq![INT3],
                )
            },
            Err(e) => true,
        },
{
    match bp.disable(dbg) {
        Ok(u) => u,
        Err(e) => {
            return Err(e);
        },
    };
    proof {
        // The original instruction byte is back in place for the step.
        crate::mem::lemma_mem_round_trip(
            old(dbg).mem_of(),
            old(bp).addr as int,
            seq![old(bp).saved->Some_0],
        );
        assert(bytes_at(dbg.mem_of(), bp.addr as int, seq![old(bp).saved->Some_0]));
    }
    let ev = match dbg.step() {
        Ok(ev) => ev,
        Err(e) => {
            return Err(e);
        },
    };
    match ev {
        Event::Exited(p, c) => Ok(Event::Exited(p, c)),
        _ => {
            let ghost mem_before = dbg.mem_of();
            match bp.enable(dbg) {
                Ok(u) => u,
                Err(e) => {
                    return Err(e);
                },
            };
            proof {
                crate::mem::lemma_mem_round_trip(mem_before, bp.addr as int, seq![INT3]);
            }
            Ok(ev)
        },
    }
}

/// The table of breakpoints: entries in insertion order, each under a
/// number drawn from an ever-growing counter.  Numbers start at one and
/// are never reused, so insertion order is number order.
pub struct BreakpointTable {
    items: Vec<(u64, Breakpoint)>,
    next: u64,
}

impl BreakpointTable {
    /// The entries, in insertion order.
    pub closed spec fn rows(self) -> Seq<(u64, Breakpoint)> {
        self.items@
    }

    /// The number the next breakpoint will get.
    pub closed spec fn next_id(self) -> u64 {
        self.next
    }

    /// Numbers are strictly increasing along the table and all below the
    /// counter, which starts at one.
    pub open spec fn wf(self) -> bool {
        &&& forall|i: int, j: int|
            0 <= i < j < self.rows().len() ==> #[trigger] self.rows()[i].0 < #[trigger] self.rows()[j].0
        &&& forall|i: int| 0 <= i < self.rows().len() ==> #[trigger] self.rows()[i].0 < self.next_id()
        &&& self.next_id() >= 1
    }

    /// An empty table, counting from one.
    pub fn new() -> (t: BreakpointTable)
        ensures
            t.wf(),
            t.rows().len() == 0,
            t.next_id() == 1,
    {
        BreakpointTable { items: Vec::new(), next: 1 }
    }

    /// How many breakpoints the table holds.
    pub fn len(&self) -> (n: usize)
        ensures
            n == self.rows().len(),
    {
        self.items.len()
    }

    /// The number of the entry at a position.
    pub fn id_at(&self, i: usize) -> (id: u64)
        requires
            i < self.rows().len(),
        ensures
            id == self.rows()[i as int].0,
    {
        self.items[i].0
    }

    /// The breakpoint of the entry at a position.
    pub fn bp_at(&self, i: usize) -> (bp: Breakpoint)
        requires
            i < self.rows().len(),
        ensures
            bp == self.rows()[i as int].1,
    {
        self.items[i].1
    }

    /// Replace the breakpoint of the entry at a position, keeping its
    /// number.
    pub fn set_bp_at(&mut self, i: usize, bp: Breakpoint)
        requires
            old(self).wf(),
            i < old(self).rows().len(),
        ensures
            final(self).wf(),
            final(self).next_id() == old(self).next_id(),
            final(self).rows() == old(self).rows().update(
                i as int,
                (old(self).rows()[i as int].0, bp),
            ),
    {
        let id = self.items[i].0;
        self.items.remove(i);
        self.items.insert(i, (id, bp));
        proof {
            assert(self.items@ =~= old(self).items@.update(i as int, (id, bp)));
        }
    }

    /// Add a disabled breakpoint for `addr` under the next number, and
    /// return that number.  The new number is larger than every number in
    /// the table.  Fails only when the counter would overflow.
    pub fn add(&mut self, addr: u64) -> (r: Option<u64>)
        requires
            old(self).wf(),
        ensures
            final(self).wf(),
            match r {
                Some(id) => old(self).next_id() < u64::MAX && id == old(self).next_id()
                    && final(self).next_id() == old(self).next_id() + 1
                    && final(self).rows() == old(self).rows().push(
                    (id, Breakpoint { addr, enabled: false, saved: None }),
                ),
                None => *final(self) == *old(self) && old(self).next_id() == u64::MAX,
            },
    {
        if self.next == u64::MAX {
            return None;
        }
        let id = self.next;
        let bp = Breakpoint::new(addr);
        self.items.push((id, bp));
        self.next = self.next + 1;
        proof {
            let pre = old(self).rows();
            let post = self.items@;
            assert(post =~= pre.push((id, bp)));
            assert forall|i: int, j: int| 0 <= i < j < post.len() implies #[trigger] post[i].0
                < #[trigger] post[j].0 by {
                if j < pre.len() {
                    assert(post[i] == pre[i]);
                    assert(post[j] == pre[j]);
                } else {
                    assert(post[j] == (id, bp));
                    assert(post[i] == pre[i]);
                    assert(pre[i].0 < id);
                }
            }
            assert forall|i: int| 0 <= i < post.len() implies #[trigger] post[i].0 < self.next by {
                if i < pre.len() {
                    assert(post[i] == pre[i]);
                } else {
                    assert(post[i] == (id, bp));
                }
            }
        }
        Some(id)
    }

    /// The position of the first entry with a number, if any.
    pub fn find(&self, id: u64) -> (r: Option<usize>)
        ensures
            match r {
                Some(i) => i < self.rows().len() && self.rows()[i as int].0 == id && forall|j: int|
                    0 <= j < i ==> #[trigger] self.rows()[j].0 != id,
                None => forall|i: int| 0 <= i < self.rows().len() ==> #[trigger] self.rows()[i].0 != id,
            },
    {
        let n = self.items.len();
        let mut i: usize = 0;
        while i < n
            invariant
                i <= n,
                n == self.rows().len(),
                forall|j: int| 0 <= j < i ==> #[trigger] self.rows()[j].0 != id,
            decreases n - i,
        {
            if self.items[i].0 == id {
                return Some(i);
            }
            i += 1;
        }
        None
    }

    /// Remove the entry at a position.
    pub fn remove_at(&mut self, i: usize) -> (bp: Breakpoint)
        requires
            old(self).wf(),
            i < old(self).rows().len(),
        ensures
            final(self).wf(),
            final(self).next_id() == old(self).next_id(),
            final(self).rows() == old(self).rows().remove(i as int),
            bp == old(self).rows()[i as int].1,
    {
        let entry = self.items.remove(i);
        proof {
            let pre = old(self).rows();
            let post = self.items@;
            assert forall|a: int, b: int| 0 <= a < b < post.len() implies #[trigger] post[a].0
                < #[trigger] post[b].0 by {
                let a0: int = if a < i { a } else { a + 1 };
                let b0: int = if b < i { b } else { b + 1 };
                assert(post[a] == pre[a0]);
                assert(post[b] == pre[b0]);
            }
            assert forall|a: int| 0 <= a < post.len() implies #[trigger] post[a].0
                < self.next_id() by {
                let a0: int = if a < i { a } else { a + 1 };
                assert(post[a] == pre[a0]);
            }
        }
        entry.1
    }

    /// Remove every entry.
    pub fn clear(&mut self)
        requires
            old(self).wf(),
        ensures
            final(self).wf(),
            final(self).next_id() == old(self).next_id(),
            final(self).rows().len() == 0,
    {
        self.items.clear();
    }
}


/// Whether some row of the table carries the number `id`.
pub open spec fn has_id(rows: Seq<(u64, Breakpoint)>, id: u64) -> bool {
    exists|i: int| 0 <= i < rows.len() && #[trigger] rows[i].0 == id
}

/// Whether the number `id` occurs in the list `ids`.
pub open spec fn id_in(ids: Seq<u64>, id: u64) -> bool {
    exists|i: int| 0 <= i < ids.len() && #[trigger] ids[i] == id
}

/// A number occurs in an extended list iff it occurs in the list or is
/// the added number.
pub proof fn lemma_id_in_push(ids: Seq<u64>, x: u64, y: u64)
    ensures
        id_in(ids.push(x), y) == (id_in(ids, y) || x == y),
{
    if id_in(ids, y) {
        let i = choose|i: int| 0 <= i < ids.len() && #[trigger] ids[i] == y;
        assert(ids.push(x)[i] == y);
    }
    if x == y {
        assert(ids.push(x)[ids.len() as int] == y);
    }
    if id_in(ids.push(x), y) && !(id_in(ids, y) || x == y) {
        let i = choose|i: int| 0 <= i < ids.push(x).len() && #[trigger] ids.push(x)[i] == y;
        assert(ids[i] == y);
    }
}

/// The table without its first row numbered `id`; unchanged when none is.
pub open spec fn remove_first_id(rows: Seq<(u64, Breakpoint)>, id: u64) -> Seq<(u64, Breakpoint)>
    decreases rows.len(),
{
    if rows.len() == 0 {
        rows
    } else if rows[0].0 == id {
        rows.drop_first()
    } else {
        seq![rows[0]] + remove_first_id(rows.drop_first(), id)
    }
}

/// Removing the entry `find` points at is removing the first row with its
/// number.
pub proof fn lemma_remove_first_at(rows: Seq<(u64, Breakpoint)>, id: u64, i: int)
    requires
        0 <= i < rows.len(),
        rows[i].0 == id,
        forall|j: int| 0 <= j < i ==> #[trigger] rows[j].0 != id,
    ensures
        remove_first_id(rows, id) == rows.remove(i),
    decreases i,
{
    if i == 0 {
        assert(remove_first_id(rows, id) =~= rows.remove(0));
    } else {
        let t = rows.drop_first();
        assert(forall|j: int| 0 <= j < i - 1 ==> #[trigger] t[j] == rows[j + 1]);
        assert(t[i - 1] == rows[i]);
        lemma_remove_first_at(t, id, i - 1);
        assert(seq![rows[0]] + t.remove(i - 1) =~= rows.remove(i));
    }
}

/// What deleting a list of numbers leaves of the table: each number in
/// turn removes its row, if it still has one.
pub open spec fn delete_rows_spec(rows: Seq<(u64, Breakpoint)>, ids: Seq<u64>) -> Seq<
    (u64, Breakpoint),
>
    decreases ids.len(),
{
    if ids.len() == 0 {
        rows
    } else {
        delete_rows_spec(
            if has_id(rows, ids[0]) {
                remove_first_id(rows, ids[0])
            } else {
                rows
            },
            ids.drop_first(),
        )
    }
}

/// What deleting a list of numbers prints: one `No breakpoint number N.`
/// line for each number that has no row when its turn comes.
pub open spec fn delete_msgs_spec(rows: Seq<(u64, Breakpoint)>, ids: Seq<u64>) -> Seq<char>
    decreases ids.len(),
{
    if ids.len() == 0 {
        Seq::empty()
    } else {
        (if has_id(rows, ids[0]) {
            Seq::<char>::empty()
        } else {
            no_breakpoint_msg(ids[0])
        }) + delete_msgs_spec(
            if has_id(rows, ids[0]) {
                remove_first_id(rows, ids[0])
            } else {
                rows
            },
            ids.drop_first(),
        )
    }
}

/// The `No breakpoint number N.` line.
pub open spec fn no_breakpoint_msg(id: u64) -> Seq<char> {
    "No breakpoint number "@ + crate::numfmt::radix_chars(id as int, 10) + ".\n"@
}

/// Deleting one more number is one more step of the fold.
pub proof fn lemma_delete_spec_push(rows: Seq<(u64, Breakpoint)>, ids: Seq<u64>, id: u64)
    ensures
        delete_rows_spec(rows, ids.push(id)) == (if has_id(delete_rows_spec(rows, ids), id) {
            remove_first_id(delete_rows_spec(rows, ids), id)
        } else {
            delete_rows_spec(rows, ids)
        }),
        delete_msgs_spec(rows, ids.push(id)) == delete_msgs_spec(rows, ids) + (if has_id(
            delete_rows_spec(rows, ids),
            id,
        ) {
            Seq::<char>::empty()
        } else {
            no_breakpoint_msg(id)
        }),
    decreases ids.len(),
{
    if ids.len() == 0 {
        assert(ids.push(id)[0] == id);
        assert(ids.push(id).drop_first() =~= Seq::<u64>::empty());
        let rows1 = if has_id(rows, id) {
            remove_first_id(rows, id)
        } else {
            rows
        };
        let msg1 = if has_id(rows, id) {
            Seq::<char>::empty()
        } else {
            no_breakpoint_msg(id)
        };
        assert(delete_rows_spec(rows1, Seq::<u64>::empty()) == rows1);
        assert(delete_rows_spec(rows, ids.push(id)) == rows1);
        assert(delete_rows_spec(rows, ids) == rows);
        assert(delete_msgs_spec(rows1, Seq::<u64>::empty()) == Seq::<char>::empty());
        assert(delete_msgs_spec(rows, ids.push(id)) =~= msg1);
        assert(delete_msgs_spec(rows, ids) == Seq::<char>::empty());
        assert(delete_msgs_spec(rows, ids) + msg1 =~= msg1);
    } else {
        assert(ids.push(id)[0] == ids[0]);
        assert(ids.push(id).drop_first() =~= ids.drop_first().push(id));
        let rows1 = if has_id(rows, ids[0]) {
            remove_first_id(rows, ids[0])
        } else {
            rows
        };
        let msg0 = if has_id(rows, ids[0]) {
            Seq::<char>::empty()
        } else {
            no_breakpoint_msg(ids[0])
        };
        lemma_delete_spec_push(rows1, ids.drop_first(), id);
        let rest = delete_rows_spec(rows1, ids.drop_first());
        let msgtail = if has_id(rest, id) {
            Seq::<char>::empty()
        } else {
            no_breakpoint_msg(id)
        };
        assert(delete_rows_spec(rows, ids.push(id)) == delete_rows_spec(
            rows1,
            ids.drop_first().push(id),
        ));
        assert(delete_rows_spec(rows, ids) == rest);
        assert(delete_msgs_spec(rows, ids.push(id)) == msg0 + delete_msgs_spec(
            rows1,
            ids.drop_first().push(id),
        ));
        assert(msg0 + (delete_msgs_spec(rows1, ids.drop_first()) + msgtail) =~= (msg0
            + delete_msgs_spec(rows1, ids.drop_first())) + msgtail);
    }
}


/// `post` is `pre` with exactly the listed numbers' rows set to `enabled`:
/// numbers, addresses and saved bytes are untouched, rows of unlisted
/// numbers are untouched entirely.
pub open spec fn marked_rows(
    pre: Seq<(u64, Breakpoint)>,
    post: Seq<(u64, Breakpoint)>,
    ids: Seq<u64>,
    enabled: bool,
) -> bool {
    &&& post.len() == pre.len()
    &&& forall|i: int|
        0 <= i < pre.len() ==> (#[trigger] post[i]).0 == pre[i].0 && post[i].1.addr
            == pre[i].1.addr && post[i].1.saved == pre[i].1.saved
    &&& forall|i: int|
        0 <= i < pre.len() && id_in(ids, (#[trigger] post[i]).0) ==> post[i].1.enabled == enabled
    &&& forall|i: int| 0 <= i < pre.len() && !id_in(ids, (#[trigger] post[i]).0) ==> post[i].1 == pre[i].1
}


/// `post` has the same breakpoint numbers and addresses as `pre`, row for
/// row; only flags and saved bytes may differ.
pub open spec fn same_numbers(pre: Seq<(u64, Breakpoint)>, post: Seq<(u64, Breakpoint)>) -> bool {
    &&& post.len() == pre.len()
    &&& forall|i: int|
        0 <= i < pre.len() ==> (#[trigger] post[i]).0 == pre[i].0 && post[i].1.addr
            == pre[i].1.addr
}


/// What disabling or enabling a list of numbers prints: one `No
/// breakpoint number N.` line per number with no row; the rows themselves
/// keep their numbers, so presence does not change along the way.
pub open spec fn absent_msgs_spec(rows: Seq<(u64, Breakpoint)>, ids: Seq<u64>) -> Seq<char>
    decreases ids.len(),
{
    if ids.len() == 0 {
        Seq::empty()
    } else {
        (if has_id(rows, ids[0]) {
            Seq::<char>::empty()
        } else {
            no_breakpoint_msg(ids[0])
        }) + absent_msgs_spec(rows, ids.drop_first())
    }
}

/// One more number is one more step of the absent-message fold.
pub proof fn lemma_absent_msgs_push(rows: Seq<(u64, Breakpoint)>, ids: Seq<u64>, id: u64)
    ensures
        absent_msgs_spec(rows, ids.push(id)) == absent_msgs_spec(rows, ids) + (if has_id(
            rows,
            id,
        ) {
            Seq::<char>::empty()
        } else {
            no_breakpoint_msg(id)
        }),
    decreases ids.len(),
{
    let tail = if has_id(rows, id) {
        Seq::<char>::empty()
    } else {
        no_breakpoint_msg(id)
    };
    if ids.len() == 0 {
        assert(ids.push(id)[0] == id);
        assert(ids.push(id).drop_first() =~= Seq::<u64>::empty());
        assert(absent_msgs_spec(rows, Seq::<u64>::empty()) == Seq::<char>::empty());
        assert(absent_msgs_spec(rows, ids.push(id)) =~= tail);
        assert(absent_msgs_spec(rows, ids) + tail =~= tail);
    } else {
        assert(ids.push(id)[0] == ids[0]);
        assert(ids.push(id).drop_first() =~= ids.drop_first().push(id));
        lemma_absent_msgs_push(rows, ids.drop_first(), id);
        let head = if has_id(rows, ids[0]) {
            Seq::<char>::empty()
        } else {
            no_breakpoint_msg(ids[0])
        };
        assert(absent_msgs_spec(rows, ids.push(id)) == head + absent_msgs_spec(
            rows,
            ids.drop_first().push(id),
        ));
        assert(head + (absent_msgs_spec(rows, ids.drop_first()) + tail) =~= (head
            + absent_msgs_spec(rows, ids.drop_first())) + tail);
    }
}

/// Tables with the same numbers row for row hold the same numbers.
pub proof fn lemma_has_id_same(
    pre: Seq<(u64, Breakpoint)>,
    post: Seq<(u64, Breakpoint)>,
    id: u64,
)
    requires
        post.len() == pre.len(),
        forall|i: int| 0 <= i < pre.len() ==> (#[trigger] post[i]).0 == pre[i].0,
    ensures
        has_id(pre, id) == has_id(post, id),
{
    if has_id(pre, id) {
        let w = choose|w: int| 0 <= w < pre.len() && #[trigger] pre[w].0 == id;
        assert(post[w].0 == id);
    }
    if has_id(post, id) {
        let w = choose|w: int| 0 <= w < post.len() && #[trigger] post[w].0 == id;
        assert(pre[w].0 == id);
    }
}

/// Breakpoint numbers never repeat: two different rows of a well-formed
/// table carry different numbers, and every number already given out is
/// below the counter, so numbers within a session only grow.
pub proof fn lemma_ids_unique(t: BreakpointTable, i: int, j: int)
    requires
        t.wf(),
        0 <= i < t.rows().len(),
        0 <= j < t.rows().len(),
        i != j,
    ensures
        t.rows()[i].0 != t.rows()[j].0,
        t.rows()[i].0 < t.next_id(),
{
    if i < j {
        assert(t.rows()[i].0 < t.rows()[j].0);
    } else {
        assert(t.rows()[j].0 < t.rows()[i].0);
    }
}

} // verus!
