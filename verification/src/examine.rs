//! The examine command's memory dump: rows of little-endian values read
//! from tracee memory, rendered in zero-padded hex.
use vstd::prelude::*;

use crate::dbg::Debugger;
use crate::error::ErrorKind;
use crate::mem::{le_value, lemma_bytes_at_index, seq_of_mem};
use crate::numfmt::{radix_chars, u64_to_hex_pad, u64_to_radix, zero_pad};

verus! {

/// What one value of the dump adds to the output: a row header when it
/// starts a row, the value in zero-padded hex, and a line break when it
/// ends a row or the dump.
pub open spec fn dump_cell(
    m: Map<int, u8>,
    addr0: int,
    i: int,
    repeat: int,
    width: int,
    cols: int,
) -> Seq<char> {
    let cur = addr0 + i * width;
    (if i % cols == 0 {
        "0x"@ + radix_chars(cur, 16) + ": "@
    } else {
        Seq::<char>::empty()
    }) + " "@ + zero_pad(radix_chars(le_value(seq_of_mem(m, cur, width)), 16), 2 * width) + (if (i
        + 1) % cols == 0 || i + 1 == repeat {
        seq!['\n']
    } else {
        Seq::<char>::empty()
    })
}

/// The first `i` values of the dump, concatenated.
pub open spec fn dump_upto(
    m: Map<int, u8>,
    addr0: int,
    i: int,
    repeat: int,
    width: int,
    cols: int,
) -> Seq<char>
    decreases i,
{
    if i <= 0 {
        Seq::empty()
    } else {
        dump_upto(m, addr0, i - 1, repeat, width, cols) + dump_cell(
            m,
            addr0,
            i - 1,
            repeat,
            width,
            cols,
        )
    }
}

/// Dump `repeat` values of `width` bytes each from tracee memory starting
/// at `addr0`, `cols` to a row, appending the rendering to `out`.  On
/// success the whole dump is appended; a failed read leaves the rows
/// before it.
pub fn dump_memory(
    dbg: &Debugger,
    addr0: u64,
    repeat: u64,
    width: u64,
    cols: u64,
    out: &mut String,
) -> (r: Result<(), ErrorKind>)
    requires
        1 <= width <= 8,
        1 <= cols,
    ensures
        match r {
            Ok(u) => repeat * width <= u64::MAX && addr0 + repeat * width <= u64::MAX
                && final(out)@ == old(out)@ + dump_upto(
                dbg.mem_of(),
                addr0 as int,
                repeat as int,
                repeat as int,
                width as int,
                cols as int,
            ),
            Err(e) => (e matches ErrorKind::Read(a) || e == ErrorKind::NotRunning || e
                == ErrorKind::AddressOverflow) && exists|i: int|
                0 <= i <= repeat && final(out)@ == old(out)@ + #[trigger] dump_upto(
                    dbg.mem_of(),
                    addr0 as int,
                    i,
                    repeat as int,
                    width as int,
                    cols as int,
                ),
        },
{
    if repeat == 0 {
        proof {
            assert(repeat * width == 0) by (nonlinear_arith)
                requires
                    repeat == 0,
            ;
            assert(old(out)@ + dump_upto(
                dbg.mem_of(),
                addr0 as int,
                0,
                repeat as int,
                width as int,
                cols as int,
            ) =~= old(out)@);
        }
        return Ok(());
    }
    let total = match repeat.checked_mul(width) {
        Some(t) => t,
        None => {
            proof {
                assert(old(out)@ + dump_upto(
                    dbg.mem_of(),
                    addr0 as int,
                    0,
                    repeat as int,
                    width as int,
                    cols as int,
                ) =~= old(out)@);
            }
            return Err(ErrorKind::AddressOverflow);
        },
    };
    if addr0 > u64::MAX - total {
        proof {
            assert(old(out)@ + dump_upto(
                dbg.mem_of(),
                addr0 as int,
                0,
                repeat as int,
                width as int,
                cols as int,
            ) =~= old(out)@);
        }
        return Err(ErrorKind::AddressOverflow);
    }

    let mut i: u64 = 0;
    while i < repeat
        invariant
            0 <= i <= repeat,
            1 <= width <= 8,
            1 <= cols,
            repeat * width == total,
            addr0 + total <= u64::MAX,
            out@ == old(out)@ + dump_upto(
                dbg.mem_of(),
                addr0 as int,
                i as int,
                repeat as int,
                width as int,
                cols as int,
            ),
        decreases repeat - i,
    {
        proof {
            assert((i + 1) * width <= repeat * width && i * width + width == (i + 1) * width && i
                * width >= 0) by (nonlinear_arith)
                requires
                    0 <= i < repeat,
                    width >= 1,
            ;
        }
        let cur = addr0 + i * width;

        // Read the value first, so that a failed read adds nothing to the
        // row under construction.
        let bytes = match dbg.read(cur, width as usize) {
            Ok(b) => b,
            Err(e) => {
                return Err(e);
            },
        };
        proof {
            assert forall|j: int| 0 <= j < width implies bytes@[j] == seq_of_mem(
                dbg.mem_of(),
                cur as int,
                width as int,
            )[j] by {
                lemma_bytes_at_index(dbg.mem_of(), cur as int, bytes@, j);
            }
            assert(bytes@ =~= seq_of_mem(dbg.mem_of(), cur as int, width as int));
        }
        let value = crate::mem::le_value_of(&bytes, 0, width as usize);
        proof {
            assert(bytes@.subrange(0, width as int) =~= bytes@);
        }

        let ghost outpre = out@;
        if i % cols == 0 {
            out.append("0x");
            let cs = u64_to_radix(cur, 16);
            out.append(cs.as_str());
            out.append(": ");
        }
        out.append(" ");
        let hex = u64_to_hex_pad(value, (width as usize) * 2);
        out.append(hex.as_str());
        if (i + 1) % cols == 0 || i + 1 == repeat {
            out.append("\n");
            proof {
                reveal_strlit("\n");
            }
        }
        proof {
            let cell = dump_cell(
                dbg.mem_of(),
                addr0 as int,
                i as int,
                repeat as int,
                width as int,
                cols as int,
            );
            assert(out@ =~= outpre + cell);
        }
        i += 1;
    }
    Ok(())
}

} // verus!
