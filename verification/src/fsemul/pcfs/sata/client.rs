//! The decisions a PCFS SATA client makes around its requests: how a read
//! or write is cut into blocks, how a fast file read is split into requests,
//! and how the replies to those requests are put back together.

use crate::wire::{put_bytes, read_u32, u32_at};
use vstd::prelude::*;

verus! {

/// The block size and block count for moving `amount` bytes: one block when
/// it is under 512 bytes; else blocks of 512 bytes when they divide it;
/// else blocks of the largest size up to 511 that divides it. The count is
/// capped at `u32::MAX`.
pub fn calculate_ideal_block_size_count(amount: usize) -> (r: (u32, u32))
    ensures
        amount < 512 ==> r == (amount as u32, 1u32),
        amount >= 512 && amount % 512 == 0 ==> r == (512u32, if amount / 512 > u32::MAX {
            u32::MAX
        } else {
            (amount / 512) as u32
        }),
        amount >= 512 && amount % 512 != 0 ==> {
            &&& 1 <= r.0 <= 511
            &&& (amount as int) % (r.0 as int) == 0
            &&& forall|c: int| r.0 < c <= 511 ==> #[trigger] ((amount as int) % c) != 0
            &&& r.1 == if (amount as int) / (r.0 as int) > u32::MAX {
                u32::MAX
            } else {
                ((amount as int) / (r.0 as int)) as u32
            }
        },
{
    if amount < 512 {
        (amount as u32, 1)
    } else if amount % 512 == 0 {
        let n = amount / 512;
        (512, if n > u32::MAX as usize {
            u32::MAX
        } else {
            n as u32
        })
    } else {
        let mut count: usize = 511;
        while amount % count != 0
            invariant
                1 <= count <= 511,
                forall|c: int| count < c <= 511 ==> #[trigger] ((amount as int) % c) != 0,
            decreases count,
        {
            assert(amount % 1 == 0);
            count = count - 1;
        }
        let n = amount / count;
        (count as u32, if n > u32::MAX as usize {
            u32::MAX
        } else {
            n as u32
        })
    }
}

/// The sizes of the fast file reads that fetch `left` bytes, each at most
/// `step` bytes: full steps, then what remains.
pub open spec fn read_sizes(left: nat, step: nat) -> Seq<u32>
    decreases left,
{
    if left == 0 || step == 0 {
        seq![]
    } else if left <= step {
        seq![left as u32]
    } else {
        seq![step as u32] + read_sizes((left - step) as nat, step)
    }
}

/// The sum of `s`.
pub open spec fn total(s: Seq<u32>) -> nat
    decreases s.len(),
{
    if s.len() == 0 {
        0
    } else {
        s[0] as nat + total(s.subrange(1, s.len() as int))
    }
}

/// Law: the fast file reads of a read fetch exactly the bytes asked for,
/// none of them empty and none over the step.
pub proof fn lemma_read_sizes_cover(left: nat, step: nat)
    requires
        step > 0,
        left <= u32::MAX,
        step <= u32::MAX,
    ensures
        total(read_sizes(left, step)) == left,
        forall|i: int|
            0 <= i < read_sizes(left, step).len() ==> 0 < #[trigger] read_sizes(left, step)[i] <= step,
    decreases left,
{
    let s = read_sizes(left, step);
    if left == 0 {
    } else if left <= step {
        assert(s.subrange(1, 1) =~= Seq::<u32>::empty());
        assert(total(Seq::<u32>::empty()) == 0);
        assert(s[0] == left);
    } else {
        let rest = read_sizes((left - step) as nat, step);
        lemma_read_sizes_cover((left - step) as nat, step);
        assert(s.subrange(1, s.len() as int) =~= rest);
        assert(s[0] == step);
        assert forall|i: int| 0 <= i < s.len() implies 0 < #[trigger] s[i] <= step by {
            if i > 0 {
                assert(s[i] == rest[i - 1]);
            }
        }
    }
}

/// The bytes a single fast file read may ask for: under the first read
/// size, by the 37 bytes a reply adds.
pub open spec fn read_step(first_read_size: u32) -> nat {
    (first_read_size - 0x25) as nat
}

/// The sizes of the fast file reads that fetch `block_size * block_count`
/// bytes, for a connection whose first read size is `first_read_size`.
pub fn ffio_read_sizes(block_size: u32, block_count: u32, first_read_size: u32) -> (r: Vec<u32>)
    requires
        block_size * block_count <= u32::MAX,
        first_read_size > 0x25,
    ensures
        r@ == read_sizes((block_size * block_count) as nat, read_step(first_read_size)),
{
    let mut left: u32 = block_size * block_count;
    let step: u32 = first_read_size - 0x25;
    let mut sizes: Vec<u32> = Vec::new();
    while left > 0
        invariant
            step == read_step(first_read_size),
            step > 0,
            sizes@ + read_sizes(left as nat, step as nat) == read_sizes(
                (block_size * block_count) as nat,
                step as nat,
            ),
        decreases left,
    {
        let this_go = if left < step {
            left
        } else {
            step
        };
        let ghost before = sizes@;
        sizes.push(this_go);
        proof {
            if left <= step {
                assert(read_sizes((left - this_go) as nat, step as nat) =~= Seq::<u32>::empty());
            }
            assert(sizes@ + read_sizes((left - this_go) as nat, step as nat) =~= before
                + read_sizes(left as nat, step as nat));
        }
        left = left - this_go;
    }
    assert(sizes@ + read_sizes(0, step as nat) =~= sizes@);
    sizes
}

/// Take in the reply to one fast file read: past its 32 byte header, the
/// first reply that reports a size gives the file's size in its next four
/// bytes, and everything after is file data.
pub fn absorb_read_reply(file_size: u32, body: &[u8], data: &mut Vec<u8>) -> (r: u32)
    requires
        body@.len() >= 0x20,
        file_size == 0 ==> body@.len() >= 0x24,
    ensures
        file_size != 0 ==> r == file_size && final(data)@ == old(data)@ + body@.subrange(
            0x20,
            body@.len() as int,
        ),
        file_size == 0 ==> r == u32_at(body@, 0x20) && final(data)@ == old(data)@ + body@.subrange(
            0x24,
            body@.len() as int,
        ),
{
    if file_size == 0 {
        let size = read_u32(body, 0x20);
        put_bytes(data, &body[0x24..body.len()]);
        size
    } else {
        put_bytes(data, &body[0x20..body.len()]);
        file_size
    }
}

} // verus!
