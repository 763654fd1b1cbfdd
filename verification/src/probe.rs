//! The computations that the substrate probes time and that the threats
//! run: a pointer chase across a one-mebibyte buffer, a touched allocation,
//! and a burst of random byte increments over a large buffer.
use vstd::prelude::*;
use vstd::arithmetic::div_mod::{lemma_add_mod_noop, lemma_small_mod, lemma_mod_sub_multiples_vanish};

verus! {

/// Size of the pointer-chase buffer.
pub const CHASE_BUFFER_BYTES: usize = 1048576;

/// Size of a cache line.
pub const CACHE_LINE_BYTES: usize = 64;

/// Hops of one memory probe: six passes over every cache line.
pub const CHASE_HOPS: usize = 98304;

/// Size of one allocation of the allocator probe.
pub const ALLOC_BLOCK_BYTES: usize = 65536;

/// Distance between the bytes the allocator probe touches.
pub const PAGE_BYTES: usize = 4096;

/// Multiplier of the cache-thrash index generator.
pub const THRASH_MULTIPLIER: usize = 1103515245;

/// Increment of the cache-thrash index generator.
pub const THRASH_INCREMENT: usize = 12345;

/// The byte at position `i` of the chase buffer: at the start of each cache
/// line, the low byte of the next line's offset (wrapping to the start);
/// zero elsewhere.
pub open spec fn chase_byte(i: int) -> u8 {
    if i % 64 == 0 {
        (((i + 64) % (CHASE_BUFFER_BYTES as int)) % 256) as u8
    } else {
        0
    }
}

pub open spec fn is_chase_buffer(buf: Seq<u8>) -> bool {
    &&& buf.len() == CHASE_BUFFER_BYTES
    &&& forall|i: int| 0 <= i < buf.len() ==> #[trigger] buf[i] == chase_byte(i)
}

proof fn lemma_low_byte(x: usize)
    ensures
        x & 0xFFusize == x % 256,
{
    assert(x & 0xFFusize == x % 256) by (bit_vector);
}

/// Builds the chase buffer: zeroes, with each cache line's first byte
/// holding the low byte of the next line's offset.
pub fn chase_buffer() -> (buf: Vec<u8>)
    ensures
        is_chase_buffer(buf@),
{
    let mut buf: Vec<u8> = vec![0u8; CHASE_BUFFER_BYTES];
    let mut line: usize = 0;
    while line < CHASE_BUFFER_BYTES
        invariant
            line % 64 == 0,
            line <= CHASE_BUFFER_BYTES,
            buf@.len() == CHASE_BUFFER_BYTES,
            forall|j: int| 0 <= j < line ==> #[trigger] buf@[j] == chase_byte(j),
            forall|j: int| line <= j < CHASE_BUFFER_BYTES ==> #[trigger] buf@[j] == 0u8,
        decreases CHASE_BUFFER_BYTES - line,
    {
        let next = (line + CACHE_LINE_BYTES) % CHASE_BUFFER_BYTES;
        proof {
            lemma_low_byte(next);
        }
        buf.set(line, (next & 0xFF) as u8);
        line = line + CACHE_LINE_BYTES;
    }
    buf
}

proof fn lemma_chase_bits(idx: usize, y: usize)
    requires
        idx < 0x10_0000usize,
        idx & 63usize == 0,
        y == idx + 64,
    ensures
        ((((y % 0x10_0000usize) & 0xFFusize) | (y & !0xFFusize)) % 0x10_0000usize) & !63usize
            == y % 0x10_0000usize,
{
    assert(((((y % 0x10_0000usize) & 0xFFusize) | (y & !0xFFusize)) % 0x10_0000usize) & !63usize
        == y % 0x10_0000usize) by (bit_vector)
        requires
            idx < 0x10_0000usize,
            idx & 63usize == 0,
            y == idx + 64,
    ;
}

/// One hop of the chase from the cache line at `idx`: combine the byte
/// stored there with the high bits of the next line's offset, wrap and
/// align. It lands on the next cache line, wrapping to the start.
pub fn chase_step(buf: &Vec<u8>, idx: usize) -> (next: usize)
    requires
        is_chase_buffer(buf@),
        idx < CHASE_BUFFER_BYTES,
        idx % 64 == 0,
    ensures
        next == (idx + 64) % (CHASE_BUFFER_BYTES as int),
        next < CHASE_BUFFER_BYTES,
        next % 64 == 0,
{
    let y = idx + CACHE_LINE_BYTES;
    proof {
        assert(idx & 63usize == idx % 64) by (bit_vector);
        lemma_low_byte(y % CHASE_BUFFER_BYTES);
        lemma_chase_bits(idx, y);
        assert(buf@[idx as int] == chase_byte(idx as int));
    }
    let b = buf[idx] as usize;
    let mut next = (b | (y & !0xFFusize)) % CHASE_BUFFER_BYTES;
    next = next & !(CACHE_LINE_BYTES - 1);
    proof {
        if y < CHASE_BUFFER_BYTES {
            lemma_small_mod(y as nat, CHASE_BUFFER_BYTES as nat);
        } else {
            assert(y == CHASE_BUFFER_BYTES);
        }
    }
    next
}

/// Chases `hops` hops from offset zero. The chase visits the cache lines in
/// order, wrapping at the end of the buffer, so it ends on line `hops`
/// modulo the number of lines.
pub fn chase(buf: &Vec<u8>, hops: usize) -> (idx: usize)
    requires
        is_chase_buffer(buf@),
    ensures
        idx == (hops * 64) % (CHASE_BUFFER_BYTES as int),
{
    let mut idx: usize = 0;
    let mut k: usize = 0;
    while k < hops
        invariant
            k <= hops,
            is_chase_buffer(buf@),
            idx == (k * 64) % (CHASE_BUFFER_BYTES as int),
            idx < CHASE_BUFFER_BYTES,
            idx % 64 == 0,
        decreases hops - k,
    {
        let next = chase_step(buf, idx);
        proof {
            let s = CHASE_BUFFER_BYTES as int;
            lemma_add_mod_noop(k * 64, 64, s);
            lemma_small_mod(64, s as nat);
            assert((k + 1) * 64 == k * 64 + 64) by (nonlinear_arith);
        }
        idx = next;
        k = k + 1;
    }
    idx
}

/// A fresh 64 KiB block with one byte per page set to one, the work of one
/// round of the allocator probe.
pub fn touched_block() -> (block: Vec<u8>)
    ensures
        block@.len() == ALLOC_BLOCK_BYTES,
        forall|i: int|
            0 <= i < ALLOC_BLOCK_BYTES ==> #[trigger] block@[i] == (if page_start(i) {
                1u8
            } else {
                0u8
            }),
{
    let mut block: Vec<u8> = vec![0u8; ALLOC_BLOCK_BYTES];
    touch_pages(&mut block);
    block
}

/// Position `i` starts a page.
pub open spec fn page_start(i: int) -> bool {
    i % (PAGE_BYTES as int) == 0
}

/// Sets the first byte of every page of a buffer to one.
pub fn touch_pages(buf: &mut Vec<u8>)
    ensures
        final(buf)@.len() == old(buf)@.len(),
        forall|i: int|
            0 <= i < old(buf)@.len() ==> #[trigger] final(buf)@[i] == (if page_start(i) {
                1u8
            } else {
                old(buf)@[i]
            }),
{
    let len = buf.len();
    let ghost before = buf@;
    let mut i: usize = 0;
    while i < len
        invariant
            len == before.len(),
            buf@.len() == len,
            i <= len,
            i < len ==> i % PAGE_BYTES == 0,
            forall|j: int|
                0 <= j < i ==> #[trigger] buf@[j] == (if page_start(j) {
                    1u8
                } else {
                    before[j]
                }),
            forall|j: int| i <= j < len ==> #[trigger] buf@[j] == before[j],
        decreases len - i,
    {
        buf.set(i, 1u8);
        if len - i > PAGE_BYTES {
            proof {
                assert forall|j: int| i < j < i + PAGE_BYTES implies !#[trigger] page_start(j) by {
                    vstd::arithmetic::div_mod::lemma_mod_add_multiples_vanish(j - i, PAGE_BYTES as int);
                    lemma_small_mod((j - i) as nat, PAGE_BYTES as nat);
                    assert(j == PAGE_BYTES * ((i / PAGE_BYTES) as int) + (j - i));
                    vstd::arithmetic::div_mod::lemma_mod_multiples_vanish((i / PAGE_BYTES) as int, j - i, PAGE_BYTES as int);
                }
                assert((i + PAGE_BYTES) % (PAGE_BYTES as int) == 0) by {
                    vstd::arithmetic::div_mod::lemma_mod_add_multiples_vanish(i as int, PAGE_BYTES as int);
                }
            }
            i = i + PAGE_BYTES;
        } else {
            proof {
                assert forall|j: int| i < j < len implies !#[trigger] page_start(j) by {
                    lemma_small_mod((j - i) as nat, PAGE_BYTES as nat);
                    assert(j == PAGE_BYTES * ((i / PAGE_BYTES) as int) + (j - i));
                    vstd::arithmetic::div_mod::lemma_mod_multiples_vanish((i / PAGE_BYTES) as int, j - i, PAGE_BYTES as int);
                }
            }
            i = len;
        }
    }
}

/// Number of values a `usize` holds.
pub open spec fn usize_modulus() -> nat {
    usize::MAX as nat + 1
}

/// The next index of the cache-thrash generator over a buffer of `len` bytes.
pub open spec fn thrash_next(idx: usize, len: nat) -> usize {
    (((idx as nat * THRASH_MULTIPLIER as nat + THRASH_INCREMENT as nat) % usize_modulus()) % len)
        as usize
}

/// The buffer and the index after `rounds` increments of the thrash.
pub open spec fn thrashed(data: Seq<u8>, idx: usize, rounds: nat) -> (Seq<u8>, usize)
    decreases rounds,
{
    if rounds == 0 {
        (data, idx)
    } else {
        let (d, i) = thrashed(data, idx, (rounds - 1) as nat);
        let j = thrash_next(i, d.len());
        (d.update(j as int, ((d[j as int] + 1) % 256) as u8), j)
    }
}

proof fn lemma_thrashed_len(data: Seq<u8>, idx: usize, rounds: nat)
    requires
        data.len() > 0,
    ensures
        thrashed(data, idx, rounds).0.len() == data.len(),
        rounds > 0 ==> thrashed(data, idx, rounds).1 < data.len(),
    decreases rounds,
{
    if rounds > 0 {
        lemma_thrashed_len(data, idx, (rounds - 1) as nat);
    }
}

/// One round of the thrash index generator, with wrapping arithmetic.
fn thrash_index(idx: usize, len: usize) -> (next: usize)
    requires
        len > 0,
    ensures
        next == thrash_next(idx, len as nat),
        next < len,
{
    let product = idx.wrapping_mul(THRASH_MULTIPLIER);
    let sum = product.wrapping_add(THRASH_INCREMENT);
    proof {
        let m = usize_modulus() as int;
        let full = idx as int * THRASH_MULTIPLIER as int;
        assert(product as int == full % m);
        lemma_add_mod_noop(full, THRASH_INCREMENT as int, m);
        lemma_small_mod(THRASH_INCREMENT as nat, m as nat);
        if product as int + THRASH_INCREMENT as int > usize::MAX as int {
            lemma_mod_sub_multiples_vanish(product as int + THRASH_INCREMENT as int, m);
            lemma_small_mod((product as int + THRASH_INCREMENT as int - m) as nat, m as nat);
        } else {
            lemma_small_mod((product as int + THRASH_INCREMENT as int) as nat, m as nat);
        }
    }
    sum % len
}

/// `rounds` rounds of the cache thrash from index `idx`: each round moves
/// the index with the generator and adds one, wrapping, to the byte there.
/// Returns the last index, which lies inside the buffer.
pub fn thrash_burst(data: &mut Vec<u8>, idx: usize, rounds: u32) -> (last: usize)
    requires
        old(data)@.len() > 0,
    ensures
        (final(data)@, last) == thrashed(old(data)@, idx, rounds as nat),
        rounds > 0 ==> last < old(data)@.len(),
{
    let len = data.len();
    let ghost before = data@;
    let mut i = idx;
    let mut r: u32 = 0;
    while r < rounds
        invariant
            r <= rounds,
            len == before.len(),
            len > 0,
            (data@, i) == thrashed(before, idx, r as nat),
            data@.len() == len,
        decreases rounds - r,
    {
        i = thrash_index(i, len);
        let v = data[i];
        data.set(i, v.wrapping_add(1));
        proof {
            lemma_thrashed_len(before, idx, r as nat);
        }
        r = r + 1;
    }
    proof {
        lemma_thrashed_len(before, idx, rounds as nat);
    }
    i
}

} // verus!
