//! The allocation step of the kernel heap: a fixed arena handed out from the
//! top down, never given back.
use vstd::prelude::*;

verus! {

/// Size of the heap arena in bytes.
pub const ARENA_SIZE: usize = 128 * 1024;

/// The largest alignment the arena serves.
pub const MAX_SUPPORTED_ALIGN: usize = 4096;

/// `align` is a power of two.
pub open spec fn power_of_two(align: usize) -> bool {
    align > 0 && align & ((align - 1) as usize) == 0
}

/// One allocation of `size` bytes aligned to `align` below the `remaining`
/// free bytes at the bottom of the arena: the block starts at the highest
/// aligned offset that leaves room for it, and that offset is also the new
/// number of free bytes; `None` when the alignment is too large or the block
/// does not fit.
pub open spec fn arena_step(remaining: usize, size: usize, align: usize) -> Option<usize> {
    if align > MAX_SUPPORTED_ALIGN || size > remaining {
        None
    } else {
        Some(((remaining - size) as usize & !((align - 1) as usize)) as usize)
    }
}

/// Facts about one step: the block fits below `remaining`, it is aligned,
/// and less than `align` bytes are skipped for alignment.
pub proof fn lemma_step_facts(remaining: usize, size: usize, align: usize)
    requires
        power_of_two(align),
        arena_step(remaining, size, align) is Some,
    ensures
        arena_step(remaining, size, align).unwrap() + size <= remaining,
        arena_step(remaining, size, align).unwrap() & ((align - 1) as usize) == 0,
        remaining - size - arena_step(remaining, size, align).unwrap() < align,
{
    let x = (remaining - size) as usize;
    let a = align;
    assert(x & !((a - 1) as usize) <= x) by (bit_vector);
    assert(a > 0 && a & (a - 1) as usize == 0 ==> (x & !((a - 1) as usize)) & (a - 1) as usize == 0) by (bit_vector);
    assert(a > 0 && a & (a - 1) as usize == 0 ==> x - (x & !((a - 1) as usize)) < a) by (bit_vector);
}

/// Allocates `size` bytes aligned to `align` (a power of two) below the
/// `remaining` bytes still free at the bottom of the arena; see `arena_step`.
pub fn arena_allocation(remaining: usize, size: usize, align: usize) -> (r: Option<usize>)
    requires
        power_of_two(align),
    ensures
        r == arena_step(remaining, size, align),
        r is None <==> align > MAX_SUPPORTED_ALIGN || size > remaining,
        r matches Some(o) ==> o + size <= remaining && o & ((align - 1) as usize) == 0,
        r matches Some(o) ==> remaining - size - o < align,
{
    let align_mask_to_round_down = !(align - 1);
    if align > MAX_SUPPORTED_ALIGN {
        return None;
    }
    if size > remaining {
        return None;
    }
    let mut allocated = remaining - size;
    allocated = allocated & align_mask_to_round_down;
    proof {
        lemma_step_facts(remaining, size, align);
    }
    Some(allocated)
}

/// An allocation is refused only when the alignment is larger than the
/// arena serves or the block is larger than the free space; otherwise it
/// succeeds, with the highest aligned block below the free space's end (it
/// fits, it is aligned, and less than `align` bytes are left above it).
pub proof fn lemma_arena_refuses_only_what_cannot_fit(remaining: usize, size: usize, align: usize)
    requires
        power_of_two(align),
    ensures
        arena_step(remaining, size, align) is None <==> align > MAX_SUPPORTED_ALIGN || size > remaining,
        align <= MAX_SUPPORTED_ALIGN && size <= remaining ==> {
            let o = arena_step(remaining, size, align).unwrap();
            &&& o + size <= remaining
            &&& o & ((align - 1) as usize) == 0
            &&& remaining - size - o < align
        },
{
    if align <= MAX_SUPPORTED_ALIGN && size <= remaining {
        lemma_step_facts(remaining, size, align);
    }
}

/// Two allocations in a row hand out blocks that do not overlap: the later
/// block ends where the earlier one starts, or below; both lie inside the
/// arena when the free space started inside it.
pub proof fn lemma_successive_allocations_disjoint(remaining: usize, s1: usize, a1: usize, s2: usize, a2: usize)
    requires
        remaining <= ARENA_SIZE,
        power_of_two(a1),
        power_of_two(a2),
        arena_step(remaining, s1, a1) is Some,
        arena_step(arena_step(remaining, s1, a1).unwrap(), s2, a2) is Some,
    ensures
        ({
            let o1 = arena_step(remaining, s1, a1).unwrap();
            let o2 = arena_step(o1, s2, a2).unwrap();
            &&& o1 + s1 <= remaining <= ARENA_SIZE
            &&& o2 + s2 <= o1
        }),
{
    let o1 = arena_step(remaining, s1, a1).unwrap();
    lemma_step_facts(remaining, s1, a1);
    lemma_step_facts(o1, s2, a2);
}

} // verus!
