use vstd::prelude::*;
use vstd::arithmetic::power2::{pow2, lemma_pow2_pos, lemma_pow2_unfold, lemma_pow2_strictly_increases};
use vstd::bits::{lemma_usize_shl_is_mul, lemma_usize_pow2_no_overflow};

verus! {

/// Number of free lists; list `n` holds blocks of `2^(n + 3)` bytes.
pub const BIN_COUNT: usize = 20;

// ---------------------------------------------------------------------
// Address arithmetic
// ---------------------------------------------------------------------

/// The greatest multiple of `align` that is at most `addr`.
pub open spec fn align_down_spec(addr: int, align: int) -> int {
    addr - addr % align
}

/// The least multiple of `align` that is at least `addr`.
pub open spec fn align_up_spec(addr: int, align: int) -> int {
    if addr % align == 0 {
        addr
    } else {
        addr - addr % align + align
    }
}

/// Both roundings land on multiples of `align`, on the proper side of `addr`.
pub proof fn lemma_align_spec(addr: int, align: int)
    requires
        align > 0,
        addr >= 0,
    ensures
        align_down_spec(addr, align) % align == 0,
        align_up_spec(addr, align) % align == 0,
        0 <= align_down_spec(addr, align) <= addr,
        addr <= align_up_spec(addr, align) < addr + align,
{
    vstd::arithmetic::div_mod::lemma_fundamental_div_mod(addr, align);
    let q = addr / align;
    vstd::arithmetic::mul::lemma_mul_is_commutative(q, align);
    assert(addr - addr % align == q * align);
    vstd::arithmetic::div_mod::lemma_mod_multiples_basic(q, align);
    assert(q * align + align == (q + 1) * align) by (nonlinear_arith);
    vstd::arithmetic::div_mod::lemma_mod_multiples_basic(q + 1, align);
}

/// Rounds `addr` down to a multiple of `align`.
pub fn align_down(addr: usize, align: usize) -> (r: usize)
    requires
        align > 0,
    ensures
        r == align_down_spec(addr as int, align as int),
{
    assert(addr % align <= addr) by (nonlinear_arith)
        requires
            align > 0,
    ;
    addr - addr % align
}

/// Rounds `addr` up to a multiple of `align`; the result must be addressable.
pub fn align_up(addr: usize, align: usize) -> (r: usize)
    requires
        align > 0,
        align_up_spec(addr as int, align as int) <= usize::MAX,
    ensures
        r == align_up_spec(addr as int, align as int),
{
    let rem = addr % align;
    assert(addr % align <= addr) by (nonlinear_arith)
        requires
            align > 0,
    ;
    if rem == 0 {
        addr
    } else {
        addr - rem + align
    }
}

/// Whether `ptr` is a multiple of `align`.
fn is_aligned(ptr: usize, align: usize) -> (r: bool)
    requires
        align > 0,
    ensures
        r <==> ptr % align == 0,
{
    ptr % align == 0
}

// ---------------------------------------------------------------------
// Sizes and bins
// ---------------------------------------------------------------------

/// The floor of the base-two logarithm of a positive number.
pub open spec fn log2_floor(n: nat) -> nat
    decreases n,
{
    if n <= 1 {
        0
    } else {
        1 + log2_floor(n / 2)
    }
}

proof fn lemma_log2_floor_bounds(n: nat)
    requires
        n >= 1,
    ensures
        pow2(log2_floor(n)) <= n < pow2(log2_floor(n) + 1),
    decreases n,
{
    if n <= 1 {
        vstd::arithmetic::power2::lemma2_to64();
    } else {
        lemma_log2_floor_bounds(n / 2);
        lemma_pow2_unfold(log2_floor(n / 2) + 1);
        lemma_pow2_unfold(log2_floor(n / 2) + 2);
    }
}

proof fn lemma_log2_floor_lt_bits(n: usize)
    requires
        n > 0,
    ensures
        log2_floor(n as nat) < usize::BITS,
{
    lemma_log2_floor_bounds(n as nat);
    lemma_usize_bits();
    let l = log2_floor(n as nat);
    if l > usize::BITS {
        lemma_pow2_strictly_increases(usize::BITS as nat, l);
    }
}

/// `Some(floor(log2(number)))`, and `None` for zero.
fn log_two(number: usize) -> (r: Option<usize>)
    ensures
        number == 0 ==> r is None,
        number > 0 ==> r == Some(log2_floor(number as nat) as usize),
        number > 0 ==> log2_floor(number as nat) < usize::BITS,
    decreases number,
{
    if number == 0 {
        None
    } else if number == 1 {
        Some(0)
    } else {
        let below = log_two(number / 2);
        match below {
            Some(l) => {
                proof {
                    lemma_log2_floor_lt_bits(number);
                }
                Some(l + 1)
            },
            None => None,
        }
    }
}

/// The size in bytes of the blocks of bin `bin`.
pub open spec fn bin_size_spec(bin: nat) -> nat {
    pow2(bin + 3)
}

/// The bin that a request of `size` bytes is served from: the smallest bin
/// whose blocks hold `size` bytes.
pub open spec fn bin_of_size(size: nat) -> nat {
    if size <= 8 {
        0
    } else if size == pow2(log2_floor(size)) {
        (log2_floor(size) - 3) as nat
    } else {
        (log2_floor(size) - 2) as nat
    }
}

/// The address space is exactly `usize::BITS` bits wide.
proof fn lemma_usize_bits()
    ensures
        pow2(usize::BITS as nat) == usize::MAX as nat + 1,
{
    vstd::arithmetic::power2::lemma2_to64();
    vstd::arithmetic::power2::lemma2_to64_rest();
}

/// `1 << n` is the `n`th power of two while it fits.
proof fn lemma_shl_one(n: usize)
    requires
        n < usize::BITS,
    ensures
        (1usize << n) == pow2(n as nat),
        pow2(n as nat) < usize::MAX,
{
    lemma_usize_pow2_no_overflow(n as nat);
    lemma_usize_shl_is_mul(1, n);
}

/// The size in bytes of the blocks of bin `bin`.
fn bin_size(bin: usize) -> (r: usize)
    requires
        bin + 3 < usize::BITS,
    ensures
        r == bin_size_spec(bin as nat),
{
    proof {
        lemma_shl_one((3 + bin) as usize);
    }
    1 << (3 + bin)
}

/// The bin that serves a request of `size` bytes.
fn size_to_bin(size: usize) -> (r: Option<usize>)
    ensures
        r == Some(bin_of_size(size as nat) as usize),
        bin_of_size(size as nat) < usize::BITS,
{
    if size <= 8 {
        return Some(0);
    }
    proof {
        lemma_log2_floor_lt_bits(size);
    }
    let log = match log_two(size) {
        Some(l) => l,
        None => return None,
    };
    proof {
        lemma_log2_floor_bounds(size as nat);
        vstd::arithmetic::power2::lemma2_to64();
        if log < 3 {
            if log < 2 {
                lemma_pow2_strictly_increases((log + 1) as nat, 3);
            }
        }
        lemma_shl_one(log);
    }
    if size == 1 << log {
        Some(log - 3)
    } else {
        Some(log - 2)
    }
}

/// The bin chosen for a request is the smallest whose blocks hold the
/// whole request.
pub proof fn lemma_bin_of_size_is_smallest_fit(size: nat)
    ensures
        bin_size_spec(bin_of_size(size)) >= size,
        bin_of_size(size) > 0 ==> bin_size_spec((bin_of_size(size) - 1) as nat) < size,
{
    vstd::arithmetic::power2::lemma2_to64();
    if size > 8 {
        let l = log2_floor(size);
        lemma_log2_floor_bounds(size);
        if l < 3 {
            if l < 2 {
                lemma_pow2_strictly_increases(l + 1, 3);
            }
        }
        if size == pow2(l) {
            if l > 3 {
                lemma_pow2_strictly_increases((l - 1) as nat, l);
            }
        } else {
            lemma_pow2_unfold(l + 1);
        }
    }
}

// ---------------------------------------------------------------------
// Blocks and buddies
// ---------------------------------------------------------------------

/// A free block of bin `bin` starts at a multiple of its size and ends
/// inside the address space.
pub open spec fn block_ok(b: int, bin: nat) -> bool {
    &&& b >= 0
    &&& b % (bin_size_spec(bin) as int) == 0
    &&& b + bin_size_spec(bin) <= usize::MAX as int + 1
}

/// The buddy of the block at `ptr` in bin `bin`: the other half of the
/// block of twice the size that contains it.
pub open spec fn buddy_of(ptr: int, bin: nat) -> int {
    let size = bin_size_spec(bin) as int;
    if ptr % (2 * size) == 0 {
        ptr + size
    } else {
        ptr - size
    }
}

/// Bin sizes double from one bin to the next, and every bin size divides
/// the size of the address space.
proof fn lemma_bin_sizes(bin: nat)
    requires
        bin < BIN_COUNT,
    ensures
        8 <= bin_size_spec(bin) <= 0x400000,
        bin_size_spec(bin + 1) == 2 * bin_size_spec(bin),
        (usize::MAX as int + 1) % (2 * bin_size_spec(bin) as int) == 0,
{
    lemma_pow2_unfold(bin + 4);
    vstd::arithmetic::power2::lemma2_to64();
    if bin > 0 {
        lemma_pow2_strictly_increases(3, bin + 3);
    }
    if bin + 3 < 22 {
        lemma_pow2_strictly_increases(bin + 3, 22);
    }
    lemma_usize_bits();
    let rest = (usize::BITS - bin - 4) as nat;
    assert(bin + 4 + rest == usize::BITS as nat);
    vstd::arithmetic::power2::lemma_pow2_adds(bin + 4, rest);
    vstd::arithmetic::mul::lemma_mul_is_commutative(pow2(rest) as int, pow2(bin + 4) as int);
    vstd::arithmetic::div_mod::lemma_mod_multiples_basic(pow2(rest) as int, pow2(bin + 4) as int);
    assert(2 * bin_size_spec(bin) == pow2(bin + 4));
}

/// Facts about a block and its buddy used by splitting and merging.
proof fn lemma_buddy_arith(ptr: int, size: int, top: int)
    requires
        size > 0,
        ptr >= 0,
        ptr % size == 0,
        ptr + size <= top,
        top % (2 * size) == 0,
    ensures
        ptr % (2 * size) == 0 ==> ptr + 2 * size <= top,
        ptr % (2 * size) != 0 ==> ptr >= size && (ptr - size) % (2 * size) == 0,
{
    let q = ptr / size;
    vstd::arithmetic::div_mod::lemma_fundamental_div_mod(ptr, size);
    assert(ptr == size * q);
    let t = top / (2 * size);
    vstd::arithmetic::div_mod::lemma_fundamental_div_mod(top, 2 * size);
    assert(top == 2 * size * t);
    if ptr % (2 * size) == 0 {
        let p = ptr / (2 * size);
        vstd::arithmetic::div_mod::lemma_fundamental_div_mod(ptr, 2 * size);
        assert(ptr == 2 * size * p);
        assert(2 * size * p + size <= 2 * size * t);
        assert(p < t) by (nonlinear_arith)
            requires
                2 * size * p + size <= 2 * size * t,
                size > 0,
        ;
        assert(2 * size * p + 2 * size <= 2 * size * t) by (nonlinear_arith)
            requires
                p < t,
                size > 0,
        ;
    } else {
        assert(q % 2 == 1) by (nonlinear_arith)
            requires
                ptr == size * q,
                ptr % (2 * size) != 0,
                size > 0,
        {
            if q % 2 == 0 {
                let h = q / 2;
                assert(ptr == (2 * size) * h);
                vstd::arithmetic::div_mod::lemma_mod_multiples_basic(h, 2 * size);
            }
        };
        assert(q >= 1);
        assert(ptr >= size) by (nonlinear_arith)
            requires
                ptr == size * q,
                q >= 1,
                size > 0,
        ;
        assert(ptr - size == (2 * size) * ((q - 1) / 2)) by (nonlinear_arith)
            requires
                ptr == size * q,
                q % 2 == 1,
        ;
        vstd::arithmetic::mul::lemma_mul_is_commutative(2 * size, (q - 1) / 2);
        vstd::arithmetic::div_mod::lemma_mod_multiples_basic((q - 1) / 2, 2 * size);
    }
}

/// A multiple of twice a size is a multiple of the size.
proof fn lemma_mod_double(x: int, size: int)
    requires
        size > 0,
        x % (2 * size) == 0,
    ensures
        x % size == 0,
{
    vstd::arithmetic::div_mod::lemma_fundamental_div_mod(x, 2 * size);
    let p = x / (2 * size);
    assert(x == size * (2 * p)) by (nonlinear_arith)
        requires
            x == (2 * size) * p + x % (2 * size),
            x % (2 * size) == 0,
    ;
    assert(x == (2 * p) * size);
    vstd::arithmetic::div_mod::lemma_mod_multiples_basic(2 * p, size);
}

/// The address of the buddy of the block at `ptr` in bin `bin`.
fn buddy(ptr: usize, bin: usize) -> (r: usize)
    requires
        bin < BIN_COUNT,
        block_ok(ptr as int, bin as nat),
    ensures
        r == buddy_of(ptr as int, bin as nat),
{
    let bin_size = bin_size(bin);
    proof {
        lemma_bin_sizes(bin as nat);
        lemma_buddy_arith(ptr as int, bin_size as int, usize::MAX as int + 1);
    }
    if is_aligned(ptr, bin_size * 2) {
        ptr + bin_size
    } else {
        ptr - bin_size
    }
}

// ---------------------------------------------------------------------
// Free lists
// ---------------------------------------------------------------------

/// The contents of the free lists, head first.
pub open spec fn lists_of(bins: Seq<Vec<usize>>) -> Seq<Seq<usize>> {
    Seq::new(bins.len(), |k: int| bins[k]@)
}

/// Every free list exists and holds only well-placed blocks of its bin.
pub open spec fn bins_wf(bins: Seq<Seq<usize>>) -> bool {
    &&& bins.len() == BIN_COUNT
    &&& forall|k: int, j: int|
        0 <= k < BIN_COUNT && 0 <= j < bins[k].len() ==> #[trigger] block_ok(
            bins[k][j] as int,
            k as nat,
        )
}

/// Pushes `addr` on the front of free list `bin`.
fn push_front(bins: &mut Vec<Vec<usize>>, bin: usize, addr: usize)
    requires
        bin < old(bins).len(),
    ensures
        final(bins).len() == old(bins).len(),
        lists_of(final(bins)@) == lists_of(old(bins)@).update(
            bin as int,
            seq![addr] + lists_of(old(bins)@)[bin as int],
        ),
{
    let mut list: Vec<usize> = Vec::new();
    bins.set_and_swap(bin, &mut list);
    assert(list@ == old(bins)@[bin as int]@);
    list.insert(0, addr);
    assert(list@ =~= seq![addr] + old(bins)@[bin as int]@);
    bins.set_and_swap(bin, &mut list);
    assert(bins@[bin as int]@ == seq![addr] + old(bins)@[bin as int]@);
    assert(lists_of(bins@) =~= lists_of(old(bins)@).update(
        bin as int,
        seq![addr] + lists_of(old(bins)@)[bin as int],
    ));
}

/// Removes the entry at `index` of free list `bin` and returns it.
fn remove_at(bins: &mut Vec<Vec<usize>>, bin: usize, index: usize) -> (r: usize)
    requires
        bin < old(bins).len(),
        index < old(bins)@[bin as int].len(),
    ensures
        final(bins).len() == old(bins).len(),
        r == lists_of(old(bins)@)[bin as int][index as int],
        lists_of(final(bins)@) == lists_of(old(bins)@).update(
            bin as int,
            lists_of(old(bins)@)[bin as int].remove(index as int),
        ),
{
    let mut list: Vec<usize> = Vec::new();
    bins.set_and_swap(bin, &mut list);
    let r = list.remove(index);
    bins.set_and_swap(bin, &mut list);
    assert(lists_of(bins@) =~= lists_of(old(bins)@).update(
        bin as int,
        lists_of(old(bins)@)[bin as int].remove(index as int),
    ));
    r
}

/// `count` consecutive blocks of `size` bytes from `base`, pushed on the
/// front of `list` in increasing order (so the last one ends up first).
pub open spec fn push_blocks(list: Seq<usize>, base: int, size: int, count: nat) -> Seq<usize>
    decreases count,
{
    if count == 0 {
        list
    } else {
        seq![(base + (count - 1) * size) as usize] + push_blocks(
            list,
            base,
            size,
            (count - 1) as nat,
        )
    }
}

/// Carving `[start, end)` from bin `bin` downwards only rounds starts up to
/// addressable values.
pub open spec fn carve_ok(bin: nat, start: int, end: int) -> bool
    decreases bin,
{
    let size = bin_size_spec(bin) as int;
    let bin_start = align_up_spec(start, size);
    let bin_end = align_down_spec(end, size);
    &&& bin_start <= usize::MAX
    &&& if bin_end <= bin_start {
        bin > 0 ==> carve_ok((bin - 1) as nat, start, end)
    } else {
        bin > 0 ==> carve_ok((bin - 1) as nat, start, bin_start) && carve_ok(
            (bin - 1) as nat,
            bin_end,
            end,
        )
    }
}

/// The free lists after carving `[start, end)` into blocks: as many blocks
/// of bin `bin` as fit at aligned addresses, then the two leftovers below
/// and above them carved from the next smaller bin (leftovers of bin 0,
/// smaller than any block, stay unused).
pub open spec fn carve(bins: Seq<Seq<usize>>, bin: nat, start: int, end: int) -> Seq<Seq<usize>>
    decreases bin,
{
    let size = bin_size_spec(bin) as int;
    let bin_start = align_up_spec(start, size);
    let bin_end = align_down_spec(end, size);
    if bin_end <= bin_start {
        if bin > 0 {
            carve(bins, (bin - 1) as nat, start, end)
        } else {
            bins
        }
    } else {
        let count = ((bin_end - bin_start) / size) as nat;
        let filled = bins.update(bin as int, push_blocks(bins[bin as int], bin_start, size, count));
        if bin > 0 {
            carve(
                carve(filled, (bin - 1) as nat, start, bin_start),
                (bin - 1) as nat,
                bin_end,
                end,
            )
        } else {
            filled
        }
    }
}

proof fn lemma_push_blocks_ok(list: Seq<usize>, base: int, size: int, count: nat, bin: nat, end: int)
    requires
        size == bin_size_spec(bin) as int,
        base >= 0,
        base % size == 0,
        base + count * size <= end,
        end <= usize::MAX,
        forall|j: int| 0 <= j < list.len() ==> #[trigger] block_ok(list[j] as int, bin),
    ensures
        forall|j: int|
            0 <= j < push_blocks(list, base, size, count).len() ==> #[trigger] block_ok(
                push_blocks(list, base, size, count)[j] as int,
                bin,
            ),
        push_blocks(list, base, size, count).len() == list.len() + count,
    decreases count,
{
    lemma_pow2_pos(bin + 3);
    if count > 0 {
        let c1 = (count - 1) as nat;
        assert(base + c1 * size + size <= end) by (nonlinear_arith)
            requires
                base + count * size <= end,
                c1 == count - 1,
        ;
        assert(c1 * size >= 0) by (nonlinear_arith)
            requires
                size > 0,
        ;
        lemma_push_blocks_ok(list, base, size, c1, bin, end);
        let b = base + c1 * size;
        assert(b % size == 0) by {
            vstd::arithmetic::div_mod::lemma_mod_multiples_vanish(c1 as int, base, size);
            assert(base + c1 * size == c1 * size + base);
        }
        let p = push_blocks(list, base, size, count);
        let rest = push_blocks(list, base, size, c1);
        assert forall|j: int| 0 <= j < p.len() implies #[trigger] block_ok(p[j] as int, bin) by {
            if j > 0 {
                assert(p[j] == rest[j - 1]);
            }
        }
    }
}

/// Pushes the blocks of `[start, end)` onto the free lists, largest bins
/// first (see `carve`).
fn allocate_bins(bins: &mut Vec<Vec<usize>>, bin: usize, start: usize, end: usize)
    requires
        bins_wf(lists_of(old(bins)@)),
        bin < BIN_COUNT,
        carve_ok(bin as nat, start as int, end as int),
    ensures
        lists_of(final(bins)@) == carve(lists_of(old(bins)@), bin as nat, start as int, end as int),
        bins_wf(lists_of(final(bins)@)),
    decreases bin,
{
    let smaller_bin = bin != 0;
    let bin_size = bin_size(bin);
    proof {
        lemma_bin_sizes(bin as nat);
    }
    let bin_start = align_up(start, bin_size);
    let bin_end = align_down(end, bin_size);

    if bin_end <= bin_start {
        if smaller_bin {
            allocate_bins(bins, bin - 1, start, end);
        }
        return;
    }

    let bin_count = (bin_end - bin_start) / bin_size;
    let ghost before = lists_of(bins@);
    proof {
        lemma_align_spec(start as int, bin_size as int);
        lemma_align_spec(end as int, bin_size as int);
        assert(bin_count * bin_size <= bin_end - bin_start) by (nonlinear_arith)
            requires
                bin_count == (bin_end - bin_start) / (bin_size as int),
                bin_size > 0,
                bin_end > bin_start,
        {
            vstd::arithmetic::div_mod::lemma_fundamental_div_mod(
                (bin_end - bin_start) as int,
                bin_size as int,
            );
        }
    }
    for i in 0..bin_count
        invariant
            bins_wf(lists_of(bins@)),
            bin < BIN_COUNT,
            bin_size == bin_size_spec(bin as nat),
            bin_size > 0,
            before.len() == BIN_COUNT,
            bins_wf(before),
            bin_start % bin_size == 0,
            bin_count * bin_size <= bin_end - bin_start,
            bin_end <= end,
            lists_of(bins@) == before.update(
                bin as int,
                push_blocks(before[bin as int], bin_start as int, bin_size as int, i as nat),
            ),
    {
        assert(bin_start + bin_size * i + bin_size <= bin_end) by (nonlinear_arith)
            requires
                i < bin_count,
                bin_count * bin_size <= bin_end - bin_start,
                bin_size > 0,
        ;
        push_front(bins, bin, bin_start + bin_size * i);
        proof {
            let next = push_blocks(before[bin as int], bin_start as int, bin_size as int, (i + 1) as nat);
            assert(bin_start + bin_size * i == bin_start + i * bin_size) by (nonlinear_arith);
            assert(lists_of(bins@)[bin as int] == next);
            assert(lists_of(bins@) =~= before.update(bin as int, next));
            assert((i + 1) * bin_size <= bin_end - bin_start) by (nonlinear_arith)
                requires
                    i < bin_count,
                    bin_count * bin_size <= bin_end - bin_start,
                    bin_size > 0,
            ;
            assert forall|j: int| 0 <= j < before[bin as int].len() implies #[trigger] block_ok(
                before[bin as int][j] as int,
                bin as nat,
            ) by {
                let kk = bin as int;
                assert(block_ok(before[kk][j] as int, kk as nat));
            }
            lemma_push_blocks_ok(
                before[bin as int],
                bin_start as int,
                bin_size as int,
                (i + 1) as nat,
                bin as nat,
                bin_end as int,
            );
            assert forall|k: int, j: int|
                0 <= k < BIN_COUNT && 0 <= j < lists_of(bins@)[k].len() implies #[trigger] block_ok(
                lists_of(bins@)[k][j] as int,
                k as nat,
            ) by {
                if k != bin {
                    assert(lists_of(bins@)[k] == before[k]);
                }
            }
        }
    }

    if smaller_bin {
        allocate_bins(bins, bin - 1, start, bin_start);
        allocate_bins(bins, bin - 1, bin_end, end);
    }
}


/// The index of the first block in `list`, from `i` on, whose address is a
/// multiple of `align`; `list.len()` when there is none.
pub open spec fn first_aligned_from(list: Seq<usize>, align: int, i: int) -> int
    decreases list.len() - i,
{
    if i >= list.len() || i < 0 {
        list.len() as int
    } else if (list[i] as int) % align == 0 {
        i
    } else {
        first_aligned_from(list, align, i + 1)
    }
}

/// The index of the first entry of `list`, from `i` on, equal to `v`;
/// `list.len()` when there is none.
pub open spec fn first_index_from(list: Seq<usize>, v: int, i: int) -> int
    decreases list.len() - i,
{
    if i >= list.len() || i < 0 {
        list.len() as int
    } else if list[i] as int == v {
        i
    } else {
        first_index_from(list, v, i + 1)
    }
}

/// Taking a block aligned to `align` from bin `bin`: the first such block
/// of the bin is taken; when there is none, a block is taken from the next
/// bin up (recursively), its upper half is freed into this bin and its
/// lower half is handed out.
pub open spec fn take_block(bins: Seq<Seq<usize>>, bin: nat, align: int) -> (Seq<Seq<usize>>, Option<usize>)
    decreases BIN_COUNT - bin,
{
    if bin >= BIN_COUNT {
        (bins, None)
    } else {
        let list = bins[bin as int];
        let k = first_aligned_from(list, align, 0);
        if k < list.len() {
            (bins.update(bin as int, list.remove(k)), Some(list[k]))
        } else {
            let (above, taken) = take_block(bins, bin + 1, align);
            match taken {
                None => (above, None),
                Some(a) => (
                    above.update(
                        bin as int,
                        seq![buddy_of(a as int, bin) as usize] + above[bin as int],
                    ),
                    Some(a),
                ),
            }
        }
    }
}

/// Freeing the block at `ptr` into bin `bin`: when its buddy is free in
/// the same bin (and the bin is not the largest), the buddy is taken off
/// its list and the merged block is freed into the next bin up; otherwise
/// the block is pushed on the bin's list.
pub open spec fn free_block(bins: Seq<Seq<usize>>, ptr: int, bin: nat) -> Seq<Seq<usize>>
    decreases BIN_COUNT - bin,
{
    if bin >= BIN_COUNT {
        bins
    } else {
        let b = buddy_of(ptr, bin);
        let list = bins[bin as int];
        let k = first_index_from(list, b, 0);
        if bin == BIN_COUNT - 1 || k >= list.len() {
            bins.update(bin as int, seq![ptr as usize] + list)
        } else {
            free_block(
                bins.update(bin as int, list.remove(k)),
                if ptr < b { ptr } else { b },
                bin + 1,
            )
        }
    }
}

proof fn lemma_bins_wf_remove(bins: Seq<Seq<usize>>, bin: int, k: int)
    requires
        bins_wf(bins),
        0 <= bin < BIN_COUNT,
        0 <= k < bins[bin].len(),
    ensures
        bins_wf(bins.update(bin, bins[bin].remove(k))),
        block_ok(bins[bin][k] as int, bin as nat),
{
    let nb = bins.update(bin, bins[bin].remove(k));
    assert forall|kk: int, j: int| 0 <= kk < BIN_COUNT && 0 <= j < nb[kk].len() implies #[trigger] block_ok(
        nb[kk][j] as int,
        kk as nat,
    ) by {
        if kk == bin {
            if j < k {
                assert(nb[kk][j] == bins[kk][j]);
            } else {
                assert(nb[kk][j] == bins[kk][j + 1]);
            }
        }
    }
}

proof fn lemma_bins_wf_push(bins: Seq<Seq<usize>>, bin: int, a: usize)
    requires
        bins_wf(bins),
        0 <= bin < BIN_COUNT,
        block_ok(a as int, bin as nat),
    ensures
        bins_wf(bins.update(bin, seq![a] + bins[bin])),
{
    let nb = bins.update(bin, seq![a] + bins[bin]);
    assert forall|kk: int, j: int| 0 <= kk < BIN_COUNT && 0 <= j < nb[kk].len() implies #[trigger] block_ok(
        nb[kk][j] as int,
        kk as nat,
    ) by {
        if kk == bin && j > 0 {
            assert(nb[kk][j] == bins[kk][j - 1]);
        }
    }
}

/// A binned buddy allocator: free list `n` holds free blocks of
/// `2^(n + 3)` bytes. Blocks are handed out whole; a request is served from
/// the smallest bin that fits it, splitting a larger block when the bin has
/// no suitably aligned block, and freed blocks merge with their free buddy.
pub struct Allocator {
    bins: Vec<Vec<usize>>,
}

impl Allocator {
    /// The free lists, head first.
    pub closed spec fn free_lists(&self) -> Seq<Seq<usize>> {
        lists_of(self.bins@)
    }

    /// Every free list exists and holds only well-placed blocks.
    pub closed spec fn wf(&self) -> bool {
        bins_wf(self.free_lists())
    }

    /// Creates a new bin allocator that will allocate memory from the region
    /// starting at address `start` and ending at address `end`.
    pub fn new(start: usize, end: usize) -> (r: Allocator)
        requires
            carve_ok((BIN_COUNT - 1) as nat, start as int, end as int),
        ensures
            r.wf(),
            r.free_lists() == carve(
                Seq::new(BIN_COUNT as nat, |k: int| Seq::<usize>::empty()),
                (BIN_COUNT - 1) as nat,
                start as int,
                end as int,
            ),
    {
        let mut bins: Vec<Vec<usize>> = Vec::new();
        for k in 0..BIN_COUNT
            invariant
                bins.len() == k,
                forall|j: int| 0 <= j < k ==> (#[trigger] bins@[j])@.len() == 0,
        {
            bins.push(Vec::new());
        }
        proof {
            assert forall|j: int| 0 <= j < BIN_COUNT implies #[trigger] lists_of(bins@)[j]
                =~= Seq::<usize>::empty() by {
                assert(bins@[j]@.len() == 0);
            }
            assert(lists_of(bins@) =~= Seq::new(BIN_COUNT as nat, |k: int| Seq::<usize>::empty()));
        }
        Allocator::allocate_bins_from(&mut bins, start, end);
        Allocator { bins }
    }

    /// Takes a block of bin `bin` (or splits a larger one) whose address is
    /// a multiple of `align`.
    fn buddy_down(&mut self, bin: usize, align: usize) -> (r: Option<usize>)
        requires
            old(self).wf(),
            align > 0,
        ensures
            final(self).wf(),
            (final(self).free_lists(), r) == take_block(old(self).free_lists(), bin as nat, align as int),
            r matches Some(a) ==> a % align == 0 && block_ok(a as int, bin as nat) && bin < BIN_COUNT,
        decreases BIN_COUNT - bin,
    {
        if bin >= BIN_COUNT {
            return None;
        }
        let ghost lists = self.free_lists();
        let len = self.bins[bin].len();
        let mut i: usize = 0;
        while i < len
            invariant
                self.free_lists() == lists,
                lists == old(self).free_lists(),
                bins_wf(lists),
                bin < BIN_COUNT,
                align > 0,
                len == lists[bin as int].len(),
                i <= len,
                first_aligned_from(lists[bin as int], align as int, 0) == first_aligned_from(
                    lists[bin as int],
                    align as int,
                    i as int,
                ),
            decreases len - i,
        {
            if is_aligned(self.bins[bin][i], align) {
                assert(self.bins@[bin as int]@[i as int] == lists[bin as int][i as int]);
                assert(first_aligned_from(lists[bin as int], align as int, i as int) == i);
                proof {
                    lemma_bins_wf_remove(lists, bin as int, i as int);
                }
                let node = remove_at(&mut self.bins, bin, i);
                return Some(node);
            }
            assert(self.bins@[bin as int]@[i as int] == lists[bin as int][i as int]);
            i += 1;
        }

        let buddy_above = match self.buddy_down(bin + 1, align) {
            Some(b) => b,
            None => return None,
        };
        proof {
            lemma_bin_sizes(bin as nat);
            let bs = bin_size_spec(bin as nat) as int;
            lemma_mod_double(buddy_above as int, bs);
            vstd::arithmetic::div_mod::lemma_mod_add_multiples_vanish(buddy_above as int, bs);
            assert(buddy_of(buddy_above as int, bin as nat) == buddy_above + bs);
        }
        let other_buddy = buddy(buddy_above, bin);
        proof {
            lemma_bins_wf_push(self.free_lists(), bin as int, other_buddy);
        }
        push_front(&mut self.bins, bin, other_buddy);
        Some(buddy_above)
    }

    /// Removes the first occurrence of `value` from free list `bin`;
    /// reports whether there was one.
    fn remove_value(&mut self, bin: usize, value: usize) -> (found: bool)
        requires
            old(self).wf(),
            bin < BIN_COUNT,
        ensures
            final(self).wf(),
            ({
                let list = old(self).free_lists()[bin as int];
                let k = first_index_from(list, value as int, 0);
                &&& found <==> k < list.len()
                &&& found ==> final(self).free_lists() == old(self).free_lists().update(
                    bin as int,
                    list.remove(k),
                )
                &&& !found ==> final(self).free_lists() == old(self).free_lists()
            }),
    {
        let ghost lists = self.free_lists();
        let len = self.bins[bin].len();
        let mut i: usize = 0;
        while i < len
            invariant
                self.free_lists() == lists,
                lists == old(self).free_lists(),
                bins_wf(lists),
                bin < BIN_COUNT,
                len == lists[bin as int].len(),
                i <= len,
                first_index_from(lists[bin as int], value as int, 0) == first_index_from(
                    lists[bin as int],
                    value as int,
                    i as int,
                ),
            decreases len - i,
        {
            if self.bins[bin][i] == value {
                assert(self.bins@[bin as int]@[i as int] == lists[bin as int][i as int]);
                assert(first_index_from(lists[bin as int], value as int, i as int) == i);
                proof {
                    lemma_bins_wf_remove(lists, bin as int, i as int);
                }
                remove_at(&mut self.bins, bin, i);
                return true;
            }
            assert(self.bins@[bin as int]@[i as int] == lists[bin as int][i as int]);
            i += 1;
        }
        false
    }

    /// Frees the block at `ptr` into bin `bin`, merging it with its buddy
    /// as long as the buddy is free.
    fn buddy_up(&mut self, ptr: usize, bin: usize)
        requires
            old(self).wf(),
            bin < BIN_COUNT,
            block_ok(ptr as int, bin as nat),
        ensures
            final(self).wf(),
            final(self).free_lists() == free_block(old(self).free_lists(), ptr as int, bin as nat),
        decreases BIN_COUNT - bin,
    {
        let buddy = buddy(ptr, bin);
        if bin == BIN_COUNT - 1 || !self.remove_value(bin, buddy) {
            proof {
                lemma_bins_wf_push(self.free_lists(), bin as int, ptr);
            }
            push_front(&mut self.bins, bin, ptr);
            return;
        }

        let aligned_buddy = if ptr < buddy {
            ptr
        } else {
            buddy
        };
        proof {
            lemma_bin_sizes(bin as nat);
            let bs = bin_size_spec(bin as nat) as int;
            lemma_buddy_arith(ptr as int, bs, usize::MAX as int + 1);
            if ptr as int % (2 * bs) != 0 {
                assert(aligned_buddy == ptr - bs);
            }
        }
        self.buddy_up(aligned_buddy, bin + 1);
    }

    /// Allocates a block of at least `size` bytes whose address is a
    /// multiple of `align`, and returns its address; returns 0 (null) when
    /// no such block is free.
    pub fn allocate(&mut self, size: usize, align: usize) -> (r: usize)
        requires
            old(self).wf(),
            align > 0,
        ensures
            final(self).wf(),
            ({
                let (lists, taken) = take_block(
                    old(self).free_lists(),
                    bin_of_size(size as nat),
                    align as int,
                );
                &&& final(self).free_lists() == lists
                &&& r == match taken {
                    Some(a) => a,
                    None => 0,
                }
                &&& taken matches Some(a) ==> a % align == 0 && block_ok(
                    a as int,
                    bin_of_size(size as nat),
                ) && bin_size_spec(bin_of_size(size as nat)) >= size
            }),
    {
        proof {
            lemma_bin_of_size_is_smallest_fit(size as nat);
        }
        let bin = match size_to_bin(size) {
            Some(b) => b,
            None => 0,
        };
        match self.buddy_down(bin, align) {
            Some(a) => a,
            None => 0,
        }
    }

    /// Returns the block of `size` bytes at `ptr`, handed out by `allocate`,
    /// to the free lists.
    pub fn deallocate(&mut self, ptr: usize, size: usize)
        requires
            old(self).wf(),
            bin_of_size(size as nat) < BIN_COUNT,
            block_ok(ptr as int, bin_of_size(size as nat)),
        ensures
            final(self).wf(),
            final(self).free_lists() == free_block(
                old(self).free_lists(),
                ptr as int,
                bin_of_size(size as nat),
            ),
    {
        let bin = match size_to_bin(size) {
            Some(b) => b,
            None => 0,
        };
        self.buddy_up(ptr, bin);
    }

    fn allocate_bins_from(bins: &mut Vec<Vec<usize>>, start: usize, end: usize)
        requires
            bins_wf(lists_of(old(bins)@)),
            carve_ok((BIN_COUNT - 1) as nat, start as int, end as int),
        ensures
            lists_of(final(bins)@) == carve(
                lists_of(old(bins)@),
                (BIN_COUNT - 1) as nat,
                start as int,
                end as int,
            ),
            bins_wf(lists_of(final(bins)@)),
    {
        allocate_bins(bins, BIN_COUNT - 1, start, end);
    }
}

/// Every free block lies inside `[lo, hi)`.
pub open spec fn blocks_within(bins: Seq<Seq<usize>>, lo: int, hi: int) -> bool {
    forall|k: int, j: int|
        0 <= k < bins.len() && 0 <= j < bins[k].len() ==> lo <= #[trigger] bins[k][j] && bins[k][j]
            + bin_size_spec(k as nat) <= hi
}

proof fn lemma_push_blocks_within(
    list: Seq<usize>,
    base: int,
    size: int,
    count: nat,
    lo: int,
    hi: int,
)
    requires
        size > 0,
        0 <= lo <= base,
        base + count * size <= hi,
        hi <= usize::MAX,
        forall|j: int| 0 <= j < list.len() ==> lo <= #[trigger] list[j] && list[j] + size <= hi,
    ensures
        forall|j: int|
            0 <= j < push_blocks(list, base, size, count).len() ==> lo <= #[trigger] push_blocks(
                list,
                base,
                size,
                count,
            )[j] && push_blocks(list, base, size, count)[j] + size <= hi,
    decreases count,
{
    if count > 0 {
        let c1 = (count - 1) as nat;
        assert(base + c1 * size + size <= hi && c1 * size >= 0) by (nonlinear_arith)
            requires
                base + count * size <= hi,
                c1 == count - 1,
                size > 0,
        ;
        lemma_push_blocks_within(list, base, size, c1, lo, hi);
        let p = push_blocks(list, base, size, count);
        let rest = push_blocks(list, base, size, c1);
        assert forall|j: int| 0 <= j < p.len() implies lo <= #[trigger] p[j] && p[j] + size <= hi by {
            if j > 0 {
                assert(p[j] == rest[j - 1]);
            }
        }
    }
}

/// Carving a part of `[lo, hi)` keeps every free block inside `[lo, hi)`.
proof fn lemma_carve_within(bins: Seq<Seq<usize>>, bin: nat, start: int, end: int, lo: int, hi: int)
    requires
        bins.len() == BIN_COUNT,
        bin < BIN_COUNT,
        carve_ok(bin, start, end),
        blocks_within(bins, lo, hi),
        0 <= lo <= start,
        0 <= end <= hi,
        hi <= usize::MAX,
    ensures
        blocks_within(carve(bins, bin, start, end), lo, hi),
        carve(bins, bin, start, end).len() == BIN_COUNT,
    decreases bin,
{
    let size = bin_size_spec(bin) as int;
    lemma_bin_sizes(bin);
    lemma_align_spec(start, size);
    lemma_align_spec(end, size);
    let bin_start = align_up_spec(start, size);
    let bin_end = align_down_spec(end, size);
    if bin_end <= bin_start {
        if bin > 0 {
            lemma_carve_within(bins, (bin - 1) as nat, start, end, lo, hi);
        }
    } else {
        let count = ((bin_end - bin_start) / size) as nat;
        vstd::arithmetic::div_mod::lemma_fundamental_div_mod(bin_end - bin_start, size);
        assert(count * size <= bin_end - bin_start) by (nonlinear_arith)
            requires
                bin_end - bin_start == size * count + (bin_end - bin_start) % size,
                (bin_end - bin_start) % size >= 0,
        ;
        let list = bins[bin as int];
        assert forall|j: int| 0 <= j < list.len() implies lo <= #[trigger] list[j] && list[j] + size <= hi by {
            let kk = bin as int;
            assert(lo <= bins[kk][j] && bins[kk][j] + bin_size_spec(kk as nat) <= hi);
        }
        lemma_push_blocks_within(list, bin_start, size, count, lo, hi);
        let filled = bins.update(bin as int, push_blocks(list, bin_start, size, count));
        assert forall|k: int, j: int| 0 <= k < filled.len() && 0 <= j < filled[k].len() implies lo
            <= #[trigger] filled[k][j] && filled[k][j] + bin_size_spec(k as nat) <= hi by {
            if k != bin {
                assert(filled[k] == bins[k]);
            } else {
                assert(bin_size_spec(k as nat) == size);
            }
        }
        if bin > 0 {
            lemma_carve_within(filled, (bin - 1) as nat, start, bin_start, lo, hi);
            lemma_carve_within(
                carve(filled, (bin - 1) as nat, start, bin_start),
                (bin - 1) as nat,
                bin_end,
                end,
                lo,
                hi,
            );
        }
    }
}

/// A new allocator's free blocks all lie inside the region it was given.
pub proof fn lemma_new_blocks_within_region(start: usize, end: usize)
    requires
        carve_ok((BIN_COUNT - 1) as nat, start as int, end as int),
    ensures
        blocks_within(
            carve(
                Seq::new(BIN_COUNT as nat, |k: int| Seq::<usize>::empty()),
                (BIN_COUNT - 1) as nat,
                start as int,
                end as int,
            ),
            start as int,
            end as int,
        ),
{
    let empty = Seq::new(BIN_COUNT as nat, |k: int| Seq::<usize>::empty());
    lemma_carve_within(empty, (BIN_COUNT - 1) as nat, start as int, end as int, start as int, end as int);
}

proof fn lemma_carve_ok_low(bin: nat, start: int, end: int)
    requires
        bin < BIN_COUNT,
        0 <= start <= usize::MAX - 0x400000,
        0 <= end <= usize::MAX - 0x400000,
    ensures
        carve_ok(bin, start, end),
    decreases bin,
{
    let size = bin_size_spec(bin) as int;
    lemma_bin_sizes(bin);
    lemma_align_spec(start, size);
    lemma_align_spec(end, size);
    vstd::arithmetic::power2::lemma2_to64();
    if bin < 19 {
        lemma_pow2_strictly_increases(bin + 3, 22);
    }
    if bin > 0 {
        let bin_start = align_up_spec(start, size);
        let bin_end = align_down_spec(end, size);
        if bin_end <= bin_start {
            lemma_carve_ok_low((bin - 1) as nat, start, end);
        } else {
            lemma_carve_ok_low((bin - 1) as nat, start, bin_start);
            lemma_carve_ok_low((bin - 1) as nat, bin_end, end);
        }
    }
}

/// Any region that leaves the topmost 4 MiB of the address space alone can
/// be carved into free lists.
pub proof fn lemma_region_carves(start: usize, end: usize)
    requires
        start <= usize::MAX - 0x400000,
        end <= usize::MAX - 0x400000,
    ensures
        carve_ok((BIN_COUNT - 1) as nat, start as int, end as int),
{
    lemma_carve_ok_low((BIN_COUNT - 1) as nat, start as int, end as int);
}

} // verus!

verus! {

/// Flipping bit `s` of `ptr` adds `2^s` when the bit is clear and subtracts
/// it when it is set; for an address aligned to `2^s`, the bit is clear
/// exactly when the address is aligned to `2^(s + 1)`.
proof fn lemma_flip_bit(ptr: usize, s: usize)
    by (bit_vector)
    requires
        s + 1 < usize::BITS,
        ptr & (((1usize << s) - 1) as usize) == 0,
    ensures
        ptr & (((1usize << ((s + 1) as usize)) - 1) as usize) == 0 ==> ptr ^ (1usize << s) == ptr + (1usize << s),
        ptr & (((1usize << ((s + 1) as usize)) - 1) as usize) != 0 ==> ptr ^ (1usize << s) == ptr - (1usize << s),
{
}

/// A block size of a bin whose doubled size still fits is a positive
/// power of two, half the next bin's, and twice of it divides the size of
/// the address space.
proof fn lemma_bin_size_divides(bin: nat)
    requires
        bin + 4 <= usize::BITS,
    ensures
        bin_size_spec(bin) > 0,
        bin_size_spec(bin + 1) == 2 * bin_size_spec(bin),
        (usize::MAX as int + 1) % (2 * bin_size_spec(bin) as int) == 0,
{
    lemma_pow2_pos(bin + 3);
    lemma_pow2_unfold(bin + 4);
    lemma_usize_bits();
    let rest = (usize::BITS - bin - 4) as nat;
    assert(bin + 4 + rest == usize::BITS as nat);
    vstd::arithmetic::power2::lemma_pow2_adds(bin + 4, rest);
    vstd::arithmetic::mul::lemma_mul_is_commutative(pow2(rest) as int, pow2(bin + 4) as int);
    vstd::arithmetic::div_mod::lemma_mod_multiples_basic(pow2(rest) as int, pow2(bin + 4) as int);
}

/// Buddies pair up: the buddy of a free block is the block whose address
/// differs from it only in the bit of the block size, it is a block of the
/// same bin, and its buddy is the first block again. This holds for every
/// bin whose doubled block size fits in an address.
pub proof fn lemma_buddy_symmetric(ptr: usize, bin: nat)
    requires
        bin + 4 < usize::BITS,
        block_ok(ptr as int, bin),
    ensures
        buddy_of(ptr as int, bin) == (ptr ^ (bin_size_spec(bin) as usize)) as int,
        block_ok(buddy_of(ptr as int, bin), bin),
        buddy_of(buddy_of(ptr as int, bin), bin) == ptr as int,
{
    let size = bin_size_spec(bin) as int;
    let top = usize::MAX as int + 1;
    lemma_bin_size_divides(bin);
    lemma_buddy_arith(ptr as int, size, top);
    let b = buddy_of(ptr as int, bin);
    if (ptr as int) % (2 * size) == 0 {
        vstd::arithmetic::div_mod::lemma_fundamental_div_mod(ptr as int, 2 * size);
        let p = (ptr as int) / (2 * size);
        assert(b == (2 * size) * p + size);
        vstd::arithmetic::div_mod::lemma_mod_multiples_vanish(p, size, 2 * size);
        vstd::arithmetic::div_mod::lemma_small_mod(size as nat, (2 * size) as nat);
        assert(b % (2 * size) == size);
        assert(b % size == 0) by {
            vstd::arithmetic::div_mod::lemma_mod_multiples_vanish(2 * p + 1, 0, size);
            assert(b == size * (2 * p + 1) + 0) by (nonlinear_arith)
                requires
                    b == (2 * size) * p + size,
            ;
            vstd::arithmetic::div_mod::lemma_small_mod(0, size as nat);
        }
    } else {
        lemma_mod_double(b, size);
    }
    let s = (bin + 3) as usize;
    lemma_shl_one(s);
    lemma_shl_one((s + 1) as usize);
    assert(pow2((s + 1) as nat) == 2 * pow2(s as nat)) by {
        lemma_pow2_unfold((s + 1) as nat);
    }
    vstd::bits::lemma_usize_low_bits_mask_is_mod(ptr, s as nat);
    vstd::bits::lemma_usize_low_bits_mask_is_mod(ptr, (s + 1) as nat);
    lemma_flip_bit(ptr, s);
}

} // verus!

verus! {

/// Whether byte `x` lies in the free block at position `j` of list `k`.
pub open spec fn in_block(bins: Seq<Seq<usize>>, k: int, j: int, x: int) -> bool {
    &&& 0 <= k < bins.len()
    &&& 0 <= j < bins[k].len()
    &&& bins[k][j] <= x < bins[k][j] + bin_size_spec(k as nat)
}

/// Whether byte `x` is free: some free block holds it.
pub open spec fn is_free_byte(bins: Seq<Seq<usize>>, x: int) -> bool {
    exists|k: int, j: int| #[trigger] in_block(bins, k, j, x)
}

/// Whether no byte lies in two free blocks (nor twice in one list).
pub open spec fn blocks_disjoint(bins: Seq<Seq<usize>>) -> bool {
    forall|k1: int, j1: int, k2: int, j2: int, x: int|
        #[trigger] in_block(bins, k1, j1, x) && #[trigger] in_block(bins, k2, j2, x) ==> k1 == k2 && j1 == j2
}

/// Whether no free block has a byte in `[lo, hi)`.
pub open spec fn blocks_outside(bins: Seq<Seq<usize>>, lo: int, hi: int) -> bool {
    forall|k: int, j: int, x: int| #[trigger] in_block(bins, k, j, x) ==> !(lo <= x < hi)
}

/// Putting block `a` at the front of list `b`.
proof fn lemma_prepend_block(bins: Seq<Seq<usize>>, b: int, a: int)
    requires
        0 <= b < bins.len(),
        0 <= a <= usize::MAX,
        blocks_disjoint(bins),
        blocks_outside(bins, a, a + bin_size_spec(b as nat)),
    ensures
        ({
            let bins2 = bins.update(b, seq![a as usize] + bins[b]);
            &&& blocks_disjoint(bins2)
            &&& forall|x: int| #[trigger] is_free_byte(bins2, x) <==> is_free_byte(bins, x) || a <= x < a + bin_size_spec(b as nat)
            &&& forall|lo: int, hi: int|
                blocks_outside(bins, lo, hi) && (a + bin_size_spec(b as nat) <= lo || hi <= a) ==> #[trigger] blocks_outside(
                    bins2,
                    lo,
                    hi,
                )
        }),
{
    let size = bin_size_spec(b as nat) as int;
    let bins2 = bins.update(b, seq![a as usize] + bins[b]);
    // Where a position of the new lists came from.
    assert forall|k: int, j: int, x: int| #[trigger] in_block(bins2, k, j, x) implies (k == b && j == 0 && a <= x < a
        + size) || (k == b && j > 0 && in_block(bins, k, j - 1, x)) || (k != b && in_block(bins, k, j, x)) by {
        if k == b && j > 0 {
            assert(bins2[k][j] == bins[k][j - 1]);
        }
    }
    assert forall|k: int, j: int, x: int| #[trigger] in_block(bins, k, j, x) implies (k == b && in_block(bins2, k, j + 1, x))
        || (k != b && in_block(bins2, k, j, x)) by {
        if k == b {
            assert(bins2[k][j + 1] == bins[k][j]);
        }
    }
    assert forall|k1: int, j1: int, k2: int, j2: int, x: int|
        #[trigger] in_block(bins2, k1, j1, x) && #[trigger] in_block(bins2, k2, j2, x) implies k1 == k2 && j1 == j2 by {
        if k1 == b && j1 > 0 && k2 == b && j2 > 0 {
            assert(in_block(bins, k1, j1 - 1, x) && in_block(bins, k2, j2 - 1, x));
        } else if k1 == b && j1 > 0 {
            assert(in_block(bins, k1, j1 - 1, x));
            if k2 != b {
                assert(in_block(bins, k2, j2, x));
            }
        } else if k2 == b && j2 > 0 {
            assert(in_block(bins, k2, j2 - 1, x));
            if k1 != b {
                assert(in_block(bins, k1, j1, x));
            }
        } else if k1 != b && k2 != b {
            assert(in_block(bins, k1, j1, x) && in_block(bins, k2, j2, x));
        } else if k1 != b {
            assert(in_block(bins, k1, j1, x));
        } else if k2 != b {
            assert(in_block(bins, k2, j2, x));
        }
    }
    assert forall|x: int| #[trigger] is_free_byte(bins2, x) <==> is_free_byte(bins, x) || a <= x < a + size by {
        if is_free_byte(bins2, x) {
            let (k, j) = choose|k: int, j: int| #[trigger] in_block(bins2, k, j, x);
            if k == b && j > 0 {
                assert(in_block(bins, k, j - 1, x));
            } else if k != b {
                assert(in_block(bins, k, j, x));
            }
        }
        if is_free_byte(bins, x) {
            let (k, j) = choose|k: int, j: int| #[trigger] in_block(bins, k, j, x);
            if k == b {
                assert(in_block(bins2, k, j + 1, x));
            } else {
                assert(in_block(bins2, k, j, x));
            }
        }
        if a <= x < a + size {
            assert(bins2[b][0] == a as usize);
            assert(in_block(bins2, b, 0, x));
        }
    }
    assert forall|lo: int, hi: int|
        blocks_outside(bins, lo, hi) && (a + size <= lo || hi <= a) implies #[trigger] blocks_outside(bins2, lo, hi) by {
        assert forall|k: int, j: int, x: int| #[trigger] in_block(bins2, k, j, x) implies !(lo <= x < hi) by {
            if k == b && j > 0 {
                assert(in_block(bins, k, j - 1, x));
            } else if k != b {
                assert(in_block(bins, k, j, x));
            }
        }
    }
}

/// A free-block set that avoids `[lo, hi)` avoids every part of it.
proof fn lemma_outside_narrower(bins: Seq<Seq<usize>>, lo: int, hi: int, lo2: int, hi2: int)
    requires
        blocks_outside(bins, lo, hi),
        lo <= lo2,
        hi2 <= hi,
    ensures
        blocks_outside(bins, lo2, hi2),
{
}

/// Putting `count` consecutive blocks from `base` on list `b`.
proof fn lemma_push_blocks_partition(bins: Seq<Seq<usize>>, b: int, base: int, count: nat)
    requires
        0 <= b < bins.len(),
        base >= 0,
        base + count * bin_size_spec(b as nat) <= usize::MAX + 1,
        blocks_disjoint(bins),
        blocks_outside(bins, base, base + count * bin_size_spec(b as nat)),
    ensures
        ({
            let size = bin_size_spec(b as nat) as int;
            let filled = bins.update(b, push_blocks(bins[b], base, size, count));
            &&& blocks_disjoint(filled)
            &&& forall|x: int| #[trigger] is_free_byte(filled, x) <==> is_free_byte(bins, x) || base <= x < base + count * size
            &&& forall|lo: int, hi: int|
                blocks_outside(bins, lo, hi) && (base + count * size <= lo || hi <= base) ==> #[trigger] blocks_outside(
                    filled,
                    lo,
                    hi,
                )
        }),
    decreases count,
{
    let size = bin_size_spec(b as nat) as int;
    lemma_pow2_pos(b as nat + 3);
    let filled = bins.update(b, push_blocks(bins[b], base, size, count));
    if count == 0 {
        assert(filled =~= bins);
        assert(count * size == 0) by (nonlinear_arith)
            requires
                count == 0,
        ;
    } else {
        let c1 = (count - 1) as nat;
        assert(c1 * size + size == count * size) by (nonlinear_arith)
            requires
                c1 == count - 1,
        ;
        assert(c1 * size >= 0) by (nonlinear_arith)
            requires
                size > 0,
        ;
        lemma_outside_narrower(bins, base, base + count * size, base, base + c1 * size);
        lemma_push_blocks_partition(bins, b, base, c1);
        let prev = bins.update(b, push_blocks(bins[b], base, size, c1));
        let a = base + c1 * size;
        lemma_outside_narrower(bins, base, base + count * size, a, a + size);
        assert(blocks_outside(prev, a, a + size));
        lemma_prepend_block(prev, b, a);
        assert(filled =~= prev.update(b, seq![a as usize] + prev[b]));
        let bins2 = prev.update(b, seq![a as usize] + prev[b]);
        assert(blocks_disjoint(filled));
        assert forall|x: int| #[trigger] is_free_byte(filled, x) <==> is_free_byte(bins, x) || base <= x < base + count
            * size by {
            assert(is_free_byte(bins2, x) <==> is_free_byte(prev, x) || a <= x < a + size);
            assert(is_free_byte(prev, x) <==> is_free_byte(bins, x) || base <= x < base + c1 * size);
        }
        assert forall|lo: int, hi: int|
            blocks_outside(bins, lo, hi) && (base + count * size <= lo || hi <= base) implies #[trigger] blocks_outside(
            filled,
            lo,
            hi,
        ) by {
            assert(blocks_outside(prev, lo, hi));
            assert(blocks_outside(bins2, lo, hi));
        }
    }
}

/// Rounding to a block size (a multiple of 8) lands between the
/// roundings to 8: a block-aligned start is 8-aligned and no lower than the
/// 8-aligned start, and likewise for ends.
proof fn lemma_align_nested(x: int, size: int)
    requires
        x >= 0,
        size > 0,
        size % 8 == 0,
    ensures
        align_up_spec(x, 8) <= align_up_spec(x, size),
        align_down_spec(x, size) <= align_down_spec(x, 8),
        align_up_spec(x, size) % 8 == 0,
        align_down_spec(x, size) % 8 == 0,
{
    lemma_align_spec(x, size);
    lemma_align_spec(x, 8);
    let up = align_up_spec(x, size);
    let down = align_down_spec(x, size);
    assert(up % 8 == 0) by {
        vstd::arithmetic::div_mod::lemma_fundamental_div_mod(up, size);
        vstd::arithmetic::div_mod::lemma_fundamental_div_mod(size, 8);
        let q = up / size;
        let t = size / 8;
        assert(up == (t * q) * 8) by (nonlinear_arith)
            requires
                up == size * q + up % size,
                up % size == 0,
                size == 8 * t + size % 8,
                size % 8 == 0,
        ;
        vstd::arithmetic::div_mod::lemma_mod_multiples_basic(t * q, 8);
    }
    assert(down % 8 == 0) by {
        vstd::arithmetic::div_mod::lemma_fundamental_div_mod(down, size);
        vstd::arithmetic::div_mod::lemma_fundamental_div_mod(size, 8);
        let q = down / size;
        let t = size / 8;
        assert(down == (t * q) * 8) by (nonlinear_arith)
            requires
                down == size * q + down % size,
                down % size == 0,
                size == 8 * t + size % 8,
                size % 8 == 0,
        ;
        vstd::arithmetic::div_mod::lemma_mod_multiples_basic(t * q, 8);
    }
    // The least multiple of 8 at or above x is at most any other one.
    assert(align_up_spec(x, 8) <= up) by {
        if x % 8 != 0 {
            vstd::arithmetic::div_mod::lemma_fundamental_div_mod(x, 8);
            vstd::arithmetic::div_mod::lemma_fundamental_div_mod(up, 8);
            let p = up / 8;
            let q = x / 8;
            assert(up == 8 * p);
            assert(x == 8 * q + x % 8);
            assert(q < p) by (nonlinear_arith)
                requires
                    up == 8 * p,
                    x == 8 * q + x % 8,
                    0 < x % 8 < 8,
                    x <= up,
            ;
            assert(8 * q + 8 <= 8 * p) by (nonlinear_arith)
                requires
                    q < p,
            ;
        }
    }
    // The greatest multiple of 8 at or below x is at least any other one.
    assert(down <= align_down_spec(x, 8)) by {
        vstd::arithmetic::div_mod::lemma_fundamental_div_mod(x, 8);
        vstd::arithmetic::div_mod::lemma_fundamental_div_mod(down, 8);
        let p = down / 8;
        let q = x / 8;
        assert(down == 8 * p);
        assert(x == 8 * q + x % 8);
        assert(p <= q) by (nonlinear_arith)
            requires
                down == 8 * p,
                x == 8 * q + x % 8,
                0 <= x % 8 < 8,
                down <= x,
        ;
        assert(8 * p <= 8 * q) by (nonlinear_arith)
            requires
                p <= q,
        ;
    }
}

/// Bin sizes are multiples of 8.
proof fn lemma_bin_size_mod8(bin: nat)
    ensures
        bin_size_spec(bin) % 8 == 0,
{
    vstd::arithmetic::power2::lemma_pow2_adds(bin, 3);
    vstd::arithmetic::power2::lemma2_to64();
    vstd::arithmetic::div_mod::lemma_mod_multiples_basic(pow2(bin) as int, 8);
}

/// Carving `[start, end)` adds free blocks that share no byte with each
/// other or with the blocks already there, and that hold exactly the bytes
/// from `start` rounded up to 8 to `end` rounded down to 8; blocks outside
/// `[start, end)` stay outside.
proof fn lemma_carve_partition(bins: Seq<Seq<usize>>, bin: nat, start: int, end: int)
    requires
        bins.len() == BIN_COUNT,
        bin < BIN_COUNT,
        carve_ok(bin, start, end),
        0 <= start,
        0 <= end <= usize::MAX,
        blocks_disjoint(bins),
        blocks_outside(bins, start, end),
    ensures
        ({
            let c = carve(bins, bin, start, end);
            &&& c.len() == BIN_COUNT
            &&& blocks_disjoint(c)
            &&& forall|x: int| #[trigger] is_free_byte(c, x) <==> is_free_byte(bins, x) || align_up_spec(start, 8) <= x
                < align_down_spec(end, 8)
            &&& forall|lo: int, hi: int|
                blocks_outside(bins, lo, hi) && (end <= lo || hi <= start) ==> #[trigger] blocks_outside(c, lo, hi)
        }),
    decreases bin,
{
    let size = bin_size_spec(bin) as int;
    lemma_bin_sizes(bin);
    lemma_bin_size_mod8(bin);
    lemma_align_spec(start, size);
    lemma_align_spec(end, size);
    lemma_align_nested(start, size);
    lemma_align_nested(end, size);
    let bin_start = align_up_spec(start, size);
    let bin_end = align_down_spec(end, size);
    if bin_end <= bin_start {
        if bin > 0 {
            lemma_carve_partition(bins, (bin - 1) as nat, start, end);
        } else {
            assert(size == 8) by {
                vstd::arithmetic::power2::lemma2_to64();
            }
        }
    } else {
        let count = ((bin_end - bin_start) / size) as nat;
        assert(count * size == bin_end - bin_start) by {
            vstd::arithmetic::div_mod::lemma_fundamental_div_mod(bin_end, size);
            vstd::arithmetic::div_mod::lemma_fundamental_div_mod(bin_start, size);
            let qe = bin_end / size;
            let qs = bin_start / size;
            assert(bin_end - bin_start == size * (qe - qs)) by (nonlinear_arith)
                requires
                    bin_end == size * qe + bin_end % size,
                    bin_start == size * qs + bin_start % size,
                    bin_end % size == 0,
                    bin_start % size == 0,
            ;
            vstd::arithmetic::div_mod::lemma_div_multiples_vanish(qe - qs, size);
            assert(count == qe - qs);
            assert(count * size == size * (qe - qs)) by (nonlinear_arith)
                requires
                    count == qe - qs,
            ;
        }
        lemma_outside_narrower(bins, start, end, bin_start, bin_end);
        lemma_push_blocks_partition(bins, bin as int, bin_start, count);
        let filled = bins.update(bin as int, push_blocks(bins[bin as int], bin_start, size, count));
        if bin == 0 {
            assert(size == 8) by {
                vstd::arithmetic::power2::lemma2_to64();
            }
        } else {
            let b1 = (bin - 1) as nat;
            lemma_outside_narrower(bins, start, end, start, bin_start);
            assert(blocks_outside(filled, start, bin_start));
            lemma_carve_partition(filled, b1, start, bin_start);
            let c1 = carve(filled, b1, start, bin_start);
            lemma_outside_narrower(bins, start, end, bin_end, end);
            assert(blocks_outside(filled, bin_end, end));
            assert(blocks_outside(c1, bin_end, end));
            lemma_carve_partition(c1, b1, bin_end, end);
            let c = carve(c1, b1, bin_end, end);
            assert forall|x: int| #[trigger] is_free_byte(c, x) <==> is_free_byte(bins, x) || align_up_spec(start, 8) <= x
                < align_down_spec(end, 8) by {
                assert(is_free_byte(c, x) <==> is_free_byte(c1, x) || align_up_spec(bin_end, 8) <= x < align_down_spec(
                    end,
                    8,
                ));
                assert(is_free_byte(c1, x) <==> is_free_byte(filled, x) || align_up_spec(start, 8) <= x
                    < align_down_spec(bin_start, 8));
                assert(is_free_byte(filled, x) <==> is_free_byte(bins, x) || bin_start <= x < bin_start + count * size);
            }
            assert forall|lo: int, hi: int|
                blocks_outside(bins, lo, hi) && (end <= lo || hi <= start) implies #[trigger] blocks_outside(c, lo, hi) by {
                assert(blocks_outside(filled, lo, hi));
                assert(blocks_outside(c1, lo, hi));
            }
        }
    }
}

/// A new allocator's free blocks share no byte, and together they hold
/// exactly the bytes of its region from `start` rounded up to 8 to `end`
/// rounded down to 8 (the few bytes at the ends, less than a smallest
/// block, stay unused).
pub proof fn lemma_new_blocks_partition_region(start: usize, end: usize)
    requires
        carve_ok((BIN_COUNT - 1) as nat, start as int, end as int),
    ensures
        ({
            let bins = carve(
                Seq::new(BIN_COUNT as nat, |k: int| Seq::<usize>::empty()),
                (BIN_COUNT - 1) as nat,
                start as int,
                end as int,
            );
            &&& blocks_disjoint(bins)
            &&& forall|x: int| #[trigger] is_free_byte(bins, x) <==> align_up_spec(start as int, 8) <= x < align_down_spec(
                end as int,
                8,
            )
        }),
{
    let empty = Seq::new(BIN_COUNT as nat, |k: int| Seq::<usize>::empty());
    assert forall|k: int, j: int, x: int| !#[trigger] in_block(empty, k, j, x) by {}
    lemma_carve_partition(empty, (BIN_COUNT - 1) as nat, start as int, end as int);
}

proof fn lemma_first_aligned_from(list: Seq<usize>, align: int, i: int)
    requires
        0 <= i <= list.len(),
    ensures
        i <= first_aligned_from(list, align, i) <= list.len(),
        first_aligned_from(list, align, i) < list.len() ==> (list[first_aligned_from(list, align, i)] as int)
            % align == 0,
        forall|m: int| i <= m < first_aligned_from(list, align, i) ==> (#[trigger] list[m] as int) % align != 0,
    decreases list.len() - i,
{
    if i < list.len() && (list[i] as int) % align != 0 {
        lemma_first_aligned_from(list, align, i + 1);
    }
}

proof fn lemma_first_index_from(list: Seq<usize>, v: int, i: int)
    requires
        0 <= i <= list.len(),
    ensures
        i <= first_index_from(list, v, i) <= list.len(),
        first_index_from(list, v, i) < list.len() ==> list[first_index_from(list, v, i)] as int == v,
        forall|m: int| i <= m < first_index_from(list, v, i) ==> #[trigger] list[m] as int != v,
    decreases list.len() - i,
{
    if i < list.len() && list[i] as int != v {
        lemma_first_index_from(list, v, i + 1);
    }
}

/// Dropping entry `k` of list `b` frees no byte, and keeps free every byte
/// outside that block.
proof fn lemma_drop_entry_bytes(bins: Seq<Seq<usize>>, b: int, k: int)
    requires
        0 <= b < bins.len(),
        0 <= k < bins[b].len(),
    ensures
        ({
            let bins2 = bins.update(b, bins[b].remove(k));
            forall|x: int|
                (#[trigger] is_free_byte(bins2, x) ==> is_free_byte(bins, x)) && (is_free_byte(bins, x) && !(bins[b][k]
                    <= x < bins[b][k] + bin_size_spec(b as nat)) ==> is_free_byte(bins2, x))
        }),
{
    let bins2 = bins.update(b, bins[b].remove(k));
    bins[b].remove_ensures(k);
    assert forall|x: int|
        (#[trigger] is_free_byte(bins2, x) ==> is_free_byte(bins, x)) && (is_free_byte(bins, x) && !(bins[b][k] <= x
            < bins[b][k] + bin_size_spec(b as nat)) ==> is_free_byte(bins2, x)) by {
        if is_free_byte(bins2, x) {
            let (k2, j2) = choose|k2: int, j2: int| #[trigger] in_block(bins2, k2, j2, x);
            if k2 == b {
                let j3 = if j2 < k { j2 } else { j2 + 1 };
                assert(bins2[k2][j2] == bins[k2][j3]);
                assert(in_block(bins, k2, j3, x));
            } else {
                assert(in_block(bins, k2, j2, x));
            }
        }
        if is_free_byte(bins, x) && !(bins[b][k] <= x < bins[b][k] + bin_size_spec(b as nat)) {
            let (k2, j2) = choose|k2: int, j2: int| #[trigger] in_block(bins, k2, j2, x);
            if k2 == b {
                assert(j2 != k);
                let j3 = if j2 < k { j2 } else { j2 - 1 };
                assert(bins2[k2][j3] == bins[k2][j2]);
                assert(in_block(bins2, k2, j3, x));
            } else {
                assert(in_block(bins2, k2, j2, x));
            }
        }
    }
}

/// Putting block `a` at the front of list `b` frees exactly its bytes.
proof fn lemma_prepend_bytes(bins: Seq<Seq<usize>>, b: int, a: int)
    requires
        0 <= b < bins.len(),
        0 <= a <= usize::MAX,
    ensures
        ({
            let bins2 = bins.update(b, seq![a as usize] + bins[b]);
            forall|x: int| #[trigger] is_free_byte(bins2, x) <==> is_free_byte(bins, x) || a <= x < a + bin_size_spec(b as nat)
        }),
{
    let size = bin_size_spec(b as nat) as int;
    let bins2 = bins.update(b, seq![a as usize] + bins[b]);
    assert forall|x: int| #[trigger] is_free_byte(bins2, x) <==> is_free_byte(bins, x) || a <= x < a + size by {
        if is_free_byte(bins2, x) {
            let (k, j) = choose|k: int, j: int| #[trigger] in_block(bins2, k, j, x);
            if k == b && j > 0 {
                assert(bins2[k][j] == bins[k][j - 1]);
                assert(in_block(bins, k, j - 1, x));
            } else if k != b {
                assert(in_block(bins, k, j, x));
            }
        }
        if is_free_byte(bins, x) {
            let (k, j) = choose|k: int, j: int| #[trigger] in_block(bins, k, j, x);
            if k == b {
                assert(bins2[k][j + 1] == bins[k][j]);
                assert(in_block(bins2, k, j + 1, x));
            } else {
                assert(in_block(bins2, k, j, x));
            }
        }
        if a <= x < a + size {
            assert(bins2[b][0] == a as usize);
            assert(in_block(bins2, b, 0, x));
        }
    }
}

/// Taking a block hands out a well-placed block of the bin whose bytes were
/// all free; no byte becomes free, and every other free byte stays free.
proof fn lemma_take_block_bytes(bins: Seq<Seq<usize>>, bin: nat, align: int)
    requires
        bins_wf(bins),
    ensures
        ({
            let (lists, taken) = take_block(bins, bin, align);
            taken matches Some(a) ==> {
                &&& bin < BIN_COUNT
                &&& block_ok(a as int, bin)
                &&& lists.len() == BIN_COUNT
                &&& forall|x: int| a <= x < a + bin_size_spec(bin) ==> #[trigger] is_free_byte(bins, x)
                &&& forall|x: int| #[trigger] is_free_byte(lists, x) ==> is_free_byte(bins, x)
                &&& forall|x: int|
                    #[trigger] is_free_byte(bins, x) && !(a <= x < a + bin_size_spec(bin)) ==> is_free_byte(lists, x)
            }
        }),
    decreases BIN_COUNT - bin,
{
    if bin < BIN_COUNT {
        let list = bins[bin as int];
        lemma_first_aligned_from(list, align, 0);
        let k = first_aligned_from(list, align, 0);
        if k < list.len() {
            let a = list[k];
            let kk = bin as int;
            assert(block_ok(bins[kk][k] as int, kk as nat));
            lemma_drop_entry_bytes(bins, bin as int, k);
            assert forall|x: int| a <= x < a + bin_size_spec(bin) implies #[trigger] is_free_byte(bins, x) by {
                assert(in_block(bins, bin as int, k, x));
            }
        } else {
            lemma_take_block_bytes(bins, bin + 1, align);
            let (above, taken) = take_block(bins, bin + 1, align);
            if let Some(a) = taken {
                let size = bin_size_spec(bin) as int;
                lemma_bin_sizes(bin);
                assert(bin_size_spec(bin + 1) == 2 * size);
                let bud = buddy_of(a as int, bin);
                assert(bud == a + size) by {
                    assert((a as int) % (2 * size) == 0);
                }
                lemma_mod_double(a as int, size);
                lemma_prepend_bytes(above, bin as int, bud);
                let lists = above.update(bin as int, seq![bud as usize] + above[bin as int]);
                assert(take_block(bins, bin, align) == (lists, Some(a)));
            }
        }
    }
}

/// Freeing a well-placed block of a bin frees exactly its bytes: merging
/// with a free buddy only moves bytes that were free already.
proof fn lemma_free_block_bytes(bins: Seq<Seq<usize>>, ptr: int, bin: nat)
    requires
        bins.len() == BIN_COUNT,
        bin < BIN_COUNT,
        block_ok(ptr, bin),
    ensures
        forall|x: int| #[trigger] is_free_byte(free_block(bins, ptr, bin), x) <==> is_free_byte(bins, x) || ptr <= x < ptr
            + bin_size_spec(bin),
    decreases BIN_COUNT - bin,
{
    let size = bin_size_spec(bin) as int;
    let top = usize::MAX as int + 1;
    lemma_bin_sizes(bin);
    lemma_buddy_arith(ptr, size, top);
    let b = buddy_of(ptr, bin);
    let list = bins[bin as int];
    lemma_first_index_from(list, b, 0);
    let k = first_index_from(list, b, 0);
    if bin == BIN_COUNT - 1 || k >= list.len() {
        lemma_prepend_bytes(bins, bin as int, ptr);
    } else {
        let bins1 = bins.update(bin as int, list.remove(k));
        lemma_drop_entry_bytes(bins, bin as int, k);
        let m = if ptr < b { ptr } else { b };
        assert(bin_size_spec(bin + 1) == 2 * size);
        assert(block_ok(m, bin + 1)) by {
            if ptr % (2 * size) != 0 {
                assert(b == ptr - size);
            }
        }
        lemma_free_block_bytes(bins1, m, bin + 1);
        assert forall|x: int| #[trigger] is_free_byte(free_block(bins, ptr, bin), x) <==> is_free_byte(bins, x) || ptr <= x
            < ptr + size by {
            assert(free_block(bins, ptr, bin) == free_block(bins1, m, bin + 1));
            if b <= x < b + size {
                assert(in_block(bins, bin as int, k, x));
            }
        }
    }
}

/// Allocation and deallocation undo each other: when a block is handed out
/// and then given back with the same size, exactly the same bytes are free
/// as before (the free lists may hold them in other blocks).
pub proof fn lemma_allocate_then_deallocate(bins: Seq<Seq<usize>>, size: nat, align: int)
    requires
        bins_wf(bins),
    ensures
        ({
            let bin = bin_of_size(size);
            let (lists, taken) = take_block(bins, bin, align);
            taken matches Some(a) ==> forall|x: int|
                #[trigger] is_free_byte(free_block(lists, a as int, bin), x) <==> is_free_byte(bins, x)
        }),
{
    let bin = bin_of_size(size);
    lemma_take_block_bytes(bins, bin, align);
    let (lists, taken) = take_block(bins, bin, align);
    if let Some(a) = taken {
        lemma_free_block_bytes(lists, a as int, bin);
    }
}

/// Whether no bin below the largest holds a free block together with its
/// buddy (such a pair is merged when the second of them is freed).
pub open spec fn no_free_buddies(bins: Seq<Seq<usize>>) -> bool {
    forall|k: int, i: int, j: int|
        0 <= k < BIN_COUNT - 1 && 0 <= i < bins[k].len() && 0 <= j < bins[k].len() ==> #[trigger] bins[k][j] as int
            != buddy_of(#[trigger] bins[k][i] as int, k as nat)
}

/// Dropping an entry keeps buddies apart.
proof fn lemma_drop_keeps_no_buddies(bins: Seq<Seq<usize>>, b: int, k: int)
    requires
        no_free_buddies(bins),
        bins.len() == BIN_COUNT,
        0 <= b < bins.len(),
        0 <= k < bins[b].len(),
    ensures
        no_free_buddies(bins.update(b, bins[b].remove(k))),
{
    let bins2 = bins.update(b, bins[b].remove(k));
    assert forall|kk: int, i: int, j: int|
        0 <= kk < BIN_COUNT - 1 && 0 <= i < bins2[kk].len() && 0 <= j < bins2[kk].len() implies #[trigger] bins2[kk][j] as int
        != buddy_of(#[trigger] bins2[kk][i] as int, kk as nat) by {
        if kk == b {
            let i2 = if i < k { i } else { i + 1 };
            let j2 = if j < k { j } else { j + 1 };
            assert(bins2[kk][i] == bins[kk][i2] && bins2[kk][j] == bins[kk][j2]);
        } else {
            assert(bins2[kk] == bins[kk]);
        }
    }
}

/// Putting block `a` on list `b` keeps buddies apart when its buddy is not
/// on that list.
proof fn lemma_push_keeps_no_buddies(bins: Seq<Seq<usize>>, b: int, a: usize)
    requires
        no_free_buddies(bins),
        bins_wf(bins),
        0 <= b < BIN_COUNT,
        block_ok(a as int, b as nat),
        b < BIN_COUNT - 1 ==> forall|m: int| 0 <= m < bins[b].len() ==> #[trigger] bins[b][m] as int != buddy_of(
            a as int,
            b as nat,
        ),
    ensures
        no_free_buddies(bins.update(b, seq![a] + bins[b])),
{
    let bins2 = bins.update(b, seq![a] + bins[b]);
    if b < BIN_COUNT - 1 {
        lemma_usize_bits();
        lemma_buddy_symmetric(a, b as nat);
    }
    assert forall|kk: int, i: int, j: int|
        0 <= kk < BIN_COUNT - 1 && 0 <= i < bins2[kk].len() && 0 <= j < bins2[kk].len() implies #[trigger] bins2[kk][j] as int
        != buddy_of(#[trigger] bins2[kk][i] as int, kk as nat) by {
        if kk == b {
            let size = bin_size_spec(b as nat) as int;
            if i == 0 && j == 0 {
                lemma_pow2_pos(b as nat + 3);
            } else if i == 0 {
                assert(bins2[kk][j] == bins[kk][j - 1]);
            } else if j == 0 {
                let x = bins[kk][i - 1];
                assert(bins2[kk][i] == x);
                assert(block_ok(bins[kk][i - 1] as int, kk as nat));
                lemma_buddy_symmetric(x, b as nat);
                assert(bins[kk][i - 1] as int != buddy_of(a as int, b as nat));
            } else {
                assert(bins2[kk][i] == bins[kk][i - 1] && bins2[kk][j] == bins[kk][j - 1]);
            }
        } else {
            assert(bins2[kk] == bins[kk]);
        }
    }
}

/// Freeing a block keeps buddies apart: a block whose buddy is free is
/// merged with it rather than put next to it.
proof fn lemma_free_block_no_buddies(bins: Seq<Seq<usize>>, ptr: int, bin: nat)
    requires
        bins_wf(bins),
        no_free_buddies(bins),
        bin < BIN_COUNT,
        block_ok(ptr, bin),
    ensures
        no_free_buddies(free_block(bins, ptr, bin)),
        bins_wf(free_block(bins, ptr, bin)),
    decreases BIN_COUNT - bin,
{
    let size = bin_size_spec(bin) as int;
    let top = usize::MAX as int + 1;
    lemma_bin_sizes(bin);
    lemma_buddy_arith(ptr, size, top);
    let b = buddy_of(ptr, bin);
    let list = bins[bin as int];
    lemma_first_index_from(list, b, 0);
    let k = first_index_from(list, b, 0);
    if bin == BIN_COUNT - 1 || k >= list.len() {
        lemma_push_keeps_no_buddies(bins, bin as int, ptr as usize);
        lemma_bins_wf_push(bins, bin as int, ptr as usize);
    } else {
        let bins1 = bins.update(bin as int, list.remove(k));
        lemma_drop_keeps_no_buddies(bins, bin as int, k);
        lemma_bins_wf_remove(bins, bin as int, k);
        let m = if ptr < b { ptr } else { b };
        assert(bin_size_spec(bin + 1) == 2 * size);
        assert(block_ok(m, bin + 1)) by {
            if ptr % (2 * size) != 0 {
                assert(b == ptr - size);
            }
        }
        lemma_free_block_no_buddies(bins1, m, bin + 1);
    }
}

/// Taking a block keeps buddies apart, hands out a block aligned as asked,
/// and leaves the bins below the one asked for as they were.
proof fn lemma_take_block_no_buddies(bins: Seq<Seq<usize>>, bin: nat, align: int)
    requires
        bins_wf(bins),
        no_free_buddies(bins),
        align > 0,
    ensures
        ({
            let (lists, taken) = take_block(bins, bin, align);
            &&& no_free_buddies(lists)
            &&& bins_wf(lists)
            &&& taken matches Some(a) ==> (a as int) % align == 0
            &&& forall|k: int| 0 <= k < bin && k < BIN_COUNT ==> #[trigger] lists[k] == bins[k]
        }),
    decreases BIN_COUNT - bin,
{
    if bin < BIN_COUNT {
        let list = bins[bin as int];
        lemma_first_aligned_from(list, align, 0);
        let k = first_aligned_from(list, align, 0);
        if k < list.len() {
            lemma_drop_keeps_no_buddies(bins, bin as int, k);
            lemma_bins_wf_remove(bins, bin as int, k);
        } else {
            lemma_take_block_no_buddies(bins, bin + 1, align);
            lemma_take_block_bytes(bins, bin, align);
            let (above, taken) = take_block(bins, bin + 1, align);
            if let Some(a) = taken {
                let size = bin_size_spec(bin) as int;
                lemma_bin_sizes(bin);
                lemma_take_block_bytes(bins, bin + 1, align);
                assert(bin_size_spec(bin + 1) == 2 * size);
                lemma_mod_double(a as int, size);
                assert(block_ok(a as int, bin));
                lemma_usize_bits();
                lemma_buddy_symmetric(a, bin);
                let bud = buddy_of(a as int, bin);
                assert(above[bin as int] == bins[bin as int]);
                assert forall|m: int| 0 <= m < above[bin as int].len() implies #[trigger] above[bin as int][m] as int
                    != buddy_of(bud, bin) by {
                    assert(above[bin as int][m] == list[m]);
                }
                lemma_push_keeps_no_buddies(above, bin as int, bud as usize);
                lemma_bins_wf_push(above, bin as int, bud as usize);
            }
        }
    }
}

/// Allocation and deallocation keep buddies apart: when no bin below the
/// largest holds a free block with its free buddy, handing out a block, or
/// giving back a handed-out block, leaves it so.
pub proof fn lemma_no_free_buddies_kept(bins: Seq<Seq<usize>>, size: nat, align: int, ptr: int)
    requires
        bins_wf(bins),
        no_free_buddies(bins),
        align > 0,
    ensures
        no_free_buddies(take_block(bins, bin_of_size(size), align).0),
        bin_of_size(size) < BIN_COUNT && block_ok(ptr, bin_of_size(size)) ==> no_free_buddies(
            free_block(bins, ptr, bin_of_size(size)),
        ),
{
    lemma_take_block_no_buddies(bins, bin_of_size(size), align);
    if bin_of_size(size) < BIN_COUNT && block_ok(ptr, bin_of_size(size)) {
        lemma_free_block_no_buddies(bins, ptr, bin_of_size(size));
    }
}

/// Whether the block of twice the size of bin `k` that holds address `a`
/// (the block `a`'s block would merge into) reaches outside `[lo, hi)`.
pub open spec fn parent_outside(a: int, k: nat, lo: int, hi: int) -> bool {
    let d = 2 * bin_size_spec(k) as int;
    let p = align_down_spec(a, d);
    !(lo <= p && p + d <= hi)
}

/// Whether every free block below the largest bin would merge into a block
/// reaching outside `[lo, hi)`.
pub open spec fn parents_outside(bins: Seq<Seq<usize>>, lo: int, hi: int) -> bool {
    forall|k: int, j: int| 0 <= k < BIN_COUNT - 1 && 0 <= j < bins[k].len() ==> parent_outside(#[trigger] bins[k][j] as int, k as nat, lo, hi)
}

/// Of two multiples of `d` less than `d` apart, the first is no greater.
proof fn lemma_multiple_order(x: int, y: int, d: int)
    requires
        d > 0,
        x % d == 0,
        y % d == 0,
        x < y + d,
    ensures
        x <= y,
{
    vstd::arithmetic::div_mod::lemma_fundamental_div_mod(x, d);
    vstd::arithmetic::div_mod::lemma_fundamental_div_mod(y, d);
    let qx = x / d;
    let qy = y / d;
    assert(qx <= qy) by (nonlinear_arith)
        requires
            x == d * qx,
            y == d * qy,
            x < y + d,
            d > 0,
    ;
    assert(d * qx <= d * qy) by (nonlinear_arith)
        requires
            qx <= qy,
            d > 0,
    ;
}

/// A block of bin `k` carved from `[s, e)`, where no block of twice its
/// size fits and whose ends are the region's ends or aligned to twice its
/// size, merges into a block reaching outside the region `[lo, hi)`.
proof fn lemma_parent_outside(a: int, k: nat, s: int, e: int, lo: int, hi: int)
    requires
        0 <= s <= a,
        a + bin_size_spec(k) <= e,
        s == lo || s % (2 * bin_size_spec(k) as int) == 0,
        e == hi || e % (2 * bin_size_spec(k) as int) == 0,
        align_up_spec(s, 2 * bin_size_spec(k) as int) + 2 * bin_size_spec(k) > e,
    ensures
        parent_outside(a, k, lo, hi),
{
    let size = bin_size_spec(k) as int;
    let d = 2 * size;
    lemma_pow2_pos(k + 3);
    lemma_align_spec(a, d);
    lemma_align_spec(s, d);
    let p = align_down_spec(a, d);
    if lo <= p && p + d <= hi {
        if s != lo {
            lemma_multiple_order(s, p, d);
        }
        assert(s <= p);
        if e != hi {
            vstd::arithmetic::div_mod::lemma_mod_multiples_vanish(1, p, d);
            assert((p + d) % d == 0);
            lemma_multiple_order(p + d, e, d);
        }
        assert(p + d <= e);
        lemma_multiple_order(align_up_spec(s, d), p, d);
    }
}

proof fn lemma_push_blocks_parents(
    list: Seq<usize>,
    base: int,
    count: nat,
    b: nat,
    s: int,
    e: int,
    lo: int,
    hi: int,
)
    requires
        b < BIN_COUNT - 1,
        0 <= s <= base,
        base % (bin_size_spec(b) as int) == 0,
        base + count * bin_size_spec(b) <= e,
        e <= usize::MAX,
        s == lo || s % (2 * bin_size_spec(b) as int) == 0,
        e == hi || e % (2 * bin_size_spec(b) as int) == 0,
        align_up_spec(s, 2 * bin_size_spec(b) as int) + 2 * bin_size_spec(b) > e,
        forall|j: int| 0 <= j < list.len() ==> parent_outside(#[trigger] list[j] as int, b, lo, hi),
    ensures
        forall|j: int|
            0 <= j < push_blocks(list, base, bin_size_spec(b) as int, count).len() ==> parent_outside(
                #[trigger] push_blocks(list, base, bin_size_spec(b) as int, count)[j] as int,
                b,
                lo,
                hi,
            ),
    decreases count,
{
    let size = bin_size_spec(b) as int;
    lemma_pow2_pos(b + 3);
    if count > 0 {
        let c1 = (count - 1) as nat;
        assert(base + c1 * size + size <= e && c1 * size >= 0) by (nonlinear_arith)
            requires
                base + count * size <= e,
                c1 == count - 1,
                size > 0,
        ;
        lemma_push_blocks_parents(list, base, c1, b, s, e, lo, hi);
        let a = base + c1 * size;
        lemma_parent_outside(a, b, s, e, lo, hi);
        let p = push_blocks(list, base, size, count);
        let rest = push_blocks(list, base, size, c1);
        assert(p[0] as int == a);
        assert forall|j: int| 0 <= j < p.len() implies parent_outside(#[trigger] p[j] as int, b, lo, hi) by {
            if j > 0 {
                assert(p[j] == rest[j - 1]);
            }
        }
    }
}

/// Carving a part `[s, e)` of the region `[lo, hi)`, where `s` and `e` are
/// the region's ends or aligned to twice the bin's block size, and no block
/// of twice that size fits (below the largest bin), only adds well-placed
/// blocks that merge into blocks reaching outside the region.
proof fn lemma_carve_parents(bins: Seq<Seq<usize>>, b: nat, s: int, e: int, lo: int, hi: int)
    requires
        bins_wf(bins),
        parents_outside(bins, lo, hi),
        b < BIN_COUNT,
        carve_ok(b, s, e),
        0 <= s,
        0 <= e <= usize::MAX,
        s == lo || s % (2 * bin_size_spec(b) as int) == 0,
        e == hi || e % (2 * bin_size_spec(b) as int) == 0,
        b < BIN_COUNT - 1 ==> align_up_spec(s, 2 * bin_size_spec(b) as int) + 2 * bin_size_spec(b) > e,
    ensures
        bins_wf(carve(bins, b, s, e)),
        parents_outside(carve(bins, b, s, e), lo, hi),
    decreases b,
{
    let size = bin_size_spec(b) as int;
    lemma_bin_sizes(b);
    lemma_align_spec(s, size);
    lemma_align_spec(e, size);
    let bin_start = align_up_spec(s, size);
    let bin_end = align_down_spec(e, size);
    if b > 0 {
        lemma_bin_sizes((b - 1) as nat);
        assert(2 * bin_size_spec((b - 1) as nat) == size);
    }
    if s != lo {
        lemma_mod_double(s, size);
    }
    if e != hi {
        lemma_mod_double(e, size);
    }
    if bin_end <= bin_start {
        if b > 0 {
            assert(align_up_spec(s, size) + size > e) by {
                if align_up_spec(s, size) + size <= e {
                    lemma_align_spec(align_up_spec(s, size) + size, size);
                    vstd::arithmetic::div_mod::lemma_mod_multiples_vanish(1, bin_start, size);
                    lemma_multiple_order(bin_start + size, bin_end, size);
                }
            }
            lemma_carve_parents(bins, (b - 1) as nat, s, e, lo, hi);
        }
    } else {
        let count = ((bin_end - bin_start) / size) as nat;
        vstd::arithmetic::div_mod::lemma_fundamental_div_mod(bin_end - bin_start, size);
        assert(count * size <= bin_end - bin_start) by (nonlinear_arith)
            requires
                bin_end - bin_start == size * count + (bin_end - bin_start) % size,
                (bin_end - bin_start) % size >= 0,
        ;
        let kk = b as int;
        let list = bins[kk];
        assert forall|j: int| 0 <= j < list.len() implies #[trigger] block_ok(list[j] as int, b) by {
            assert(block_ok(bins[kk][j] as int, kk as nat));
        }
        lemma_push_blocks_ok(list, bin_start, size, count, b, bin_end);
        if b < BIN_COUNT - 1 {
            assert forall|j: int| 0 <= j < list.len() implies parent_outside(#[trigger] list[j] as int, b, lo, hi) by {
                assert(parent_outside(bins[kk][j] as int, kk as nat, lo, hi));
            }
            lemma_push_blocks_parents(list, bin_start, count, b, s, e, lo, hi);
        }
        let filled = bins.update(kk, push_blocks(list, bin_start, size, count));
        assert forall|k: int, j: int| 0 <= k < BIN_COUNT && 0 <= j < filled[k].len() implies #[trigger] block_ok(
            filled[k][j] as int,
            k as nat,
        ) by {
            if k != kk {
                assert(filled[k] == bins[k]);
            }
        }
        assert forall|k: int, j: int| 0 <= k < BIN_COUNT - 1 && 0 <= j < filled[k].len() implies parent_outside(
            #[trigger] filled[k][j] as int,
            k as nat,
            lo,
            hi,
        ) by {
            if k != kk {
                assert(filled[k] == bins[k]);
            }
        }
        if b > 0 {
            let b1 = (b - 1) as nat;
            lemma_align_spec(bin_start, size);
            assert(align_up_spec(s, size) + size > bin_start);
            lemma_carve_parents(filled, b1, s, bin_start, lo, hi);
            let c1 = carve(filled, b1, s, bin_start);
            assert(align_up_spec(bin_end, size) + size > e) by {
                assert(align_up_spec(bin_end, size) == bin_end);
                if bin_end + size <= e {
                    vstd::arithmetic::div_mod::lemma_mod_multiples_vanish(1, bin_end, size);
                    lemma_align_spec(e, size);
                    lemma_multiple_order(bin_end + size, align_down_spec(e, size), size);
                }
            }
            lemma_carve_parents(c1, b1, bin_end, e, lo, hi);
        }
    }
}

/// A new allocator holds no block together with its buddy in any bin below
/// the largest: two free buddies there would make up a block of the next
/// bin that fits in the region, and such blocks are carved whole.
pub proof fn lemma_new_no_free_buddies(start: usize, end: usize)
    requires
        carve_ok((BIN_COUNT - 1) as nat, start as int, end as int),
    ensures
        no_free_buddies(
            carve(
                Seq::new(BIN_COUNT as nat, |k: int| Seq::<usize>::empty()),
                (BIN_COUNT - 1) as nat,
                start as int,
                end as int,
            ),
        ),
{
    let empty = Seq::new(BIN_COUNT as nat, |k: int| Seq::<usize>::empty());
    let lo = start as int;
    let hi = end as int;
    lemma_carve_parents(empty, (BIN_COUNT - 1) as nat, lo, hi, lo, hi);
    lemma_new_blocks_within_region(start, end);
    let c = carve(empty, (BIN_COUNT - 1) as nat, lo, hi);
    assert forall|k: int, i: int, j: int|
        0 <= k < BIN_COUNT - 1 && 0 <= i < c[k].len() && 0 <= j < c[k].len() implies #[trigger] c[k][j] as int
        != buddy_of(#[trigger] c[k][i] as int, k as nat) by {
        let a = c[k][i] as int;
        let x = c[k][j] as int;
        let size = bin_size_spec(k as nat) as int;
        lemma_bin_sizes(k as nat);
        assert(block_ok(c[k][i] as int, k as nat));
        assert(lo <= c[k][i] && c[k][i] + size <= hi);
        assert(lo <= c[k][j] && c[k][j] + size <= hi);
        assert(parent_outside(c[k][i] as int, k as nat, lo, hi));
        lemma_buddy_arith(a, size, usize::MAX as int + 1);
        lemma_align_spec(a, 2 * size);
        if x == buddy_of(a, k as nat) {
            if a % (2 * size) == 0 {
                assert(align_down_spec(a, 2 * size) == a);
            } else {
                assert(x == a - size);
                lemma_multiple_order(x, align_down_spec(a, 2 * size), 2 * size);
                lemma_multiple_order(align_down_spec(a, 2 * size), x, 2 * size);
            }
        }
    }
}

/// Dropping entry `k` of list `b` keeps the free blocks apart, and none of
/// the dropped block's bytes stays free.
proof fn lemma_drop_keeps_disjoint(bins: Seq<Seq<usize>>, b: int, k: int)
    requires
        blocks_disjoint(bins),
        0 <= b < bins.len(),
        0 <= k < bins[b].len(),
    ensures
        ({
            let bins2 = bins.update(b, bins[b].remove(k));
            &&& blocks_disjoint(bins2)
            &&& forall|x: int| bins[b][k] <= x < bins[b][k] + bin_size_spec(b as nat) ==> !#[trigger] is_free_byte(bins2, x)
        }),
{
    let bins2 = bins.update(b, bins[b].remove(k));
    bins[b].remove_ensures(k);
    assert forall|k2: int, j2: int, x: int| #[trigger] in_block(bins2, k2, j2, x) implies in_block(
        bins,
        k2,
        if k2 == b && j2 >= k { j2 + 1 } else { j2 },
        x,
    ) by {
        if k2 == b && j2 >= k {
            assert(bins2[k2][j2] == bins[k2][j2 + 1]);
        } else if k2 == b {
            assert(bins2[k2][j2] == bins[k2][j2]);
        }
    }
    assert forall|k1: int, j1: int, k2: int, j2: int, x: int|
        #[trigger] in_block(bins2, k1, j1, x) && #[trigger] in_block(bins2, k2, j2, x) implies k1 == k2 && j1 == j2 by {
        let j1b = if k1 == b && j1 >= k { j1 + 1 } else { j1 };
        let j2b = if k2 == b && j2 >= k { j2 + 1 } else { j2 };
        assert(in_block(bins, k1, j1b, x) && in_block(bins, k2, j2b, x));
    }
    assert forall|x: int| bins[b][k] <= x < bins[b][k] + bin_size_spec(b as nat) implies !#[trigger] is_free_byte(
        bins2,
        x,
    ) by {
        if is_free_byte(bins2, x) {
            let (k2, j2) = choose|k2: int, j2: int| #[trigger] in_block(bins2, k2, j2, x);
            let j2b = if k2 == b && j2 >= k { j2 + 1 } else { j2 };
            assert(in_block(bins, k2, j2b, x));
            assert(in_block(bins, b, k, x));
        }
    }
}

/// Taking a block keeps the free blocks apart, and none of the handed-out
/// block's bytes stays free.
proof fn lemma_take_block_disjoint(bins: Seq<Seq<usize>>, bin: nat, align: int)
    requires
        bins_wf(bins),
        blocks_disjoint(bins),
    ensures
        ({
            let (lists, taken) = take_block(bins, bin, align);
            &&& blocks_disjoint(lists)
            &&& taken matches Some(a) ==> forall|x: int| a <= x < a + bin_size_spec(bin) ==> !#[trigger] is_free_byte(lists, x)
        }),
    decreases BIN_COUNT - bin,
{
    if bin < BIN_COUNT {
        let list = bins[bin as int];
        lemma_first_aligned_from(list, align, 0);
        let k = first_aligned_from(list, align, 0);
        if k < list.len() {
            lemma_drop_keeps_disjoint(bins, bin as int, k);
        } else {
            lemma_take_block_disjoint(bins, bin + 1, align);
            lemma_take_block_bytes(bins, bin + 1, align);
            let (above, taken) = take_block(bins, bin + 1, align);
            if let Some(a) = taken {
                let size = bin_size_spec(bin) as int;
                lemma_bin_sizes(bin);
                assert(bin_size_spec(bin + 1) == 2 * size);
                let bud = buddy_of(a as int, bin);
                assert(bud == a + size) by {
                    assert((a as int) % (2 * size) == 0);
                }
                assert(blocks_outside(above, bud, bud + size)) by {
                    assert forall|k2: int, j2: int, x: int| #[trigger] in_block(above, k2, j2, x) implies !(bud <= x < bud
                        + size) by {
                        if bud <= x < bud + size {
                            assert(is_free_byte(above, x));
                        }
                    }
                }
                lemma_prepend_block(above, bin as int, bud);
                let lists = above.update(bin as int, seq![bud as usize] + above[bin as int]);
                assert(take_block(bins, bin, align) == (lists, Some(a)));
                assert forall|x: int| a <= x < a + size implies !#[trigger] is_free_byte(lists, x) by {
                    assert(!is_free_byte(above, x));
                }
            }
        }
    }
}

/// Freeing a block none of whose bytes is free keeps the free blocks apart.
proof fn lemma_free_block_disjoint(bins: Seq<Seq<usize>>, ptr: int, bin: nat)
    requires
        bins.len() == BIN_COUNT,
        bin < BIN_COUNT,
        block_ok(ptr, bin),
        blocks_disjoint(bins),
        blocks_outside(bins, ptr, ptr + bin_size_spec(bin)),
    ensures
        blocks_disjoint(free_block(bins, ptr, bin)),
    decreases BIN_COUNT - bin,
{
    let size = bin_size_spec(bin) as int;
    let top = usize::MAX as int + 1;
    lemma_bin_sizes(bin);
    lemma_buddy_arith(ptr, size, top);
    let b = buddy_of(ptr, bin);
    let list = bins[bin as int];
    lemma_first_index_from(list, b, 0);
    let k = first_index_from(list, b, 0);
    if bin == BIN_COUNT - 1 || k >= list.len() {
        lemma_prepend_block(bins, bin as int, ptr);
    } else {
        let bins1 = bins.update(bin as int, list.remove(k));
        lemma_drop_keeps_disjoint(bins, bin as int, k);
        lemma_drop_entry_bytes(bins, bin as int, k);
        let m = if ptr < b { ptr } else { b };
        assert(bin_size_spec(bin + 1) == 2 * size);
        assert(block_ok(m, bin + 1)) by {
            if ptr % (2 * size) != 0 {
                assert(b == ptr - size);
            }
        }
        assert(blocks_outside(bins1, m, m + 2 * size)) by {
            assert forall|k2: int, j2: int, x: int| #[trigger] in_block(bins1, k2, j2, x) implies !(m <= x < m + 2
                * size) by {
                assert(is_free_byte(bins1, x));
                assert(is_free_byte(bins, x));
                if ptr <= x < ptr + size {
                    let (k3, j3) = choose|k3: int, j3: int| #[trigger] in_block(bins, k3, j3, x);
                    assert(in_block(bins, k3, j3, x));
                } else if b <= x < b + size {
                    assert(!is_free_byte(bins1, x));
                }
            }
        }
        lemma_free_block_disjoint(bins1, m, bin + 1);
    }
}

/// Allocation and deallocation keep the free blocks apart: handing out a
/// block leaves no byte in two free blocks, and neither does giving back a
/// block none of whose bytes is free (as a handed-out block is).
pub proof fn lemma_blocks_stay_disjoint(bins: Seq<Seq<usize>>, size: nat, align: int, ptr: int)
    requires
        bins_wf(bins),
        blocks_disjoint(bins),
    ensures
        ({
            let bin = bin_of_size(size);
            let (lists, taken) = take_block(bins, bin, align);
            &&& blocks_disjoint(lists)
            &&& taken matches Some(a) ==> blocks_disjoint(free_block(lists, a as int, bin))
        }),
        bin_of_size(size) < BIN_COUNT && block_ok(ptr, bin_of_size(size)) && blocks_outside(
            bins,
            ptr,
            ptr + bin_size_spec(bin_of_size(size)),
        ) ==> blocks_disjoint(free_block(bins, ptr, bin_of_size(size))),
{
    let bin = bin_of_size(size);
    lemma_take_block_disjoint(bins, bin, align);
    lemma_take_block_bytes(bins, bin, align);
    let (lists, taken) = take_block(bins, bin, align);
    if let Some(a) = taken {
        assert(blocks_outside(lists, a as int, a + bin_size_spec(bin))) by {
            assert forall|k2: int, j2: int, x: int| #[trigger] in_block(lists, k2, j2, x) implies !(a <= x < a
                + bin_size_spec(bin)) by {
                assert(is_free_byte(lists, x));
            }
        }
        lemma_free_block_disjoint(lists, a as int, bin);
    }
    if bin < BIN_COUNT && block_ok(ptr, bin) && blocks_outside(bins, ptr, ptr + bin_size_spec(bin)) {
        lemma_free_block_disjoint(bins, ptr, bin);
    }
}

} // verus!
