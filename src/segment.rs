//! Segments: a log is a run of fixed-capacity files, each named by the
//! logical offset at which it starts, written as 20 zero-padded decimal digits.

use vstd::prelude::*;

verus! {

/// Digits in a segment's name.
pub const NAME_DIGITS: usize = 20;

/// The last `width` decimal digits of `n`, as ASCII, most significant first.
pub open spec fn padded_decimal(n: nat, width: nat) -> Seq<u8>
    decreases width,
{
    if width == 0 {
        Seq::empty()
    } else {
        padded_decimal(n / 10, (width - 1) as nat).push((48 + n % 10) as u8)
    }
}

/// The name of the segment that starts at `start`.
pub open spec fn segment_name(start: u64) -> Seq<u8> {
    padded_decimal(start as nat, NAME_DIGITS as nat)
}

pub open spec fn is_digit(c: u8) -> bool {
    48 <= c <= 57
}

/// The number that a run of ASCII decimal digits writes.
pub open spec fn decimal_value(s: Seq<u8>) -> nat
    decreases s.len(),
{
    if s.len() == 0 {
        0
    } else {
        decimal_value(s.drop_last()) * 10 + (s.last() - 48) as nat
    }
}

/// The segment start that a file name gives, if it is a segment's name.
pub open spec fn parsed_name(name: Seq<u8>) -> Option<u64> {
    if name.len() == NAME_DIGITS && (forall|i: int| 0 <= i < name.len() ==> is_digit(#[trigger] name[i]))
        && decimal_value(name) <= u64::MAX {
        Some(decimal_value(name) as u64)
    } else {
        None
    }
}

fn padded_digits(n: u64, width: usize) -> (r: Vec<u8>)
    ensures
        r@ == padded_decimal(n as nat, width as nat),
    decreases width,
{
    if width == 0 {
        Vec::new()
    } else {
        let mut v = padded_digits(n / 10, width - 1);
        v.push(48u8 + (n % 10) as u8);
        v
    }
}

/// The file name of the segment that starts at `start`.
pub fn segment_file_name(start: u64) -> (r: Vec<u8>)
    ensures
        r@ == segment_name(start),
{
    padded_digits(start, NAME_DIGITS)
}

/// Reads a segment's start back from its file name: `None` unless the name is
/// 20 decimal digits that write a `u64`.
pub fn parse_segment_name(name: &[u8]) -> (r: Option<u64>)
    ensures
        r == parsed_name(name@),
{
    if name.len() != NAME_DIGITS {
        return None;
    }
    let mut acc: u64 = 0;
    let mut i: usize = 0;
    while i < name.len()
        invariant
            i <= name@.len() == NAME_DIGITS,
            forall|j: int| 0 <= j < i ==> is_digit(#[trigger] name@[j]),
            acc == decimal_value(name@.subrange(0, i as int)),
        decreases name@.len() - i,
    {
        let c = name[i];
        if c < 48 || c > 57 {
            assert(!is_digit(name@[i as int]));
            return None;
        }
        let d = (c - 48) as u64;
        assert(name@.subrange(0, i + 1).drop_last() =~= name@.subrange(0, i as int));
        if acc > (u64::MAX - d) / 10 {
            assert(decimal_value(name@.subrange(0, i + 1)) > u64::MAX) by (nonlinear_arith)
                requires
                    acc > (u64::MAX - d) / 10,
                    decimal_value(name@.subrange(0, i + 1)) == acc * 10 + d,
            ;
            proof {
                if forall|j: int| 0 <= j < name@.len() ==> is_digit(#[trigger] name@[j]) {
                    lemma_decimal_prefix_le(name@, i + 1);
                }
            }
            return None;
        }
        assert(acc * 10 + d <= u64::MAX) by (nonlinear_arith)
            requires
                acc <= (u64::MAX - d) / 10,
                d <= 9,
        ;
        acc = acc * 10 + d;
        i = i + 1;
    }
    assert(name@.subrange(0, name@.len() as int) =~= name@);
    Some(acc)
}

/// A prefix of a digit run never writes more than the whole run.
pub proof fn lemma_decimal_prefix_le(s: Seq<u8>, k: int)
    requires
        0 <= k <= s.len(),
        forall|i: int| 0 <= i < s.len() ==> is_digit(#[trigger] s[i]),
    ensures
        decimal_value(s.subrange(0, k)) <= decimal_value(s),
    decreases s.len() - k,
{
    if k < s.len() {
        lemma_decimal_prefix_le(s, k + 1);
        assert(s.subrange(0, k + 1).drop_last() =~= s.subrange(0, k));
        assert(is_digit(s[k]));
    } else {
        assert(s.subrange(0, k) =~= s);
    }
}

/// Index of the segment that holds logical offset `offset`.
pub open spec fn index_of(offset: u64, capacity: u64) -> u64
    recommends
        capacity > 0,
{
    (offset / capacity) as u64
}

/// Position of logical offset `offset` within its segment.
pub open spec fn local_of(offset: u64, capacity: u64) -> u64
    recommends
        capacity > 0,
{
    (offset % capacity) as u64
}

/// Index of the segment that holds logical offset `offset`.
pub fn segment_index(offset: u64, capacity: u64) -> (r: u64)
    requires
        capacity > 0,
    ensures
        r == index_of(offset, capacity),
{
    offset / capacity
}

/// Position of logical offset `offset` within its segment.
pub fn local_offset(offset: u64, capacity: u64) -> (r: u64)
    requires
        capacity > 0,
    ensures
        r == local_of(offset, capacity),
{
    offset % capacity
}

/// An offset is its segment's start plus its position there, and that
/// position lies inside the segment; an offset that is a multiple of the
/// capacity is the first byte of segment `offset / capacity`.
pub proof fn lemma_offset_split(offset: u64, capacity: u64)
    requires
        capacity > 0,
    ensures
        index_of(offset, capacity) * capacity + local_of(offset, capacity) == offset,
        local_of(offset, capacity) < capacity,
        offset % capacity == 0 ==> local_of(offset, capacity) == 0 && index_of(offset, capacity)
            * capacity == offset,
{
    assert(offset == (offset / capacity) * capacity + offset % capacity) by (nonlinear_arith)
        requires
            capacity > 0,
    ;
}

/// The segment that starts at `k * capacity` holds offsets
/// `k * capacity .. (k + 1) * capacity`: their index is `k`.
pub proof fn lemma_segment_bounds(k: u64, capacity: u64, offset: u64)
    requires
        capacity > 0,
        k * capacity <= offset < (k + 1) * capacity,
    ensures
        index_of(offset, capacity) == k,
        local_of(offset, capacity) == offset - k * capacity,
{
    let q = offset / capacity;
    let r = offset % capacity;
    assert(offset == q * capacity + r && 0 <= r < capacity) by (nonlinear_arith)
        requires
            capacity > 0,
            q == offset / capacity,
            r == offset % capacity,
    ;
    assert(q == k) by (nonlinear_arith)
        requires
            offset == q * capacity + r,
            0 <= r < capacity,
            k * capacity <= offset < (k + 1) * capacity,
            capacity > 0,
    ;
}

/// The start of the newest segment among `starts`; the first segment
/// starts at 0 when there is none.
pub fn latest_segment_start(starts: &[u64]) -> (r: u64)
    ensures
        starts@.len() == 0 ==> r == 0,
        starts@.len() > 0 ==> starts@.contains(r),
        forall|i: int| 0 <= i < starts@.len() ==> starts@[i] <= r,
{
    let mut best: u64 = 0;
    let mut i: usize = 0;
    while i < starts.len()
        invariant
            i <= starts@.len(),
            i == 0 ==> best == 0,
            i > 0 ==> starts@.subrange(0, i as int).contains(best),
            forall|j: int| 0 <= j < i ==> starts@[j] <= best,
        decreases starts@.len() - i,
    {
        if i == 0 || starts[i] > best {
            best = starts[i];
            assert(starts@.subrange(0, i + 1)[i as int] == best);
        } else {
            let ghost w = choose|w: int| 0 <= w < i && starts@.subrange(0, i as int)[w] == best;
            assert(starts@.subrange(0, i + 1)[w] == best);
        }
        i = i + 1;
    }
    if i > 0 {
        assert(starts@.subrange(0, i as int) =~= starts@);
    }
    best
}

} // verus!
