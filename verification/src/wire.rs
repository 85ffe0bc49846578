//! The byte layout of the elements of a binary row: big-endian integers of
//! two, four and eight bytes, and text that ends at its first zero byte.

use vstd::prelude::*;
use vstd::slice::slice_subrange;
use byteorder::ByteOrder;

verus! {

/// The number that `bytes` denote, most significant byte first.
pub open spec fn be_value(bytes: Seq<u8>) -> nat
    decreases bytes.len(),
{
    if bytes.len() == 0 {
        0
    } else {
        be_value(bytes.drop_last()) * 256 + bytes.last() as nat
    }
}

/// The `width` bytes that denote `value`, most significant byte first.
pub open spec fn be_bytes(value: nat, width: nat) -> Seq<u8>
    decreases width,
{
    if width == 0 {
        Seq::empty()
    } else {
        be_bytes(value / 256, (width - 1) as nat).push((value % 256) as u8)
    }
}

/// The unsigned number in the two bytes of `bytes` from `at` on.
pub open spec fn be_u16_at(bytes: Seq<u8>, at: int) -> nat {
    be_value(bytes.subrange(at, at + 2))
}

/// The unsigned number in the four bytes of `bytes` from `at` on.
pub open spec fn be_u32_at(bytes: Seq<u8>, at: int) -> nat {
    be_value(bytes.subrange(at, at + 4))
}

/// The unsigned number in the eight bytes of `bytes` from `at` on.
pub open spec fn be_u64_at(bytes: Seq<u8>, at: int) -> nat {
    be_value(bytes.subrange(at, at + 8))
}

/// The number that `value` denotes as a two's complement integer of `bits`
/// bits, where `half` is two to the power of `bits - 1`.
pub open spec fn twos_complement(value: nat, half: nat) -> int {
    if value >= half {
        value - 2 * half
    } else {
        value as int
    }
}

/// The signed number in the two bytes of `bytes` from `at` on.
pub open spec fn be_i16_at(bytes: Seq<u8>, at: int) -> int {
    twos_complement(be_u16_at(bytes, at), 0x8000)
}

/// The signed number in the four bytes of `bytes` from `at` on.
pub open spec fn be_i32_at(bytes: Seq<u8>, at: int) -> int {
    twos_complement(be_u32_at(bytes, at), 0x8000_0000)
}

/// The signed number in the eight bytes of `bytes` from `at` on.
pub open spec fn be_i64_at(bytes: Seq<u8>, at: int) -> int {
    twos_complement(be_u64_at(bytes, at), 0x8000_0000_0000_0000)
}

/// Reading back what was written gives the number that was written.
pub proof fn lemma_be_round_trip(value: nat, width: nat)
    ensures
        be_bytes(value, width).len() == width,
        be_value(be_bytes(value, width)) == value % pow256(width),
    decreases width,
{
    if width > 0 {
        let rest = be_bytes(value / 256, (width - 1) as nat);
        lemma_be_round_trip(value / 256, (width - 1) as nat);
        assert(be_bytes(value, width).drop_last() =~= rest);
        let p = pow256((width - 1) as nat) as int;
        lemma_pow256_positive((width - 1) as nat);
        vstd::arithmetic::div_mod::lemma_breakdown(value as int, 256, p);
    }
}

/// Two hundred and fifty-six to the power of `n`.
pub open spec fn pow256(n: nat) -> nat
    decreases n,
{
    if n == 0 {
        1
    } else {
        pow256((n - 1) as nat) * 256
    }
}

/// The bound of `pow256`, computed for the three widths of the wire.
pub proof fn lemma_pow256()
    ensures
        pow256(2) == 0x1_0000,
        pow256(4) == 0x1_0000_0000,
        pow256(8) == 0x1_0000_0000_0000_0000,
        forall|n: nat| pow256(n) > 0,
{
    reveal_with_fuel(pow256, 9);
    assert forall|n: nat| pow256(n) > 0 by {
        lemma_pow256_positive(n);
    }
}

proof fn lemma_pow256_positive(n: nat)
    ensures
        pow256(n) > 0,
    decreases n,
{
    if n > 0 {
        lemma_pow256_positive((n - 1) as nat);
    }
}

/// The number that bytes denote is below two hundred and fifty-six to the
/// power of their count.
pub proof fn lemma_be_value_bound(bytes: Seq<u8>)
    ensures
        be_value(bytes) < pow256(bytes.len()),
    decreases bytes.len(),
{
    if bytes.len() > 0 {
        lemma_be_value_bound(bytes.drop_last());
    }
}

/// `byteorder::BigEndian::read_i16`: the first two bytes of `buf`, read as a
/// big-endian two's complement integer. The crate panics on a shorter
/// buffer.
#[verifier::external_body]
fn read_i16(buf: &[u8]) -> (r: i16)
    requires
        buf@.len() >= 2,
    ensures
        r as int == be_i16_at(buf@, 0),
{
    byteorder::BigEndian::read_i16(buf)
}

/// `byteorder::BigEndian::read_i32`: the first four bytes of `buf`, read as
/// a big-endian two's complement integer. The crate panics on a shorter
/// buffer.
#[verifier::external_body]
fn read_i32(buf: &[u8]) -> (r: i32)
    requires
        buf@.len() >= 4,
    ensures
        r as int == be_i32_at(buf@, 0),
{
    byteorder::BigEndian::read_i32(buf)
}

/// `byteorder::BigEndian::read_i64`: the first eight bytes of `buf`, read as
/// a big-endian two's complement integer. The crate panics on a shorter
/// buffer.
#[verifier::external_body]
fn read_i64(buf: &[u8]) -> (r: i64)
    requires
        buf@.len() >= 8,
    ensures
        r as int == be_i64_at(buf@, 0),
{
    byteorder::BigEndian::read_i64(buf)
}

/// `byteorder::BigEndian::read_u32`: the first four bytes of `buf`, read as
/// a big-endian unsigned integer. The crate panics on a shorter buffer.
#[verifier::external_body]
fn read_u32(buf: &[u8]) -> (r: u32)
    requires
        buf@.len() >= 4,
    ensures
        r as nat == be_u32_at(buf@, 0),
{
    byteorder::BigEndian::read_u32(buf)
}

/// `byteorder::BigEndian::read_u64`: the first eight bytes of `buf`, read as
/// a big-endian unsigned integer. The crate panics on a shorter buffer.
#[verifier::external_body]
fn read_u64(buf: &[u8]) -> (r: u64)
    requires
        buf@.len() >= 8,
    ensures
        r as nat == be_u64_at(buf@, 0),
{
    byteorder::BigEndian::read_u64(buf)
}

/// The signed sixteen-bit integer at `at`.
pub fn i16_at(bytes: &[u8], at: usize) -> (r: i16)
    requires
        at + 2 <= bytes@.len(),
    ensures
        r as int == be_i16_at(bytes@, at as int),
{
    let end = bytes.len();
    let chunk = slice_subrange(bytes, at, at + 2);
    assert(chunk@.subrange(0, 2) =~= bytes@.subrange(at as int, at + 2));
    read_i16(chunk)
}

/// The signed thirty-two-bit integer at `at`.
pub fn i32_at(bytes: &[u8], at: usize) -> (r: i32)
    requires
        at + 4 <= bytes@.len(),
    ensures
        r as int == be_i32_at(bytes@, at as int),
{
    let end = bytes.len();
    let chunk = slice_subrange(bytes, at, at + 4);
    assert(chunk@.subrange(0, 4) =~= bytes@.subrange(at as int, at + 4));
    read_i32(chunk)
}

/// The signed sixty-four-bit integer at `at`.
pub fn i64_at(bytes: &[u8], at: usize) -> (r: i64)
    requires
        at + 8 <= bytes@.len(),
    ensures
        r as int == be_i64_at(bytes@, at as int),
{
    let end = bytes.len();
    let chunk = slice_subrange(bytes, at, at + 8);
    assert(chunk@.subrange(0, 8) =~= bytes@.subrange(at as int, at + 8));
    read_i64(chunk)
}

/// The unsigned thirty-two-bit integer at `at`.
pub fn u32_at(bytes: &[u8], at: usize) -> (r: u32)
    requires
        at + 4 <= bytes@.len(),
    ensures
        r as nat == be_u32_at(bytes@, at as int),
{
    let end = bytes.len();
    let chunk = slice_subrange(bytes, at, at + 4);
    assert(chunk@.subrange(0, 4) =~= bytes@.subrange(at as int, at + 4));
    read_u32(chunk)
}

/// The unsigned sixty-four-bit integer at `at`.
pub fn u64_at(bytes: &[u8], at: usize) -> (r: u64)
    requires
        at + 8 <= bytes@.len(),
    ensures
        r as nat == be_u64_at(bytes@, at as int),
{
    let end = bytes.len();
    let chunk = slice_subrange(bytes, at, at + 8);
    assert(chunk@.subrange(0, 8) =~= bytes@.subrange(at as int, at + 8));
    read_u64(chunk)
}

/// Where the text in `bytes` ends: at its first zero byte, or at its end
/// where it has none.
pub open spec fn text_end(bytes: Seq<u8>) -> int
    decreases bytes.len(),
{
    if bytes.len() == 0 || bytes[0] == 0 {
        0
    } else {
        1 + text_end(bytes.skip(1))
    }
}

/// The text in `bytes`: what stands before the first zero byte.
pub open spec fn c_string(bytes: Seq<u8>) -> Seq<u8> {
    bytes.take(text_end(bytes))
}

/// The text ends at `k` where no byte before `k` is zero and `k` is a zero
/// byte or the end.
pub proof fn lemma_text_end(bytes: Seq<u8>, k: int)
    requires
        0 <= k <= bytes.len(),
        forall|i: int| 0 <= i < k ==> bytes[i] != 0,
        k == bytes.len() || bytes[k] == 0,
    ensures
        text_end(bytes) == k,
    decreases bytes.len(),
{
    if k > 0 {
        lemma_text_end(bytes.skip(1), k - 1);
    }
}

/// Where the text in the `count` bytes from `at` ends.
pub fn find_text_end(bytes: &[u8], at: usize, count: usize) -> (r: usize)
    requires
        at + count <= bytes@.len(),
    ensures
        r == text_end(bytes@.subrange(at as int, at + count)),
        r <= count,
{
    let ghost chunk = bytes@.subrange(at as int, at + count);
    let end = bytes.len();
    let mut k: usize = 0;
    while k < count && bytes[at + k] != 0
        invariant
            k <= count,
            end == bytes@.len(),
            at + count <= bytes@.len(),
            chunk == bytes@.subrange(at as int, at + count),
            forall|i: int| 0 <= i < k ==> chunk[i] != 0,
        decreases count - k,
    {
        k = k + 1;
    }
    proof {
        lemma_text_end(chunk, k as int);
    }
    k
}

} // verus!
