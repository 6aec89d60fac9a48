//! Fixed-width integers as bytes, in both byte orders.

use vstd::prelude::*;

verus! {

// ---------------------------------------------------------------------------
// What bytes stand for
// ---------------------------------------------------------------------------

/// The number that `s` writes with its most significant byte first.
pub open spec fn be_value(s: Seq<u8>) -> nat
    decreases s.len(),
{
    if s.len() == 0 {
        0
    } else {
        be_value(s.drop_last()) * 256 + s.last() as nat
    }
}

/// The number that `s` writes with its least significant byte first.
pub open spec fn le_value(s: Seq<u8>) -> nat
    decreases s.len(),
{
    if s.len() == 0 {
        0
    } else {
        le_value(s.drop_first()) * 256 + s.first() as nat
    }
}

/// The low `width` bytes of `n`, most significant first.
pub open spec fn be_bytes(n: nat, width: nat) -> Seq<u8>
    decreases width,
{
    if width == 0 {
        Seq::empty()
    } else {
        be_bytes(n / 256, (width - 1) as nat).push((n % 256) as u8)
    }
}

/// The low `width` bytes of `n`, least significant first.
pub open spec fn le_bytes(n: nat, width: nat) -> Seq<u8>
    decreases width,
{
    if width == 0 {
        Seq::empty()
    } else {
        seq![(n % 256) as u8] + le_bytes(n / 256, (width - 1) as nat)
    }
}

/// How many values fit into `width` bytes.
pub open spec fn byte_range(width: nat) -> nat
    decreases width,
{
    if width == 0 {
        1
    } else {
        byte_range((width - 1) as nat) * 256
    }
}

pub proof fn lemma_byte_ranges()
    ensures
        byte_range(1) == 0x100,
        byte_range(2) == 0x1_0000,
        byte_range(4) == 0x1_0000_0000,
        byte_range(8) == 0x1_0000_0000_0000_0000,
{
    reveal_with_fuel(byte_range, 9);
}

/// A number is read back from the big-endian bytes that were written for it.
pub proof fn lemma_be_round_trip(n: nat, width: nat)
    requires
        n < byte_range(width),
    ensures
        be_bytes(n, width).len() == width,
        be_value(be_bytes(n, width)) == n,
    decreases width,
{
    if width > 0 {
        assert(n / 256 < byte_range((width - 1) as nat));
        lemma_be_round_trip(n / 256, (width - 1) as nat);
        let s = be_bytes(n, width);
        assert(s.drop_last() == be_bytes(n / 256, (width - 1) as nat));
    }
}

pub proof fn lemma_be_bytes_len(n: nat, width: nat)
    ensures
        be_bytes(n, width).len() == width,
    decreases width,
{
    if width > 0 {
        lemma_be_bytes_len(n / 256, (width - 1) as nat);
    }
}

/// Big-endian bytes are written back for the number that they stand for.
pub proof fn lemma_be_value_round_trip(s: Seq<u8>)
    ensures
        be_bytes(be_value(s), s.len()) == s,
        be_value(s) < byte_range(s.len()),
    decreases s.len(),
{
    if s.len() > 0 {
        lemma_be_value_round_trip(s.drop_last());
        let v = be_value(s);
        assert(v / 256 == be_value(s.drop_last()));
        assert(v % 256 == s.last() as nat);
        assert(be_bytes(v, s.len()) == be_bytes(be_value(s.drop_last()), s.drop_last().len()).push(
            s.last(),
        ));
        assert(s == s.drop_last().push(s.last()));
    }
}

/// Little-endian bytes are written back for the number that they stand for.
pub proof fn lemma_le_value_round_trip(s: Seq<u8>)
    ensures
        le_bytes(le_value(s), s.len()) == s,
        le_value(s) < byte_range(s.len()),
    decreases s.len(),
{
    if s.len() > 0 {
        lemma_le_value_round_trip(s.drop_first());
        let v = le_value(s);
        assert(v / 256 == le_value(s.drop_first()));
        assert(v % 256 == s.first() as nat);
        assert(s == seq![s.first()] + s.drop_first());
    }
}

// ---------------------------------------------------------------------------
// Reading
// ---------------------------------------------------------------------------

/// The big-endian number in `b[at..at + width]`.
pub open spec fn be_field(b: Seq<u8>, at: int, width: int) -> nat {
    be_value(b.subrange(at, at + width))
}

/// The little-endian number in `b[at..at + width]`, where those bytes exist.
pub open spec fn le_field(b: Seq<u8>, at: int, width: int) -> Option<nat> {
    if at + width <= b.len() {
        Some(le_value(b.subrange(at, at + width)))
    } else {
        None
    }
}

/// Reads a big-endian number of up to eight bytes.
pub fn read_be(b: &[u8], at: usize, width: usize) -> (n: u64)
    requires
        at + width <= b@.len(),
        width <= 8,
    ensures
        n as nat == be_field(b@, at as int, width as int),
        n < byte_range(width as nat),
{
    let mut n: u64 = 0;
    let mut i: usize = 0;
    proof {
        reveal_with_fuel(byte_range, 9);
        assert(b@.subrange(at as int, at as int) == Seq::<u8>::empty());
        assert(b.len() == b@.len());
    }
    while i < width
        invariant
            i <= width <= 8,
            at + width <= b@.len(),
            at + width <= usize::MAX,
            n as nat == be_field(b@, at as int, i as int),
            n < byte_range(i as nat),
        decreases width - i,
    {
        let ghost s = b@.subrange(at as int, at + i + 1);
        assert(s.drop_last() == b@.subrange(at as int, at + i));
        assert(s.last() == b@[at + i]);
        proof {
            lemma_be_value_round_trip(s);
            lemma_byte_range_bound((i + 1) as nat);
        }
        n = n * 256 + b[at + i] as u64;
        i += 1;
    }
    n
}

proof fn lemma_byte_range_bound(width: nat)
    requires
        width <= 8,
    ensures
        byte_range(width) <= 0x1_0000_0000_0000_0000,
{
    reveal_with_fuel(byte_range, 9);
}

/// Reads a little-endian number of up to eight bytes, if it lies inside `b`.
pub fn read_le(b: &[u8], at: usize, width: usize) -> (n: Option<u64>)
    requires
        width <= 8,
    ensures
        n is Some <==> at + width <= b@.len(),
        n matches Some(v) ==> v as nat == le_field(b@, at as int, width as int)->0 && v
            < byte_range(width as nat),
        n is None ==> le_field(b@, at as int, width as int) is None,
{
    if width > b.len() || at > b.len() - width {
        return None;
    }
    let mut n: u64 = 0;
    let mut i: usize = width;
    proof {
        reveal_with_fuel(byte_range, 9);
        assert(b@.subrange(at + width, at + width) == Seq::<u8>::empty());
        assert(b.len() == b@.len());
    }
    while i > 0
        invariant
            i <= width <= 8,
            at + width <= b@.len(),
            at + width <= usize::MAX,
            n as nat == le_value(b@.subrange(at + i, at + width)),
            n < byte_range((width - i) as nat),
        decreases i,
    {
        let ghost s = b@.subrange(at + i - 1, at + width);
        assert(s.drop_first() == b@.subrange(at + i, at + width));
        assert(s.first() == b@[at + i - 1]);
        proof {
            lemma_le_value_round_trip(s);
            lemma_byte_range_bound((width - i + 1) as nat);
        }
        i -= 1;
        n = n * 256 + b[at + i] as u64;
    }
    Some(n)
}

// ---------------------------------------------------------------------------
// Writing and comparing
// ---------------------------------------------------------------------------

/// Appends the low `width` bytes of `n`, most significant first.
pub fn push_be(out: &mut Vec<u8>, n: u64, width: usize)
    ensures
        final(out)@ == old(out)@ + be_bytes(n as nat, width as nat),
    decreases width,
{
    if width > 0 {
        push_be(out, n / 256, width - 1);
        out.push((n % 256) as u8);
    }
}

/// Appends every byte of `s`.
pub fn push_bytes(out: &mut Vec<u8>, s: &[u8])
    ensures
        final(out)@ == old(out)@ + s@,
{
    let mut i: usize = 0;
    while i < s.len()
        invariant
            i <= s@.len(),
            out@ == old(out)@ + s@.take(i as int),
        decreases s@.len() - i,
    {
        out.push(s[i]);
        i += 1;
        assert(s@.take(i as int) == s@.take(i - 1).push(s@[i - 1]));
    }
    assert(s@.take(i as int) == s@);
}

/// Whether `prefix` stands at the start of `b`.
pub open spec fn has_prefix(b: Seq<u8>, prefix: Seq<u8>) -> bool {
    prefix.len() <= b.len() && b.take(prefix.len() as int) == prefix
}

/// Whether `prefix` stands at the start of `b`.
pub fn starts_with(b: &[u8], prefix: &[u8]) -> (r: bool)
    ensures
        r == has_prefix(b@, prefix@),
{
    if prefix.len() > b.len() {
        return false;
    }
    let mut i: usize = 0;
    while i < prefix.len()
        invariant
            i <= prefix@.len() <= b@.len(),
            forall|j: int| 0 <= j < i ==> b@[j] == prefix@[j],
        decreases prefix@.len() - i,
    {
        if b[i] != prefix[i] {
            assert(b@.take(prefix@.len() as int)[i as int] != prefix@[i as int]);
            return false;
        }
        i += 1;
    }
    assert(b@.take(prefix@.len() as int) =~= prefix@);
    true
}

/// Copies 512 bytes into an array.
pub fn sector_of(v: &Vec<u8>) -> (a: [u8; 512])
    requires
        v@.len() == 512,
    ensures
        a@ == v@,
{
    let mut a: [u8; 512] = [0u8; 512];
    let mut i: usize = 0;
    while i < 512
        invariant
            i <= 512,
            v@.len() == 512,
            forall|j: int| 0 <= j < i ==> a@[j] == v@[j],
        decreases 512 - i,
    {
        a[i] = v[i];
        i += 1;
    }
    assert(a@ =~= v@);
    a
}

// ---------------------------------------------------------------------------
// Laws
// ---------------------------------------------------------------------------

/// The number whose base-256 digits stand in `b[at..at + n]`, the least
/// significant one first.
pub open spec fn le_digits(b: Seq<u8>, at: int, n: nat) -> int
    decreases n,
{
    if n == 0 {
        0
    } else {
        b[at] + 256 * le_digits(b, at + 1, (n - 1) as nat)
    }
}

/// The number whose base-256 digits stand in `b[at..at + n]`, the most
/// significant one first.
#[verifier::opaque]
pub open spec fn be_digits(b: Seq<u8>, at: int, n: nat) -> int
    decreases n,
{
    if n == 0 {
        0
    } else {
        256 * be_digits(b, at, (n - 1) as nat) + b[at + n - 1]
    }
}

/// A little-endian field is the number whose digits it holds, and there is none
/// where it would reach past the end.
pub proof fn law_little_endian_fields_hold_digits(b: Seq<u8>, at: int, n: nat)
    requires
        0 <= at,
    ensures
        at + n <= b.len() ==> le_field(b, at, n as int) == Some(le_digits(b, at, n) as nat)
            && le_digits(b, at, n) >= 0,
        at + n > b.len() ==> le_field(b, at, n as int) is None,
    decreases n,
{
    if at + n <= b.len() && n > 0 {
        law_little_endian_fields_hold_digits(b, at + 1, (n - 1) as nat);
        assert(b.subrange(at, at + n).drop_first() =~= b.subrange(at + 1, at + n));
    }
}

/// A big-endian field is the number whose digits it holds.
pub proof fn law_big_endian_fields_hold_digits(b: Seq<u8>, at: int, n: nat)
    requires
        0 <= at,
        at + n <= b.len(),
    ensures
        be_field(b, at, n as int) == be_digits(b, at, n),
    decreases n,
{
    reveal(be_digits);
    if n > 0 {
        law_big_endian_fields_hold_digits(b, at, (n - 1) as nat);
        assert(b.subrange(at, at + n).drop_last() =~= b.subrange(at, at + n - 1));
    }
}

/// A text of bytes starts with another exactly when it is as long and agrees
/// with it byte by byte.
pub proof fn law_prefixes_agree_byte_by_byte(b: Seq<u8>, prefix: Seq<u8>)
    ensures
        has_prefix(b, prefix) <==> prefix.len() <= b.len() && forall|i: int|
            0 <= i < prefix.len() ==> #[trigger] b[i] == prefix[i],
{
    if has_prefix(b, prefix) {
        assert forall|i: int| 0 <= i < prefix.len() implies #[trigger] b[i] == prefix[i] by {
            assert(b.take(prefix.len() as int)[i] == b[i]);
        }
    } else if prefix.len() <= b.len() && forall|i: int|
        0 <= i < prefix.len() ==> #[trigger] b[i] == prefix[i] {
        assert(b.take(prefix.len() as int) =~= prefix);
    }
}

} // verus!
