//! Big-endian integers and comparisons of byte strings.

use vstd::prelude::*;

verus! {

/// The number that `s` spells in base 256, most significant byte first.
pub open spec fn be_value(s: Seq<u8>) -> nat
    decreases s.len(),
{
    if s.len() == 0 {
        0
    } else {
        be_value(s.drop_last()) * 256 + s.last() as nat
    }
}

/// The `width` least significant base-256 digits of `n`, most significant
/// first.
pub open spec fn be_bytes(n: nat, width: nat) -> Seq<u8>
    decreases width,
{
    if width == 0 {
        Seq::empty()
    } else {
        be_bytes(n / 256, (width - 1) as nat).push((n % 256) as u8)
    }
}

/// 256 to the power of `width`: how many numbers `width` bytes can spell.
pub open spec fn be_limit(width: nat) -> nat
    decreases width,
{
    if width == 0 {
        1
    } else {
        256 * be_limit((width - 1) as nat)
    }
}

/// A byte string spells a number below the limit of its width.
pub proof fn lemma_be_value_bound(s: Seq<u8>)
    ensures
        be_value(s) < be_limit(s.len()),
    decreases s.len(),
{
    if s.len() > 0 {
        lemma_be_value_bound(s.drop_last());
    }
}

/// Spelling a number out takes exactly the width asked for.
pub proof fn lemma_be_bytes_len(n: nat, width: nat)
    ensures
        be_bytes(n, width).len() == width,
    decreases width,
{
    if width > 0 {
        lemma_be_bytes_len(n / 256, (width - 1) as nat);
    }
}

/// Reading back a number that fits the width returns it.
pub proof fn lemma_be_round_trip(n: nat, width: nat)
    requires
        n < be_limit(width),
    ensures
        be_value(be_bytes(n, width)) == n,
    decreases width,
{
    if width > 0 {
        lemma_be_round_trip(n / 256, (width - 1) as nat);
        let s = be_bytes(n, width);
        assert(s.drop_last() =~= be_bytes(n / 256, (width - 1) as nat));
    }
}

/// Spelling out the number that a byte string spells returns the byte string.
pub proof fn lemma_be_bytes_of_value(s: Seq<u8>)
    ensures
        be_bytes(be_value(s), s.len()) == s,
    decreases s.len(),
{
    if s.len() > 0 {
        let front = s.drop_last();
        lemma_be_bytes_of_value(front);
        let n = be_value(s);
        assert(n / 256 == be_value(front));
        assert(n % 256 == s.last());
        assert(be_bytes(n, s.len()) =~= s);
    } else {
        assert(be_bytes(0, 0) =~= s);
    }
}

/// Two byte strings of one length that spell one number are the same.
pub proof fn lemma_be_value_injective(a: Seq<u8>, b: Seq<u8>)
    requires
        a.len() == b.len(),
        be_value(a) == be_value(b),
    ensures
        a == b,
{
    lemma_be_bytes_of_value(a);
    lemma_be_bytes_of_value(b);
}

/// The limits of the widths in use.
pub proof fn lemma_be_limits()
    ensures
        be_limit(2) == 0x1_0000,
        be_limit(4) == 0x1_0000_0000,
        be_limit(8) == 0x1_0000_0000_0000_0000,
        be_limit(16) == 0x1_0000_0000_0000_0000_0000_0000_0000_0000,
{
    reveal_with_fuel(be_limit, 17);
}

/// A longer width has a greater limit.
proof fn lemma_be_limit_monotone(a: nat, b: nat)
    requires
        a <= b,
    ensures
        be_limit(a) <= be_limit(b),
    decreases b,
{
    if a < b {
        lemma_be_limit_monotone(a, (b - 1) as nat);
    }
}

/// Reads at most sixteen bytes as one big-endian number.
pub fn be_read(s: &[u8]) -> (n: u128)
    requires
        s@.len() <= 16,
    ensures
        n == be_value(s@),
{
    let mut n: u128 = 0;
    let mut i: usize = 0;
    while i < s.len()
        invariant
            i <= s@.len() <= 16,
            n == be_value(s@.take(i as int)),
        decreases s@.len() - i,
    {
        proof {
            let next = s@.take(i + 1);
            assert(next.drop_last() =~= s@.take(i as int));
            lemma_be_value_bound(next);
            lemma_be_limit_monotone(next.len(), 16);
            lemma_be_limits();
        }
        n = n * 256 + s[i] as u128;
        i = i + 1;
    }
    assert(s@.take(i as int) =~= s@);
    n
}

/// Reads eight bytes as one big-endian number.
pub fn be_read_u64(s: &[u8]) -> (n: u64)
    requires
        s@.len() == 8,
    ensures
        n == be_value(s@),
{
    proof {
        lemma_be_value_bound(s@);
        lemma_be_limits();
    }
    be_read(s) as u64
}

/// Reads four bytes as one big-endian number.
pub fn be_read_u32(s: &[u8]) -> (n: u32)
    requires
        s@.len() == 4,
    ensures
        n == be_value(s@),
{
    proof {
        lemma_be_value_bound(s@);
        lemma_be_limits();
    }
    be_read(s) as u32
}

/// Reads two bytes as one big-endian number.
pub fn be_read_u16(s: &[u8]) -> (n: u16)
    requires
        s@.len() == 2,
    ensures
        n == be_value(s@),
{
    proof {
        lemma_be_value_bound(s@);
        lemma_be_limits();
    }
    be_read(s) as u16
}

/// Appends the `width` least significant bytes of `n`, most significant first.
pub fn be_append(out: &mut Vec<u8>, n: u128, width: usize)
    ensures
        final(out)@ == old(out)@ + be_bytes(n as nat, width as nat),
    decreases width,
{
    if width > 0 {
        be_append(out, n / 256, width - 1);
        out.push((n % 256) as u8);
        assert(out@ =~= old(out)@ + be_bytes(n as nat, width as nat));
    } else {
        assert(out@ =~= old(out)@ + be_bytes(n as nat, width as nat));
    }
}

/// Whether two byte strings are the same.
pub fn bytes_eq(a: &[u8], b: &[u8]) -> (same: bool)
    ensures
        same == (a@ == b@),
{
    if a.len() != b.len() {
        return false;
    }
    let mut i: usize = 0;
    while i < a.len()
        invariant
            i <= a@.len(),
            a@.len() == b@.len(),
            forall|j: int| 0 <= j < i ==> a@[j] == b@[j],
        decreases a@.len() - i,
    {
        if a[i] != b[i] {
            return false;
        }
        i = i + 1;
    }
    assert(a@ =~= b@);
    true
}

/// Copies `s` into an array of sixteen bytes.
pub fn to_array16(s: &[u8]) -> (a: [u8; 16])
    requires
        s@.len() == 16,
    ensures
        a@ == s@,
{
    let mut a: [u8; 16] = [0u8; 16];
    let mut i: usize = 0;
    while i < 16
        invariant
            i <= 16,
            s@.len() == 16,
            forall|j: int| 0 <= j < i ==> a@[j] == s@[j],
        decreases 16 - i,
    {
        a[i] = s[i];
        i = i + 1;
    }
    assert(a@ =~= s@);
    a
}

/// Copies `s` into an array of thirty-two bytes.
pub fn to_array32(s: &[u8]) -> (a: [u8; 32])
    requires
        s@.len() == 32,
    ensures
        a@ == s@,
{
    let mut a: [u8; 32] = [0u8; 32];
    let mut i: usize = 0;
    while i < 32
        invariant
            i <= 32,
            s@.len() == 32,
            forall|j: int| 0 <= j < i ==> a@[j] == s@[j],
        decreases 32 - i,
    {
        a[i] = s[i];
        i = i + 1;
    }
    assert(a@ =~= s@);
    a
}

/// The most significant byte comes first: each further byte counts for itself
/// and makes what stands before it count 256 times as much.
pub proof fn numbers_read_from_the_front(s: Seq<u8>, b: u8)
    ensures
        be_value(Seq::<u8>::empty()) == 0,
        be_value(s.push(b)) == 256 * be_value(s) + b,
{
    assert(s.push(b).drop_last() =~= s);
}

/// What is read from bytes is the number that they spell.
pub proof fn bytes_are_read_as_they_spell(
    s2: &[u8],
    s4: &[u8],
    s8: &[u8],
    s16: &[u8],
    n2: u16,
    n4: u32,
    n8: u64,
    n16: u128,
)
    requires
        call_ensures(be_read_u16, (s2,), n2),
        call_ensures(be_read_u32, (s4,), n4),
        call_ensures(be_read_u64, (s8,), n8),
        call_ensures(be_read, (s16,), n16),
    ensures
        n2 == be_value(s2@),
        n4 == be_value(s4@),
        n8 == be_value(s8@),
        n16 == be_value(s16@),
{
}

/// What is appended for a number is as wide as was asked, stands behind what was
/// there, and spells the number, where it fits.
pub proof fn an_appended_number_reads_back(out: &mut Vec<u8>, n: u128, width: usize)
    requires
        call_ensures(be_append, (out, n, width), ()),
        n < be_limit(width as nat),
    ensures
        final(out)@.len() == old(out)@.len() + width,
        final(out)@.take(old(out)@.len() as int) == old(out)@,
        be_value(final(out)@.skip(old(out)@.len() as int)) == n,
{
    lemma_be_bytes_len(n as nat, width as nat);
    lemma_be_round_trip(n as nat, width as nat);
    assert(final(out)@.take(old(out)@.len() as int) =~= old(out)@);
    assert(final(out)@.skip(old(out)@.len() as int) =~= be_bytes(n as nat, width as nat));
}

/// Byte strings are the same where they have the same bytes, and an array has
/// the bytes that it is made of.
pub proof fn bytes_stay_themselves(
    a: &[u8],
    b: &[u8],
    same: bool,
    sixteen: [u8; 16],
    thirty_two: [u8; 32],
)
    requires
        call_ensures(bytes_eq, (a, b), same),
        call_ensures(to_array16, (a,), sixteen),
        call_ensures(to_array32, (b,), thirty_two),
    ensures
        same <==> a@.len() == b@.len() && forall|i: int|
            0 <= i < a@.len() ==> #[trigger] a@[i] == b@[i],
        sixteen@ == a@,
        thirty_two@ == b@,
{
    if a@.len() == b@.len() && forall|i: int| 0 <= i < a@.len() ==> #[trigger] a@[i] == b@[i] {
        assert(a@ =~= b@);
    }
}

} // verus!
