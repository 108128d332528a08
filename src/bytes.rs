//! Big-endian readers over untrusted byte slices.
use vstd::prelude::*;

verus! {

/// The one way a read can fail: the slice is shorter than the field needs.
#[derive(Clone, Copy, Debug, PartialEq, Eq, Structural)]
pub enum DecodeError {
    OutOfBounds,
}

/// `256` to the power `n`.
pub open spec fn pow256(n: nat) -> nat
    decreases n,
{
    if n == 0 {
        1
    } else {
        256 * pow256((n - 1) as nat)
    }
}

/// The unsigned integer that the bytes `s` spell in big-endian order.
pub open spec fn be_value(s: Seq<u8>) -> nat
    decreases s.len(),
{
    if s.len() == 0 {
        0
    } else {
        be_value(s.drop_last()) * 256 + s.last() as nat
    }
}

/// The `width` bytes of `s` that start at `off`.
pub open spec fn field(s: Seq<u8>, off: int, width: int) -> Seq<u8> {
    s.subrange(off, off + width)
}

/// Reading `width` bytes at `off`: their value, or `OutOfBounds` where the
/// slice ends before the field does.
pub open spec fn read_be_spec(s: Seq<u8>, off: int, width: int) -> Result<nat, DecodeError> {
    if off + width <= s.len() {
        Ok(be_value(field(s, off, width)))
    } else {
        Err(DecodeError::OutOfBounds)
    }
}

/// The 16-bit big-endian integer at `off`.
pub open spec fn u16_at(s: Seq<u8>, off: int) -> Result<u16, DecodeError> {
    match read_be_spec(s, off, 2) {
        Ok(v) => Ok(v as u16),
        Err(e) => Err(e),
    }
}

/// The 128-bit big-endian integer at `off`.
pub open spec fn u128_at(s: Seq<u8>, off: int) -> Result<u128, DecodeError> {
    match read_be_spec(s, off, 16) {
        Ok(v) => Ok(v as u128),
        Err(e) => Err(e),
    }
}

/// The 256-bit big-endian integer at `off`, as its high and low 128-bit
/// halves, in that order.
pub open spec fn u256_at(s: Seq<u8>, off: int) -> Result<(u128, u128), DecodeError> {
    if off + 32 <= s.len() {
        Ok((be_value(field(s, off, 16)) as u128, be_value(field(s, off + 16, 16)) as u128))
    } else {
        Err(DecodeError::OutOfBounds)
    }
}

pub proof fn lemma_pow256_mono(i: nat, j: nat)
    requires
        i <= j,
    ensures
        pow256(i) <= pow256(j),
    decreases j,
{
    if i < j {
        lemma_pow256_mono(i, (j - 1) as nat);
    }
}

pub proof fn lemma_be_value_bound(s: Seq<u8>)
    ensures
        be_value(s) < pow256(s.len()),
    decreases s.len(),
{
    if s.len() > 0 {
        let p = s.drop_last();
        lemma_be_value_bound(p);
        let v = be_value(p);
        let q = pow256(p.len());
        let b = s.last() as nat;
        assert(v * 256 + b < q * 256) by (nonlinear_arith)
            requires
                v < q,
                b < 256,
        ;
    }
}

pub proof fn lemma_pow256_16()
    ensures
        pow256(16) == 0x1_0000_0000_0000_0000_0000_0000_0000_0000,
{
    reveal_with_fuel(pow256, 17);
}

/// The value of the `width` bytes at `off`, for a width of at most 16.
pub(crate) fn read_be_at(buf: &[u8], off: usize, width: usize) -> (r: Result<u128, DecodeError>)
    requires
        width <= 16,
    ensures
        match read_be_spec(buf@, off as int, width as int) {
            Ok(v) => r == Ok::<u128, DecodeError>(v as u128),
            Err(e) => r == Err::<u128, DecodeError>(e),
        },
{
    let n = buf.len();
    if off > n || width > n - off {
        return Err(DecodeError::OutOfBounds);
    }
    let mut acc: u128 = 0;
    let mut i: usize = 0;
    while i < width
        invariant
            i <= width <= 16,
            off + width <= n,
            n == buf@.len(),
            acc as nat == be_value(field(buf@, off as int, i as int)),
            acc < pow256(i as nat),
        decreases width - i,
    {
        let b = buf[off + i];
        proof {
            let s = field(buf@, off as int, i as int + 1);
            assert(s.drop_last() =~= field(buf@, off as int, i as int));
            lemma_pow256_mono((i + 1) as nat, 16);
            lemma_pow256_16();
            let a = acc as nat;
            let q = pow256(i as nat);
            assert(a * 256 + (b as nat) < q * 256) by (nonlinear_arith)
                requires
                    a < q,
                    b < 256,
            ;
        }
        acc = acc * 256 + b as u128;
        i = i + 1;
    }
    Ok(acc)
}

pub(crate) fn read_u16_at(buf: &[u8], off: usize) -> (r: Result<u16, DecodeError>)
    ensures
        r == u16_at(buf@, off as int),
{
    match read_be_at(buf, off, 2) {
        Ok(v) => {
            proof {
                lemma_be_value_bound(field(buf@, off as int, 2));
                reveal_with_fuel(pow256, 3);
            }
            Ok(v as u16)
        },
        Err(e) => Err(e),
    }
}

pub(crate) fn read_u128_at(buf: &[u8], off: usize) -> (r: Result<u128, DecodeError>)
    ensures
        r == u128_at(buf@, off as int),
{
    let r = read_be_at(buf, off, 16);
    proof {
        if off + 16 <= buf@.len() {
            lemma_be_value_bound(field(buf@, off as int, 16));
            lemma_pow256_16();
        }
    }
    r
}

pub(crate) fn read_u256_at(buf: &[u8], off: usize) -> (r: Result<(u128, u128), DecodeError>)
    ensures
        r == u256_at(buf@, off as int),
{
    if off > buf.len() || buf.len() - off < 32 {
        return Err(DecodeError::OutOfBounds);
    }
    let hi = read_u128_at(buf, off);
    let lo = read_u128_at(buf, off + 16);
    match (hi, lo) {
        (Ok(h), Ok(l)) => Ok((h, l)),
        _ => Err(DecodeError::OutOfBounds),
    }
}

/// Reads `buf[0..2]` as a big-endian `u16`.
pub fn read_u16(buf: &[u8]) -> (r: Result<u16, DecodeError>)
    ensures
        r == u16_at(buf@, 0),
{
    read_u16_at(buf, 0)
}

/// Reads `buf[0..16]` as a big-endian `u128`.
pub fn read_u128(buf: &[u8]) -> (r: Result<u128, DecodeError>)
    ensures
        r == u128_at(buf@, 0),
{
    read_u128_at(buf, 0)
}

/// Reads `buf[0..32]` as a big-endian 256-bit integer, returned as
/// `(high, low)` 128-bit halves.
pub fn read_u256(buf: &[u8]) -> (r: Result<(u128, u128), DecodeError>)
    ensures
        r == u256_at(buf@, 0),
{
    read_u256_at(buf, 0)
}

} // verus!
