//! Big-endian integers of a given byte width, as sequences of bytes.

use vstd::prelude::*;

verus! {

/// 256 to the power `n`: the number of values that `n` bytes can hold.
pub open spec fn pow256(n: nat) -> nat
    decreases n,
{
    if n == 0 {
        1
    } else {
        256 * pow256((n - 1) as nat)
    }
}

/// The `width` low-order base-256 digits of `value`, most significant first.
pub open spec fn be_bytes(value: nat, width: nat) -> Seq<u8>
    decreases width,
{
    if width == 0 {
        Seq::empty()
    } else {
        be_bytes(value / 256, (width - 1) as nat).push((value % 256) as u8)
    }
}

/// The number that `bytes` spell in base 256, most significant first.
pub open spec fn be_value(bytes: Seq<u8>) -> nat
    decreases bytes.len(),
{
    if bytes.len() == 0 {
        0
    } else {
        be_value(bytes.drop_last()) * 256 + bytes.last() as nat
    }
}

/// The limits of the integer types that the supported widths stand for.
pub proof fn lemma_pow256_values()
    ensures
        pow256(0) == 1,
        pow256(1) == 0x100,
        pow256(2) == 0x1_0000,
        pow256(3) == 0x100_0000,
        pow256(4) == 0x1_0000_0000,
        pow256(7) == 0x100_0000_0000_0000,
        pow256(8) == 0x1_0000_0000_0000_0000,
        pow256(15) == 0x100_0000_0000_0000_0000_0000_0000_0000,
        pow256(16) == 0x1_0000_0000_0000_0000_0000_0000_0000_0000,
{
    reveal_with_fuel(pow256, 17);
}

/// An encoding has exactly as many bytes as its width.
pub proof fn lemma_be_bytes_len(value: nat, width: nat)
    ensures
        be_bytes(value, width).len() == width,
    decreases width,
{
    if width > 0 {
        lemma_be_bytes_len(value / 256, (width - 1) as nat);
    }
}

/// Reading back what was written gives the number, when it fits the width.
pub proof fn lemma_be_value_of_bytes(value: nat, width: nat)
    requires
        value < pow256(width),
    ensures
        be_value(be_bytes(value, width)) == value,
    decreases width,
{
    if width > 0 {
        let head = be_bytes(value / 256, (width - 1) as nat);
        lemma_be_value_of_bytes(value / 256, (width - 1) as nat);
        assert(be_bytes(value, width).drop_last() =~= head);
    }
}

/// The first byte of an encoding is the most significant digit.
pub proof fn lemma_be_bytes_first(value: nat, width: nat)
    requires
        width >= 1,
        value < pow256(width),
    ensures
        be_bytes(value, width).len() == width,
        be_bytes(value, width)[0] as nat == value / pow256((width - 1) as nat),
    decreases width,
{
    lemma_be_bytes_len(value, width);
    let w1 = (width - 1) as nat;
    let head = be_bytes(value / 256, w1);
    assert(be_bytes(value, width) == head.push((value % 256) as u8));
    if width == 1 {
        assert(pow256(1) == 256 * pow256(0));
        assert(head.len() == 0);
    } else {
        lemma_be_bytes_first(value / 256, w1);
        let p = pow256((w1 - 1) as nat);
        assert(pow256(w1) == 256 * p);
        assert((value / 256) / p == value / (256 * p)) by (nonlinear_arith)
            requires
                p > 0,
        ;
        assert(be_bytes(value, width)[0] == head[0]);
    }
}

} // verus!
