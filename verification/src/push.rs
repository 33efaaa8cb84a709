//! Minimal push encoding: a literal becomes the shortest push instruction
//! that holds its value.

use vstd::prelude::*;

verus! {

/// The opcode that pushes zero.
pub const PUSH0: u8 = 0x5f;

/// The opcode that pushes one byte; the opcode that pushes `n` bytes is
/// `PUSH1 + (n - 1)`, for `n` from 1 to 32.
pub const PUSH1: u8 = 0x60;

/// The most bytes that a literal may take.
pub const MAX_LITERAL_BYTES: usize = 32;

/// How many zero bytes stand at the head of `bytes`.
pub open spec fn leading_zeros(bytes: Seq<u8>) -> nat
    decreases bytes.len(),
{
    if bytes.len() > 0 && bytes[0] == 0 {
        1 + leading_zeros(bytes.skip(1))
    } else {
        0
    }
}

/// `bytes` without the zero bytes at its head.
pub open spec fn without_leading_zeros(bytes: Seq<u8>) -> Seq<u8> {
    bytes.skip(leading_zeros(bytes) as int)
}

/// The push instruction for the value that `bytes` holds, most significant
/// byte first: the push-zero opcode alone where nothing is left once the
/// leading zeros are gone, else the opcode for the number of bytes left,
/// then those bytes.
pub open spec fn push_encoding(bytes: Seq<u8>) -> Seq<u8> {
    let value = without_leading_zeros(bytes);
    if value.len() == 0 {
        seq![PUSH0]
    } else {
        seq![(PUSH1 + (value.len() - 1)) as u8] + value
    }
}

/// The leading zeros of `bytes` are zeros, they end before the first byte
/// that is not zero, and there are no more of them than bytes.
pub proof fn lemma_leading_zeros(bytes: Seq<u8>)
    ensures
        leading_zeros(bytes) <= bytes.len(),
        forall|i: int| 0 <= i < leading_zeros(bytes) ==> bytes[i] == 0,
        leading_zeros(bytes) < bytes.len() ==> bytes[leading_zeros(bytes) as int] != 0,
    decreases bytes.len(),
{
    if bytes.len() > 0 && bytes[0] == 0 {
        let rest = bytes.skip(1);
        lemma_leading_zeros(rest);
        assert forall|i: int| 0 <= i < leading_zeros(bytes) implies bytes[i] == 0 by {
            if i > 0 {
                assert(bytes[i] == rest[i - 1]);
            }
        }
        if leading_zeros(bytes) < bytes.len() {
            assert(bytes[leading_zeros(bytes) as int] == rest[leading_zeros(rest) as int]);
        }
    }
}

/// If the first `k` bytes are zero and byte `k` is not, or is missing, then
/// there are `k` leading zeros.
pub proof fn lemma_leading_zeros_are(bytes: Seq<u8>, k: int)
    requires
        0 <= k <= bytes.len(),
        forall|i: int| 0 <= i < k ==> bytes[i] == 0,
        k < bytes.len() ==> bytes[k] != 0,
    ensures
        leading_zeros(bytes) == k,
    decreases bytes.len(),
{
    if k > 0 {
        let rest = bytes.skip(1);
        assert forall|i: int| 0 <= i < k - 1 implies rest[i] == 0 by {
            assert(rest[i] == bytes[i + 1]);
        }
        lemma_leading_zeros_are(rest, k - 1);
    }
}

/// Replaces `bytes` by its push instruction.
pub fn prepend_push_opcode(bytes: &mut Vec<u8>)
    requires
        without_leading_zeros(old(bytes)@).len() <= MAX_LITERAL_BYTES,
    ensures
        final(bytes)@ == push_encoding(old(bytes)@),
{
    let n = bytes.len();
    let mut zeros: usize = 0;
    while zeros < n && bytes[zeros] == 0
        invariant
            zeros <= n,
            n == bytes.len(),
            forall|i: int| 0 <= i < zeros ==> bytes@[i] == 0,
        decreases n - zeros,
    {
        zeros += 1;
    }
    proof {
        lemma_leading_zeros_are(bytes@, zeros as int);
    }
    let mut encoded: Vec<u8> = Vec::new();
    if zeros == n {
        encoded.push(PUSH0);
    } else {
        let length: usize = n - zeros;
        encoded.push(PUSH1 + (length as u8 - 1));
        let mut i: usize = zeros;
        while i < n
            invariant
                zeros <= i <= n,
                n == bytes.len(),
                encoded@ == seq![(PUSH1 + (n - zeros - 1)) as u8] + bytes@.subrange(
                    zeros as int,
                    i as int,
                ),
            decreases n - i,
        {
            encoded.push(bytes[i]);
            i += 1;
        }
        assert(bytes@.subrange(zeros as int, n as int) =~= bytes@.skip(zeros as int));
    }
    *bytes = encoded;
}

} // verus!
