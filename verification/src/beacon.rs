//! The question put to the beacon verifier, and the reading of its answer.
//!
//! The verifier is a contract with one function,
//! `verify(uint64 round_number, bytes sig) returns (bool)`. A call is the
//! function's selector followed by the arguments in the contract ABI: the
//! round in a 32-byte word, the offset of the signature, its length, and
//! its 48 bytes padded to a multiple of 32.

use vstd::prelude::*;

verus! {

/// Length of a beacon signature in bytes.
pub const SIGNATURE_LEN: usize = 48;

/// Length of a call to the verifier in bytes.
pub const CALLDATA_LEN: usize = 164;

/// Big-endian bytes of a round number.
pub open spec fn be64(round: u64) -> Seq<u8> {
    seq![
        (round / 0x100_0000_0000_0000) as u8,
        ((round / 0x1_0000_0000_0000) % 0x100) as u8,
        ((round / 0x100_0000_0000) % 0x100) as u8,
        ((round / 0x1_0000_0000) % 0x100) as u8,
        ((round / 0x100_0000) % 0x100) as u8,
        ((round / 0x1_0000) % 0x100) as u8,
        ((round / 0x100) % 0x100) as u8,
        (round % 0x100) as u8,
    ]
}

/// The byte at place `i` of the call that asks whether `signature` is the
/// beacon's for `round`.
pub open spec fn call_byte(round: u64, signature: Seq<u8>, i: int) -> u8 {
    if i == 0 {
        0xf7
    } else if i == 1 {
        0xdd
    } else if i == 2 {
        0xea
    } else if i == 3 {
        0x5a
    } else if 28 <= i < 36 {
        be64(round)[i - 28]
    } else if i == 67 {
        0x40
    } else if i == 99 {
        0x30
    } else if 100 <= i < 148 {
        signature[i - 100]
    } else {
        0
    }
}

/// The call that asks whether `signature` is the beacon's for `round`.
pub open spec fn call_of(round: u64, signature: Seq<u8>) -> Seq<u8> {
    Seq::new(164, |i: int| call_byte(round, signature, i))
}

/// The answer "true": a 32-byte word that holds the number one.
pub open spec fn yes() -> Seq<u8> {
    Seq::new(
        32,
        |i: int|
            if i == 31 {
                1u8
            } else {
                0u8
            },
    )
}

/// The call that asks the verifier whether `signature` is the beacon's for
/// `round`. A signature has 48 bytes; for any other length there is no call.
pub fn verify_calldata(round: u64, signature: &[u8]) -> (call: Option<Vec<u8>>)
    ensures
        signature@.len() != 48 ==> call is None,
        signature@.len() == 48 ==> call is Some && call.unwrap()@ == call_of(round, signature@),
{
    if signature.len() != SIGNATURE_LEN {
        return None;
    }
    let mut call: Vec<u8> = Vec::new();
    call.push(0xf7);
    call.push(0xdd);
    call.push(0xea);
    call.push(0x5a);
    let mut i: usize = 4;
    while i < 28
        invariant
            4 <= i <= 28,
            call@.len() == i,
            forall|j: int| 0 <= j < i ==> #[trigger] call@[j] == call_byte(round, signature@, j),
        decreases 28 - i,
    {
        call.push(0);
        i += 1;
    }
    call.push((round / 0x100_0000_0000_0000) as u8);
    call.push(((round / 0x1_0000_0000_0000) % 0x100) as u8);
    call.push(((round / 0x100_0000_0000) % 0x100) as u8);
    call.push(((round / 0x1_0000_0000) % 0x100) as u8);
    call.push(((round / 0x100_0000) % 0x100) as u8);
    call.push(((round / 0x1_0000) % 0x100) as u8);
    call.push(((round / 0x100) % 0x100) as u8);
    call.push((round % 0x100) as u8);
    let mut i: usize = 36;
    while i < 100
        invariant
            36 <= i <= 100,
            call@.len() == i,
            forall|j: int| 0 <= j < i ==> #[trigger] call@[j] == call_byte(round, signature@, j),
        decreases 100 - i,
    {
        let byte: u8 = if i == 67 {
            0x40
        } else if i == 99 {
            0x30
        } else {
            0
        };
        call.push(byte);
        i += 1;
    }
    while i < 148
        invariant
            100 <= i <= 148,
            signature@.len() == 48,
            call@.len() == i,
            forall|j: int| 0 <= j < i ==> #[trigger] call@[j] == call_byte(round, signature@, j),
        decreases 148 - i,
    {
        call.push(signature[i - 100]);
        i += 1;
    }
    while i < CALLDATA_LEN
        invariant
            148 <= i <= 164,
            call@.len() == i,
            forall|j: int| 0 <= j < i ==> #[trigger] call@[j] == call_byte(round, signature@, j),
        decreases 164 - i,
    {
        call.push(0);
        i += 1;
    }
    assert(call@ =~= call_of(round, signature@));
    Some(call)
}

/// Whether the verifier's reply says "true": 32 bytes, all zero but the
/// last, which is one. Any other reply counts as a refusal.
pub fn accepted(reply: &[u8]) -> (ok: bool)
    ensures
        ok == (reply@ == yes()),
{
    if reply.len() != 32 {
        return false;
    }
    let mut i: usize = 0;
    while i < 32
        invariant
            i <= 32,
            reply@.len() == 32,
            forall|j: int| 0 <= j < i ==> #[trigger] reply@[j] == yes()[j],
        decreases 32 - i,
    {
        let expected: u8 = if i == 31 {
            1
        } else {
            0
        };
        if reply[i] != expected {
            assert(reply@[i as int] != yes()[i as int]);
            return false;
        }
        i += 1;
    }
    assert(reply@ =~= yes());
    true
}

} // verus!
