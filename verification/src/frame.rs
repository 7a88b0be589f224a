//! Messages on a stream that stays open: each goes out behind its length.
//!
//! A WebSocket cannot be closed in one direction only, so neither side can end its message by
//! closing. It puts the length in front instead: four bytes, the highest first.
use vstd::prelude::*;

verus! {

/// How many different lengths a prefix can give.
pub open spec fn prefix_range() -> nat {
    0x1_0000_0000
}

/// The prefix of a message of `len` bytes. A length that four bytes cannot hold loses its higher
/// part.
pub open spec fn prefix_of(len: nat) -> Seq<u8> {
    seq![
        (len / 0x100_0000 % 0x100) as u8,
        (len / 0x1_0000 % 0x100) as u8,
        (len / 0x100 % 0x100) as u8,
        (len % 0x100) as u8,
    ]
}

/// The length that `prefix` gives.
pub open spec fn length_in(prefix: Seq<u8>) -> nat {
    (prefix[0] * 0x100_0000 + prefix[1] * 0x1_0000 + prefix[2] * 0x100 + prefix[3]) as nat
}

/// A message as it goes out.
pub open spec fn framed(message: Seq<u8>) -> Seq<u8> {
    prefix_of(message.len()) + message
}

/// The first message on a stream and what stands behind it; none where the stream does not hold all
/// of it.
pub open spec fn unframed(stream: Seq<u8>) -> Option<(Seq<u8>, Seq<u8>)> {
    if stream.len() < 4 {
        None
    } else {
        let end = 4 + length_in(stream.take(4));
        if stream.len() < end {
            None
        } else {
            Some((stream.subrange(4, end as int), stream.skip(end as int)))
        }
    }
}

/// The prefix of a message of `len` bytes.
pub fn frame_prefix(len: usize) -> (prefix: [u8; 4])
    ensures
        prefix@ == prefix_of(len as nat),
{
    let n: u64 = len as u64;
    let prefix = [
        (n / 0x100_0000 % 0x100) as u8,
        (n / 0x1_0000 % 0x100) as u8,
        (n / 0x100 % 0x100) as u8,
        (n % 0x100) as u8,
    ];
    assert(prefix@ =~= prefix_of(len as nat));
    prefix
}

/// The length of the message behind `prefix`.
pub fn frame_len(prefix: [u8; 4]) -> (len: usize)
    ensures
        len == length_in(prefix@),
{
    prefix[0] as usize * 0x100_0000 + prefix[1] as usize * 0x1_0000 + prefix[2] as usize * 0x100
        + prefix[3] as usize
}

/// A length that fits is read back as it was written, and every prefix is that of the length that it
/// gives.
pub proof fn law_prefix_reads_back(len: nat, prefix: Seq<u8>)
    requires
        prefix.len() == 4,
    ensures
        len < prefix_range() ==> length_in(prefix_of(len)) == len,
        prefix_of(length_in(prefix)) == prefix,
        length_in(prefix) < prefix_range(),
{
    let n = length_in(prefix);
    assert(n / 0x100_0000 % 0x100 == prefix[0]);
    assert(n / 0x1_0000 % 0x100 == prefix[1]);
    assert(n / 0x100 % 0x100 == prefix[2]);
    assert(n % 0x100 == prefix[3]);
    assert(prefix_of(n) =~= prefix);
}

/// A message that goes out in a frame is read back whole, and what follows it on the stream is left
/// there.
pub proof fn law_message_reads_back(message: Seq<u8>, rest: Seq<u8>)
    requires
        message.len() < prefix_range(),
    ensures
        unframed(framed(message) + rest) == Some((message, rest)),
{
    let stream = framed(message) + rest;
    assert(stream.take(4) =~= prefix_of(message.len()));
    law_prefix_reads_back(message.len(), prefix_of(message.len()));
    let end = 4 + message.len() as int;
    assert(stream.subrange(4, end) =~= message);
    assert(stream.skip(end) =~= rest);
}

/// A prefix gives its length with the highest byte first.
pub proof fn law_highest_byte_comes_first(len: nat, prefix: Seq<u8>)
    requires
        prefix.len() == 4,
    ensures
        prefix_of(len).len() == 4,
        prefix_of(len)[0] * 0x100_0000 + prefix_of(len)[1] * 0x1_0000 + prefix_of(len)[2] * 0x100
            + prefix_of(len)[3] == len % 0x1_0000_0000,
        length_in(prefix) == prefix[0] * 0x100_0000 + prefix[1] * 0x1_0000 + prefix[2] * 0x100
            + prefix[3],
{
}

} // verus!
