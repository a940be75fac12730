//! The layout of a checkpoint's file: length, checksum and bytes.

use crc32fast::Hasher;
use vstd::bytes::{u32_from_le_bytes, u32_to_le_bytes};
#[allow(unused_imports)]
use vstd::bytes::{spec_u32_from_le_bytes, spec_u32_to_le_bytes};
use vstd::prelude::*;

#[allow(unused_imports)]
use crate::storage::error::ErrorView;
use crate::storage::error::{CheckpointError, StorageError, StorageResult};

verus! {

/// What a read that reaches the end of a file too early is answered.
pub const SHORT_READ: &'static str = "failed to fill whole buffer";

/// The checksum that `crc32fast` computes of bytes.
pub uninterp spec fn crc32_of(bytes: Seq<u8>) -> u32;

/// `crc32fast::Hasher`, made by `new`, given all bytes by one `update` and then asked by
/// `finalize`: the checksum depends on the bytes alone.
#[verifier::external_body]
pub(crate) fn checksum(bytes: &Vec<u8>) -> (sum: u32)
    ensures
        sum == crc32_of(bytes@),
{
    let mut hasher = Hasher::new();
    hasher.update(bytes);
    hasher.finalize()
}

/// The bytes of a file: their number and their checksum, both with the lowest byte first, and the
/// bytes themselves. Only the lower half of a number that needs more than 32 bits is kept.
pub open spec fn framed(bytes: Seq<u8>, sum: u32) -> Seq<u8> {
    spec_u32_to_le_bytes(
        #[verifier::truncate]
        (bytes.len() as u32),
    ) + spec_u32_to_le_bytes(sum) + bytes
}

/// How many bytes a file says that it holds.
pub open spec fn stated_len(file: Seq<u8>) -> int {
    spec_u32_from_le_bytes(file.subrange(0, 4)) as int
}

/// The checksum that a file states.
pub open spec fn stated_sum(file: Seq<u8>) -> u32 {
    spec_u32_from_le_bytes(file.subrange(4, 8))
}

/// Whether a file holds as many bytes as it says.
pub open spec fn is_long_enough(file: Seq<u8>) -> bool {
    file.len() >= 8 && file.len() >= 8 + stated_len(file)
}

/// The bytes that a file holds. What is behind them is not looked at.
pub open spec fn enclosed(file: Seq<u8>) -> Seq<u8> {
    file.subrange(8, 8 + stated_len(file))
}

/// Puts bytes into the layout of a file, with their checksum.
pub fn frame(bytes: &Vec<u8>, sum: u32) -> (file: Vec<u8>)
    ensures
        file@ == framed(bytes@, sum),
{
    let len: u32 = #[verifier::truncate] (bytes.len() as u32);
    let mut file = u32_to_le_bytes(len);
    let mut sum_bytes = u32_to_le_bytes(sum);
    file.append(&mut sum_bytes);
    let ghost head = file@;
    for i in 0..bytes.len()
        invariant
            file@ == head + bytes@.take(i as int),
    {
        file.push(bytes[i]);
        assert(head + bytes@.take(i + 1) =~= (head + bytes@.take(i as int)).push(bytes@[i as int]));
    }
    assert(bytes@.take(bytes@.len() as int) =~= bytes@);
    file
}

/// Bytes together with their checksum, in the layout of a file.
pub fn seal(bytes: &Vec<u8>) -> (file: Vec<u8>)
    ensures
        file@ == framed(bytes@, crc32_of(bytes@)),
{
    frame(bytes, checksum(bytes))
}

/// The part of a file between two positions.
fn part(file: &Vec<u8>, from: usize, to: usize) -> (bytes: Vec<u8>)
    requires
        from <= to <= file@.len(),
    ensures
        bytes@ == file@.subrange(from as int, to as int),
{
    let mut bytes: Vec<u8> = Vec::new();
    for i in from..to
        invariant
            from <= to <= file@.len(),
            bytes@ == file@.subrange(from as int, i as int),
    {
        bytes.push(file[i]);
        assert(file@.subrange(from as int, i + 1) =~= file@.subrange(from as int, i as int).push(
            file@[i as int],
        ));
    }
    bytes
}

/// Takes the bytes and the checksum that a file states out of its layout. A file that is too
/// short is an error.
pub fn unframe(file: &Vec<u8>) -> (result: StorageResult<(Vec<u8>, u32)>)
    ensures
        match result {
            Ok((bytes, sum)) => {
                &&& is_long_enough(file@)
                &&& bytes@ == enclosed(file@)
                &&& sum == stated_sum(file@)
            },
            Err(error) => !is_long_enough(file@) && error@ == ErrorView::CheckpointIo(SHORT_READ@),
        },
{
    if file.len() < 8 {
        return Err(StorageError::Checkpoint(CheckpointError::Io(SHORT_READ.to_string())));
    }
    let len_bytes = part(file, 0, 4);
    let len: u32 = u32_from_le_bytes(len_bytes.as_slice());
    let sum_bytes = part(file, 4, 8);
    let sum: u32 = u32_from_le_bytes(sum_bytes.as_slice());
    let rest: usize = file.len() - 8;
    if (rest as u64) < len as u64 {
        return Err(StorageError::Checkpoint(CheckpointError::Io(SHORT_READ.to_string())));
    }
    Ok((part(file, 8, 8 + len as usize), sum))
}

/// The bytes of a file whose checksum was worked out, if it is the one that the file states.
pub fn accept(bytes: Vec<u8>, stated: u32, actual: u32) -> (result: StorageResult<Vec<u8>>)
    ensures
        match result {
            Ok(checked) => stated == actual && checked@ == bytes@,
            Err(error) => stated != actual && error@ == ErrorView::ChecksumMismatch,
        },
{
    if actual != stated {
        return Err(StorageError::Checkpoint(CheckpointError::ChecksumMismatch));
    }
    Ok(bytes)
}

/// What opening a file comes to.
pub open spec fn opened(file: Seq<u8>) -> Result<Seq<u8>, ErrorView> {
    if !is_long_enough(file) {
        Err(ErrorView::CheckpointIo(SHORT_READ@))
    } else if crc32_of(enclosed(file)) != stated_sum(file) {
        Err(ErrorView::ChecksumMismatch)
    } else {
        Ok(enclosed(file))
    }
}

/// The bytes of a file, if it is long enough and its checksum is right.
pub fn unseal(file: &Vec<u8>) -> (result: StorageResult<Vec<u8>>)
    ensures
        match result {
            Ok(bytes) => opened(file@) == Ok::<Seq<u8>, ErrorView>(bytes@),
            Err(error) => opened(file@) == Err::<Seq<u8>, ErrorView>(error@),
        },
{
    match unframe(file) {
        Ok((bytes, stated)) => {
            let actual: u32 = checksum(&bytes);
            accept(bytes, stated, actual)
        },
        Err(error) => Err(error),
    }
}

/// A file gives back the bytes that were put into it, as long as their number fits in 32 bits.
pub proof fn law_open_sealed(bytes: Seq<u8>)
    requires
        bytes.len() <= u32::MAX,
    ensures
        opened(framed(bytes, crc32_of(bytes))) == Ok::<Seq<u8>, ErrorView>(bytes),
{
    vstd::bytes::lemma_auto_spec_u32_to_from_le_bytes();
    let sum = crc32_of(bytes);
    let len = bytes.len() as u32;
    let file = framed(bytes, sum);
    assert(spec_u32_to_le_bytes(len).len() == 4);
    assert(spec_u32_to_le_bytes(sum).len() == 4);
    assert(file.subrange(0, 4) =~= spec_u32_to_le_bytes(len));
    assert(file.subrange(4, 8) =~= spec_u32_to_le_bytes(sum));
    assert(enclosed(file) =~= bytes);
}

/// A file whose bytes have been changed is refused, unless the changed bytes happen to have the
/// same checksum.
pub proof fn law_corruption_refused(bytes: Seq<u8>, changed: Seq<u8>)
    requires
        bytes.len() <= u32::MAX,
        changed.len() == bytes.len(),
        crc32_of(changed) != crc32_of(bytes),
    ensures
        opened(framed(changed, crc32_of(bytes))) == Err::<Seq<u8>, ErrorView>(
            ErrorView::ChecksumMismatch,
        ),
{
    vstd::bytes::lemma_auto_spec_u32_to_from_le_bytes();
    let sum = crc32_of(bytes);
    let len = bytes.len() as u32;
    let file = framed(changed, sum);
    assert(spec_u32_to_le_bytes(len).len() == 4);
    assert(spec_u32_to_le_bytes(sum).len() == 4);
    assert(file.subrange(0, 4) =~= spec_u32_to_le_bytes(len));
    assert(file.subrange(4, 8) =~= spec_u32_to_le_bytes(sum));
    assert(enclosed(file) =~= changed);
}

} // verus!
