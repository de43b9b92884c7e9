use vstd::prelude::*;
use vstd::bytes::spec_u64_to_le_bytes;
use vstd::bytes::spec_u64_from_le_bytes;
use vstd::bytes::lemma_auto_spec_u64_to_from_le_bytes;
use vstd::bytes::u64_to_le_bytes;
use vstd::bytes::u64_from_le_bytes;
use crate::errors::SfxError;
use crate::bytes_util::bytes_eq;
use crate::bytes_util::subvec;

verus! {

/// The 9 fixed ASCII marker bytes, `"SFX_RS_01"`, that close every container.
pub open spec fn magic_bytes() -> Seq<u8> {
    seq![83u8, 70u8, 88u8, 95u8, 82u8, 83u8, 95u8, 48u8, 49u8]
}

/// The 17 footer bytes for a payload of `archive_size` bytes.
pub open spec fn spec_footer(archive_size: u64) -> Seq<u8> {
    spec_u64_to_le_bytes(archive_size) + magic_bytes()
}

/// The marker bytes as a vector.
pub fn magic() -> (r: Vec<u8>)
    ensures
        r@ == magic_bytes(),
{
    let mut v: Vec<u8> = Vec::new();
    v.push(83u8);
    v.push(70u8);
    v.push(88u8);
    v.push(95u8);
    v.push(82u8);
    v.push(83u8);
    v.push(95u8);
    v.push(48u8);
    v.push(49u8);
    proof {
        assert(v@ =~= magic_bytes());
    }
    v
}

/// The footer that closes a container whose payload holds `archive_size` bytes.
pub fn encode_footer(archive_size: u64) -> (r: Vec<u8>)
    ensures
        r@ == spec_footer(archive_size),
        r@.len() == 17,
{
    proof {
        lemma_auto_spec_u64_to_from_le_bytes();
    }
    let mut r = u64_to_le_bytes(archive_size);
    let m = magic();
    r.extend_from_slice(m.as_slice());
    proof {
        assert(r@ =~= spec_footer(archive_size));
    }
    r
}

/// Where a payload sits inside a container: `size` bytes starting at offset `start`.
#[derive(Clone, Copy, PartialEq, Eq, Structural, Debug)]
pub struct PayloadInfo {
    pub start: u64,
    pub size: u64,
}

/// What probing a file of `file_len` bytes whose final 17 bytes are `tail` yields:
/// `Ok(None)` when the file is too short or the marker is absent (a bare stub, not
/// an error), `Err(CorruptArchive)` when the marker is present but the recorded
/// size cannot fit before the footer, and otherwise the payload's exact location.
pub open spec fn spec_find_payload(file_len: u64, tail: Seq<u8>) -> Result<
    Option<PayloadInfo>,
    SfxError,
> {
    if file_len < 17 {
        Ok(None)
    } else if tail.subrange(8, 17) != magic_bytes() {
        Ok(None)
    } else {
        let size = spec_u64_from_le_bytes(tail.subrange(0, 8));
        if size > file_len - 17 {
            Err(SfxError::CorruptArchive)
        } else {
            Ok(Some(PayloadInfo { start: (file_len - 17 - size) as u64, size }))
        }
    }
}

/// Locate the payload of a container from its length and its final 17 bytes.
///
/// The caller is responsible for `tail` really being the last 17 bytes of the
/// file whenever the file holds at least 17.
pub fn find_payload(file_len: u64, tail: &Vec<u8>) -> (r: Result<
    Option<PayloadInfo>,
    SfxError,
>)
    requires
        file_len >= 17 ==> tail@.len() == 17,
    ensures
        r == spec_find_payload(file_len, tail@),
{
    if file_len < 17 {
        return Ok(None);
    }
    let marker = subvec(tail, 8, 17);
    let m = magic();
    if !bytes_eq(&marker, &m) {
        return Ok(None);
    }
    let size_bytes = subvec(tail, 0, 8);
    let size = u64_from_le_bytes(size_bytes.as_slice());
    if size > file_len - 17 {
        Err(SfxError::CorruptArchive)
    } else {
        Ok(Some(PayloadInfo { start: file_len - 17 - size, size }))
    }
}

/// Footer integrity: a container assembled as stub, payload, footer always ends
/// in the marker bytes, and the size it records never exceeds the room before
/// the footer.
pub proof fn lemma_footer_integrity(stub: Seq<u8>, payload: Seq<u8>, size: u64)
    requires
        size == payload.len(),
    ensures
        (stub + payload + spec_footer(size)).len() >= 17,
        (stub + payload + spec_footer(size)).subrange(
            (stub + payload + spec_footer(size)).len() - 9,
            (stub + payload + spec_footer(size)).len() as int,
        ) == magic_bytes(),
        spec_u64_from_le_bytes(
            (stub + payload + spec_footer(size)).subrange(
                (stub + payload + spec_footer(size)).len() - 17,
                (stub + payload + spec_footer(size)).len() - 9,
            ),
        ) == size,
        size <= (stub + payload + spec_footer(size)).len() - 17,
{
    lemma_auto_spec_u64_to_from_le_bytes();
    let c = stub + payload + spec_footer(size);
    assert(spec_footer(size).len() == 17);
    assert(c.subrange(c.len() - 9, c.len() as int) =~= magic_bytes());
    assert(c.subrange(c.len() - 17, c.len() - 9) =~= spec_u64_to_le_bytes(size));
}

/// Round trip of the footer: probing a freshly assembled container with its own
/// length and final 17 bytes locates exactly the payload that was put in.
pub proof fn lemma_find_payload_round_trip(stub: Seq<u8>, payload: Seq<u8>, size: u64)
    requires
        size == payload.len(),
        stub.len() + payload.len() + 17 <= u64::MAX,
    ensures
        ({
            let c = stub + payload + spec_footer(size);
            spec_find_payload(c.len() as u64, c.subrange(c.len() - 17, c.len() as int)) == Ok::<
                _,
                SfxError,
            >(Some(PayloadInfo { start: stub.len() as u64, size }))
        }),
{
    lemma_auto_spec_u64_to_from_le_bytes();
    let c = stub + payload + spec_footer(size);
    let tail = c.subrange(c.len() - 17, c.len() as int);
    assert(tail.subrange(8, 17) =~= magic_bytes());
    assert(tail.subrange(0, 8) =~= spec_u64_to_le_bytes(size));
}

/// Magic mismatch: whenever the trailing 9 bytes differ from the marker, the
/// probe reports "no payload" rather than failing.
pub proof fn lemma_magic_mismatch(file_len: u64, tail: Seq<u8>)
    requires
        file_len >= 17 ==> tail.subrange(8, 17) != magic_bytes(),
    ensures
        spec_find_payload(file_len, tail) == Ok::<Option<PayloadInfo>, SfxError>(None),
{
}

} // verus!
