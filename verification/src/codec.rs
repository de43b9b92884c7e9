use vstd::prelude::*;
use crate::entries::Entry;
use crate::entries::EntryView;
use crate::errors::SfxError;

verus! {

/// The compressed form that the codec gives a byte stream at a given level.
/// The codec's output is a pure function of the bytes and the level; stating
/// it in full would amount to restating the codec, so it only carries a name.
pub uninterp spec fn zstd_of(data: Seq<u8>, level: int) -> Seq<u8>;

/// What decompressing a byte stream yields: the original bytes when the
/// stream is a valid compressed stream, nothing otherwise.
pub uninterp spec fn unzstd_of(data: Seq<u8>) -> Option<Seq<u8>>;

/// The flat archive stream that the archive writer gives an entry list.
pub uninterp spec fn tar_of(entries: Seq<EntryView>) -> Seq<u8>;

/// What reading a flat archive stream yields: the entry list it encodes, in
/// stream order, or nothing when the stream does not decode.
pub uninterp spec fn untar_of(data: Seq<u8>) -> Option<Seq<EntryView>>;

/// The lowest compression level the packer accepts.
pub const MIN_LEVEL: i32 = 1;

/// The highest compression level the packer accepts.
pub const MAX_LEVEL: i32 = 22;

/// Whether a compression level lies in the accepted range.
pub open spec fn valid_level(level: i32) -> bool {
    1 <= level <= 22
}

/// Relies on zstd's `encode_all`: compressing an in-memory buffer at a valid
/// level is deterministic in the bytes and the level, never fails when the
/// sink is a plain vector, and `decode_all` recovers exactly the bytes that
/// went in.
#[verifier::external_body]
pub(crate) fn zstd_compress(data: &Vec<u8>, level: i32) -> (r: Vec<u8>)
    requires
        valid_level(level),
    ensures
        r@ == zstd_of(data@, level as int),
        unzstd_of(r@) == Some(data@),
{
    zstd::stream::encode_all(data.as_slice(), level).expect("in-memory compression")
}

/// Relies on zstd's `decode_all`: decompression recovers the bytes a valid
/// stream encodes and rejects anything else.
#[verifier::external_body]
pub(crate) fn zstd_decompress(data: &Vec<u8>) -> (r: Result<Vec<u8>, SfxError>)
    ensures
        r matches Ok(v) ==> unzstd_of(data@) == Some(v@),
        r matches Err(e) ==> e == SfxError::CorruptArchive && unzstd_of(data@) is None,
{
    zstd::stream::decode_all(data.as_slice()).map_err(|_| SfxError::CorruptArchive)
}

/// Relies on tar's `Builder`: `append_data` with a fully specified header
/// writes each entry under its path in order, and reading the finished
/// stream back yields exactly those entries. Paths must be in normal form —
/// the writer skips `.` and empty components and refuses `..`, absolute
/// paths and NUL bytes, so only normal-form paths are stored byte for byte —
/// and a directory entry carries no content. On well-formed UTF-8 paths the
/// writer cannot fail, since the sink is a plain vector.
#[verifier::external_body]
pub(crate) fn tar_build(entries: &Vec<Entry>) -> (r: Result<Vec<u8>, SfxError>)
    requires
        forall|i: int|
            0 <= i < entries@.len() ==> {
                let e = #[trigger] entries@[i]@;
                crate::paths::normal_path(e.path) && (e.is_dir ==> e.data.len() == 0)
            },
    ensures
        r matches Ok(v) ==> v@ == tar_of(entries@.map_values(|e: Entry| e@)) && untar_of(v@)
            == Some(entries@.map_values(|e: Entry| e@)),
        r matches Err(e) ==> e == SfxError::Io,
        (forall|i: int|
            0 <= i < entries@.len() ==> crate::paths::valid_utf8(
                #[trigger] entries@[i]@.path,
            )) ==> r is Ok,
{
    let mut b = tar::Builder::new(Vec::new());
    for e in entries.iter() {
        let p = std::str::from_utf8(&e.path).map_err(|_| SfxError::Io)?;
        let mut h = tar::Header::new_gnu();
        h.set_mode(0o644);
        if e.is_dir {
            h.set_entry_type(tar::EntryType::dir());
        }
        h.set_size(if e.is_dir { 0 } else { e.data.len() as u64 });
        let body: &[u8] = if e.is_dir { &[] } else { e.data.as_slice() };
        b.append_data(&mut h, p, body).map_err(|_| SfxError::Io)?;
    }
    b.into_inner().map_err(|_| SfxError::Io)
}

/// Relies on tar's `Archive`: iterating the entries of a stream yields each
/// entry's path, kind and full content in stream order, or fails on a stream
/// that does not decode.
#[verifier::external_body]
pub(crate) fn tar_parse(data: &Vec<u8>) -> (r: Result<Vec<Entry>, SfxError>)
    ensures
        r matches Ok(v) ==> untar_of(data@) == Some(v@.map_values(|e: Entry| e@)),
        r matches Err(e) ==> e == SfxError::CorruptArchive,
        untar_of(data@) is Some ==> r is Ok,
{
    let mut out: Vec<Entry> = Vec::new();
    let mut ar = tar::Archive::new(data.as_slice());
    for ent in ar.entries().map_err(|_| SfxError::CorruptArchive)? {
        let mut ent = ent.map_err(|_| SfxError::CorruptArchive)?;
        let path = ent.path().ok().and_then(|p| p.to_str().map(str::to_owned)).ok_or(
            SfxError::CorruptArchive,
        )?.into_bytes();
        let is_dir = ent.header().entry_type().is_dir();
        let mut content: Vec<u8> = Vec::new();
        std::io::Read::read_to_end(&mut ent, &mut content).map_err(|_| SfxError::CorruptArchive)?;
        out.push(Entry { path, is_dir, data: content });
    }
    Ok(out)
}

} // verus!
