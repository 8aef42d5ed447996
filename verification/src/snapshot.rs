use vstd::prelude::*;

verus! {

/// Why a snapshot could not be read.
#[derive(Debug, Clone, PartialEq, Eq)]
pub enum SnapshotError {
    /// Fewer than 4 bytes: no room for the size header.
    TooShort,
    /// zstd refused the compressed part; its description.
    Decompression(String),
}

/// The model of a snapshot error.
pub enum SnapshotErrorModel {
    TooShort,
    Decompression(Seq<char>),
}

impl View for SnapshotError {
    type V = SnapshotErrorModel;

    open spec fn view(&self) -> SnapshotErrorModel {
        match self {
            SnapshotError::TooShort => SnapshotErrorModel::TooShort,
            SnapshotError::Decompression(m) => SnapshotErrorModel::Decompression(m@),
        }
    }
}

impl SnapshotError {
    /// The text of the error.
    pub fn message(&self) -> (r: String)
        ensures
            match self@ {
                SnapshotErrorModel::TooShort => r@ == "Snapshot data too short: expected at least 4 bytes for size header"@,
                SnapshotErrorModel::Decompression(m) => r@ == m,
            },
    {
        match self {
            SnapshotError::TooShort => "Snapshot data too short: expected at least 4 bytes for size header".to_owned(),
            SnapshotError::Decompression(m) => m.clone(),
        }
    }
}

/// What zstd's `bulk::decompress` gives for `data` with room for at most
/// `capacity` bytes: the decompressed bytes or the description of its error.
pub uninterp spec fn zstd_outcome(data: Seq<u8>, capacity: usize) -> Result<Seq<u8>, Seq<char>>;

/// Calls `zstd::bulk::decompress`. Its documentation says that the output is
/// at most `capacity` bytes, or an error comes back.
#[verifier::external_body]
fn zstd_decompress(data: &[u8], capacity: usize) -> (r: Result<Vec<u8>, String>)
    ensures
        match r {
            Ok(v) => v@.len() <= capacity && zstd_outcome(data@, capacity) == Ok::<Seq<u8>, Seq<char>>(v@),
            Err(m) => zstd_outcome(data@, capacity) == Err::<Seq<u8>, Seq<char>>(m@),
        },
{
    zstd::bulk::decompress(data, capacity).map_err(|e| e.to_string())
}

/// The number that four bytes encode, least significant first.
pub open spec fn le_u32(b0: u8, b1: u8, b2: u8, b3: u8) -> int {
    b0 + 256 * b1 + 65536 * b2 + 16777216 * b3
}

/// The size that the header of `data` records.
pub open spec fn header_size(data: Seq<u8>) -> int
    recommends
        data.len() >= 4,
{
    le_u32(data[0], data[1], data[2], data[3])
}

/// What reading a snapshot gives. An uncompressed snapshot (as debug builds
/// write it) is the data itself. A compressed one is a 4-byte little-endian
/// size header, then the zstd-compressed bytes, decompressed into at most
/// that many bytes.
pub open spec fn snapshot_outcome(data: Seq<u8>, compressed: bool) -> Result<Seq<u8>, SnapshotErrorModel> {
    if !compressed {
        Ok(data)
    } else if data.len() < 4 {
        Err(SnapshotErrorModel::TooShort)
    } else {
        match zstd_outcome(data.subrange(4, data.len() as int), header_size(data) as usize) {
            Ok(v) => Ok(v),
            Err(m) => Err(SnapshotErrorModel::Decompression(m)),
        }
    }
}

/// The model of the result of reading a snapshot.
pub open spec fn snapshot_result(r: Result<Vec<u8>, SnapshotError>) -> Result<Seq<u8>, SnapshotErrorModel> {
    match r {
        Ok(v) => Ok(v@),
        Err(e) => Err(e@),
    }
}

/// Reads a snapshot. Debug builds write it uncompressed (`compressed` is
/// `false`), and it is taken as it is. Otherwise its first 4 bytes give the
/// decompressed size (little-endian) and the rest is zstd data; the result is
/// never larger than that size.
pub fn deserialize_snapshot(data: &[u8], compressed: bool) -> (r: Result<Vec<u8>, SnapshotError>)
    ensures
        snapshot_result(r) == snapshot_outcome(data@, compressed),
        compressed ==> (r matches Ok(v) ==> v@.len() <= header_size(data@)),
{
    if !compressed {
        return Ok(vstd::slice::slice_to_vec(data));
    }
    if data.len() < 4 {
        return Err(SnapshotError::TooShort);
    }
    let size: u32 = data[0] as u32 + (data[1] as u32) * 256 + (data[2] as u32) * 65536 + (data[3] as u32)
        * 16777216;
    let rest = vstd::slice::slice_subrange(data, 4, data.len());
    match zstd_decompress(rest, size as usize) {
        Ok(v) => Ok(v),
        Err(m) => Err(SnapshotError::Decompression(m)),
    }
}

} // verus!
