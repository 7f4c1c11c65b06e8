use vstd::prelude::*;

verus! {

/// What bincode's decoder yields for a byte sequence, when asked for a list of
/// strings: `Some` of the decoded list where the bytes are a valid encoding,
/// `None` otherwise. The decoder's result depends on the bytes alone.
pub uninterp spec fn decoded_paths(bytes: Seq<u8>) -> Option<Seq<Seq<char>>>;

/// What zstd's decoder yields for a byte sequence: `Some` of the decompressed
/// bytes where the input is a valid zstd frame, `None` otherwise. The
/// decoder's result depends on the bytes alone.
pub uninterp spec fn decompressed(bytes: Seq<u8>) -> Option<Seq<u8>>;

/// Relies on bincode::serialize: encoding a list of strings cannot fail (it
/// only sums sizes and writes into a growing buffer, with no size limit
/// configured), and bincode::deserialize decodes the produced bytes back to
/// the same list (bincode's documented round trip).
#[verifier::external_body]
fn encode_paths(paths: &Vec<String>) -> (r: Option<Vec<u8>>)
    ensures
        r is Some,
        decoded_paths(r.unwrap()@) == Some(paths.deep_view()),
{
    bincode::serialize(paths).ok()
}

/// Relies on bincode::deserialize for lists of strings; its result is a
/// function of the input bytes alone.
#[verifier::external_body]
fn decode_paths(bytes: &Vec<u8>) -> (r: Option<Vec<String>>)
    ensures
        r is Some ==> decoded_paths(bytes@) == Some(r.unwrap().deep_view()),
        r is None ==> decoded_paths(bytes@) is None,
{
    bincode::deserialize::<Vec<String>>(bytes.as_slice()).ok()
}

/// Relies on zstd::bulk::compress, and on zstd's documented guarantee that
/// decompression inverts compression: with the valid default level and a
/// destination of `compress_bound` capacity the call cannot fail, the
/// produced frame is never empty (it starts with the frame magic), and
/// decompressing it yields the input bytes back.
#[verifier::external_body]
fn compress_bytes(bytes: &Vec<u8>) -> (r: Option<Vec<u8>>)
    ensures
        r is Some,
        r.unwrap()@.len() > 0,
        decompressed(r.unwrap()@) == Some(bytes@),
{
    zstd::bulk::compress(bytes.as_slice(), 0).ok()
}

/// Relies on zstd::decode_all; its result is a function of the input bytes
/// alone.
#[verifier::external_body]
fn decompress_bytes(bytes: &Vec<u8>) -> (r: Option<Vec<u8>>)
    ensures
        r is Some ==> decompressed(bytes@) == Some(r.unwrap()@),
        r is None ==> decompressed(bytes@) is None,
{
    zstd::decode_all(bytes.as_slice()).ok()
}

/// The list of paths that loading yields for a stored artifact: `None` stands
/// for an absent artifact. Decompress, then decode; if the artifact is absent,
/// or either stage fails, the canonical default (the empty list) is the
/// result, never an error.
pub open spec fn load_spec(bytes: Option<Seq<u8>>) -> Seq<Seq<char>> {
    match bytes {
        Option::None => Seq::empty(),
        Option::Some(b) => match decompressed(b) {
            Option::None => Seq::empty(),
            Option::Some(d) => match decoded_paths(d) {
                Option::None => Seq::empty(),
                Option::Some(paths) => paths,
            },
        },
    }
}

/// Load one stored list of paths from the raw artifact bytes, `None` meaning
/// the artifact does not exist. Every failure degrades to the empty list.
pub fn load_paths(bytes: Option<Vec<u8>>) -> (r: Vec<String>)
    ensures
        r.deep_view() == load_spec(bytes.deep_view()),
{
    let empty: Vec<String> = Vec::new();
    proof {
        assert(empty.deep_view() =~= Seq::<Seq<char>>::empty());
    }
    match bytes {
        Option::None => empty,
        Option::Some(b) => {
            proof {
                assert(b.deep_view() =~= b@);
            }
            match decompress_bytes(&b) {
                Option::None => empty,
                Option::Some(d) => match decode_paths(&d) {
                    Option::None => empty,
                    Option::Some(paths) => paths,
                },
            }
        },
    }
}

/// Encode and compress one list of paths into artifact bytes. Neither stage
/// can fail on a list of strings, and the produced bytes load back to
/// exactly the given list.
pub fn store_paths(paths: &Vec<String>) -> (r: Option<Vec<u8>>)
    ensures
        r is Some,
        r.unwrap()@.len() > 0,
        load_spec(Some(r.unwrap()@)) == paths.deep_view(),
{
    let encoded = encode_paths(paths).unwrap();
    compress_bytes(&encoded)
}

/// The canonical stored form of the default (empty) list of paths, computed
/// with no disk access: a non-empty byte sequence that loads back to the
/// empty list.
pub fn default_paths_bytes() -> (r: Vec<u8>)
    ensures
        r@.len() > 0,
        load_spec(Some(r@)) == Seq::<Seq<char>>::empty(),
{
    let empty: Vec<String> = Vec::new();
    proof {
        assert(empty.deep_view() =~= Seq::<Seq<char>>::empty());
    }
    store_paths(&empty).unwrap()
}

} // verus!
