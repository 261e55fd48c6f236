//! Gzip members, as the compression crate writes and reads them.

use vstd::prelude::*;

verus! {

/// The gzip member that `flate2::write::GzEncoder` makes of some bytes at the
/// fast level, or the message of its error.
pub uninterp spec fn gzipped(data: Seq<u8>) -> Result<Seq<u8>, Seq<char>>;

/// What `flate2::read::MultiGzDecoder` gives when some bytes are read through
/// it to the end: the bytes that come out before it stops, and how it stops.
/// `Ok(true)` is the end of the last member, `Ok(false)` is an input that ends
/// inside a member, and an error is an input that holds something else.
pub uninterp spec fn gunzipped(data: Seq<u8>) -> (Seq<u8>, Result<bool, Seq<char>>);

/// `member` is a gzip member with the given content: it starts with the gzip
/// mark and decodes to the content, alone and behind other whole members. Cut
/// off, it leaves the decoder inside it, with the front of the content at most;
/// whole members before the cut one come out whole. How much of a cut member
/// comes out is left open: it may depend on what stands before it.
pub open spec fn is_member(member: Seq<u8>, content: Seq<u8>) -> bool {
    &&& member.len() >= 2
    &&& member[0] == 0x1f
    &&& member[1] == 0x8b
    &&& gunzipped(member) == (content, Ok::<bool, Seq<char>>(true))
    &&& forall|before: Seq<u8>|
        gunzipped(before).1 == Ok::<bool, Seq<char>>(true) ==> #[trigger] gunzipped(
            before + member,
        ) == (gunzipped(before).0 + content, Ok::<bool, Seq<char>>(true))
    &&& forall|k: int|
        0 < k < member.len() ==> (#[trigger] gunzipped(member.take(k))).1 == Ok::<bool, Seq<char>>(
            false,
        ) && gunzipped(member.take(k)).0.is_prefix_of(content)
    &&& forall|before: Seq<u8>, k: int|
        gunzipped(before).1 == Ok::<bool, Seq<char>>(true) && 0 < k < member.len() ==> cut_behind(
            #[trigger] gunzipped(before + member.take(k)),
            gunzipped(before).0,
            content,
        )
}

/// What a decoder gives for a cut member behind whole ones: the contents of
/// those, the front of its own content at most, and that it was cut.
pub open spec fn cut_behind(
    got: (Seq<u8>, Result<bool, Seq<char>>),
    contents: Seq<u8>,
    content: Seq<u8>,
) -> bool {
    &&& got.1 == Ok::<bool, Seq<char>>(false)
    &&& contents.is_prefix_of(got.0)
    &&& got.0.is_prefix_of(contents + content)
}

/// Writes all of `data` to a `flate2::write::GzEncoder` over a vector at the
/// fast level and finishes it. The result depends on the bytes alone. What it
/// gives is one gzip member with the bytes as its content: a decoder for
/// several members reads it behind whole members as it reads it alone, and
/// reports an input that ends inside it as such, after the whole members before
/// it and at most the front of its content.
#[verifier::external_body]
pub(crate) fn gzip(data: &[u8]) -> (r: Result<Vec<u8>, String>)
    ensures
        match r {
            Ok(v) => gzipped(data@) == Ok::<Seq<u8>, Seq<char>>(v@) && is_member(v@, data@),
            Err(e) => gzipped(data@) == Err::<Seq<u8>, Seq<char>>(e@),
        },
{
    let mut e = flate2::write::GzEncoder::new(Vec::new(), flate2::Compression::fast());
    match std::io::Write::write_all(&mut e, data) {
        Ok(()) => e.finish().map_err(|e| e.to_string()),
        Err(e) => Err(e.to_string()),
    }
}

/// Reads `data` to its end through a `flate2::read::MultiGzDecoder`. The
/// result depends on the bytes alone: what came out, and whether the input
/// ended behind a member, inside one, or held something else. Of an input that
/// ends inside a member, or holds something else, nothing is said of how much
/// comes out of the last member.
#[verifier::external_body]
pub(crate) fn gunzip(data: &[u8]) -> (r: (Vec<u8>, Result<bool, String>))
    ensures
        gunzipped(data@).0 == r.0@,
        match r.1 {
            Ok(whole) => gunzipped(data@).1 == Ok::<bool, Seq<char>>(whole),
            Err(e) => gunzipped(data@).1 == Err::<bool, Seq<char>>(e@),
        },
{
    let mut out = Vec::new();
    let mut d = flate2::read::MultiGzDecoder::new(data);
    match std::io::Read::read_to_end(&mut d, &mut out) {
        Ok(_) => (out, Ok(true)),
        Err(e) if e.kind() == std::io::ErrorKind::UnexpectedEof => (out, Ok(false)),
        Err(e) => (out, Err(e.to_string())),
    }
}

} // verus!
