//! WADO-RS: the media type that announces a `multipart/related` answer.

use vstd::prelude::*;
use vstd::string::StringSliceAdditionalSpecFns;
use crate::bytes::push_all;

verus! {

/// `multipart/related; type=`.
pub open spec fn related_prefix() -> Seq<u8> {
    "multipart/related; type=".spec_bytes()
}

/// `; boundary=`.
pub open spec fn boundary_parameter() -> Seq<u8> {
    "; boundary=".spec_bytes()
}

/// The `Content-Type` of a `multipart/related` message whose parts have
/// the media type `kind` and are delimited by `boundary`.
pub open spec fn related_type(kind: Seq<u8>, boundary: Seq<u8>) -> Seq<u8> {
    related_prefix() + kind + boundary_parameter() + boundary
}

/// Builds the `Content-Type` of a `multipart/related` message:
/// `multipart/related; type=` and the media type of the parts, then
/// `; boundary=` and the boundary token.
pub fn related_content_type(kind: &str, boundary: &[u8]) -> (r: Vec<u8>)
    ensures
        r@ == related_type(kind.spec_bytes(), boundary@),
{
    let mut r: Vec<u8> = Vec::new();
    push_all(&mut r, "multipart/related; type=".as_bytes());
    push_all(&mut r, kind.as_bytes());
    push_all(&mut r, "; boundary=".as_bytes());
    push_all(&mut r, boundary);
    assert(r@ =~= related_type(kind.spec_bytes(), boundary@));
    r
}

} // verus!
