//! STOW-RS: which parts of a stored request are DICOM files.

use vstd::prelude::*;
use vstd::string::StringSliceAdditionalSpecFns;
use crate::bytes::bytes_eq;
use crate::collect::Collected;
use crate::error::MultipartError;
use crate::header::PartHead;
use crate::message::{Decoded, PartModel};
use crate::server::Object;

verus! {

/// `application/dicom`.
pub open spec fn dicom_type() -> Seq<u8> {
    "application/dicom".spec_bytes()
}

/// Why a request cannot be stored.
#[derive(Debug, PartialEq, Eq)]
pub enum StowError {
    /// The message could not be read to its end.
    Multipart(MultipartError),
    /// A part declares no media type.
    MissingContentType,
    /// A part declares this media type, which is not `application/dicom`.
    UnsupportedContentType(Vec<u8>),
}

/// A refusal as a value.
pub enum Refusal {
    /// The message could not be read to its end.
    Multipart(MultipartError),
    /// A part declares no media type.
    MissingContentType,
    /// A part declares this media type, which is not `application/dicom`.
    UnsupportedContentType(Seq<u8>),
}

impl View for StowError {
    type V = Refusal;

    open spec fn view(&self) -> Refusal {
        match self {
            StowError::Multipart(e) => Refusal::Multipart(*e),
            StowError::MissingContentType => Refusal::MissingContentType,
            StowError::UnsupportedContentType(t) => Refusal::UnsupportedContentType(t@),
        }
    }
}

/// Why a part is no DICOM file, if it is none.
pub open spec fn objection(part: PartModel) -> Option<Refusal> {
    head_objection(part.head)
}

/// Why the part that `head` announces is no DICOM file, if it is none.
pub open spec fn head_objection(head: PartHead) -> Option<Refusal> {
    match head.content_type {
        None => Some(Refusal::MissingContentType),
        Some(m) => if m.text == dicom_type() {
            None
        } else {
            Some(Refusal::UnsupportedContentType(m.text))
        },
    }
}

/// Index of the first part at or after `from` that is no DICOM file.
pub open spec fn first_objection(parts: Seq<PartModel>, from: int) -> Option<int>
    decreases parts.len() - from,
{
    if from < 0 || from >= parts.len() {
        None
    } else if objection(parts[from]).is_some() {
        Some(from)
    } else {
        first_objection(parts, from + 1)
    }
}

/// Why the part that a failure cut short is no DICOM file, if there is
/// such a part and it is none.
pub open spec fn last_objection(d: Decoded) -> Option<Refusal> {
    match d.unfinished {
        Some(head) => head_objection(head),
        None => None,
    }
}

/// The DICOM files of a stored request: the body of every part, in the
/// order of the parts, where each part declares `application/dicom` and the
/// message was read to its end. Otherwise the request is refused: for the
/// first part that is no DICOM file, the part that a failure cut short
/// among them, and else for the failure of the message.
pub open spec fn dicom_files(d: Decoded) -> Result<Seq<Seq<u8>>, Refusal> {
    match first_objection(d.parts, 0) {
        Some(i) => Err(objection(d.parts[i]).unwrap()),
        None => match last_objection(d) {
            Some(refusal) => Err(refusal),
            None => match d.error {
                Some(e) => Err(Refusal::Multipart(e)),
                None => Ok(Seq::new(d.parts.len(), |i: int| d.parts[i].body)),
            },
        },
    }
}

/// The bodies of a list of files, as values.
pub open spec fn file_views(files: Seq<Vec<u8>>) -> Seq<Seq<u8>> {
    Seq::new(files.len(), |i: int| files[i]@)
}

/// Why a part is no DICOM file, if it is none.
pub fn refusal_of(part: &Object) -> (r: Option<StowError>)
    ensures
        match r {
            Some(e) => head_objection(part@.head) == Some(e@),
            None => head_objection(part@.head).is_none(),
        },
{
    match part.content_type() {
        None => Some(StowError::MissingContentType),
        Some(m) => if bytes_eq(m.text.as_slice(), "application/dicom".as_bytes()) {
            None
        } else {
            let text = m.text.clone();
            assert(text@ =~= m.text@);
            Some(StowError::UnsupportedContentType(text))
        },
    }
}

/// Picks the DICOM files out of what was read from a stored request.
pub fn collect_dicom_files(collected: Collected) -> (r: Result<Vec<Vec<u8>>, StowError>)
    ensures
        match (r, dicom_files(collected@)) {
            (Ok(files), Ok(expected)) => file_views(files@) == expected,
            (Err(e), Err(expected)) => e@ == expected,
            _ => false,
        },
{
    let ghost all = collected@;
    let Collected { parts, unfinished, error } = collected;
    let mut parts = parts;
    let mut files: Vec<Vec<u8>> = Vec::new();
    let mut i: usize = 0;
    while i < parts.len()
        invariant
            i <= parts@.len(),
            all == collected@,
            all.parts.len() == parts@.len(),
            all.error == error,
            all.unfinished == match unfinished {
                Some(o) => Some(o@.head),
                None => None,
            },
            forall|j: int| i <= j < parts@.len() ==> (#[trigger] parts@[j])@ == all.parts[j],
            forall|j: int| 0 <= j < i ==> all.parts[j].head == (#[trigger] parts@[j])@.head,
            first_objection(all.parts, 0) == first_objection(all.parts, i as int),
            files@.len() == i,
            forall|j: int| 0 <= j < i ==> (#[trigger] files@[j])@ == all.parts[j].body,
        decreases parts@.len() - i,
    {
        assert(parts@[i as int]@ == all.parts[i as int]);
        match refusal_of(&parts[i].part) {
            Some(e) => {
                assert(objection(all.parts[i as int]) == Some(e@));
                assert(all == collected@);
                return Err(e);
            },
            None => {},
        }
        let mut body: Vec<u8> = Vec::new();
        let ghost before = parts@;
        core::mem::swap(&mut body, &mut parts[i].body);
        files.push(body);
        i += 1;
    }
    match &unfinished {
        Some(part) => match refusal_of(part) {
            Some(e) => {
                return Err(e);
            },
            None => {},
        },
        None => {},
    }
    match error {
        Some(e) => Err(StowError::Multipart(e)),
        None => {
            assert(file_views(files@) =~= Seq::new(
                all.parts.len(),
                |i: int| all.parts[i].body,
            ));
            Ok(files)
        },
    }
}

} // verus!
