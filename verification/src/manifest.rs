//! The manifest model: the validated, ordered description of an image's
//! segments, its expected digest, and the virtual-address offset used for
//! disassembly.

use vstd::prelude::*;
use crate::textutil::str_eq;

verus! {

/// How a segment's bytes are treated at split and at merge time.
///
/// - `Raw`: dumped verbatim at split, read back verbatim at merge.
/// - `Disassemble`: dumped verbatim as a reference, with a disassembly
///   listing beside it; the reference dump is read back at merge.
/// - `Object`: dumped verbatim to a holding area at split; rebuilt at merge
///   from function blobs extracted out of a compiled relocatable object.
/// - `PassThrough`: no artifact at split; read at merge from an externally
///   maintained build artifact.
#[derive(Clone, Copy, PartialEq, Eq, Structural, Debug)]
pub enum SegmentFormat {
    Raw,
    Disassemble,
    Object,
    PassThrough,
}

/// A manifest-declared contiguous byte range of the image.
pub struct Segment {
    /// Absolute byte offset of the range in the image.
    pub start: u64,
    /// Byte length of the range.
    pub size: u64,
    /// Identifier of the segment, unique within its format's directory.
    pub name: String,
    /// Output-directory override for `Raw` segments.
    pub path: Option<String>,
    pub format: SegmentFormat,
    /// Sub-grouping tag; a grouped `Object` or `PassThrough` segment gets no
    /// reference disassembly at split time.
    pub group: Option<String>,
}

/// The validated, ordered description of all segments plus the expected
/// image digest. Immutable once built; it outlives one split, merge or
/// checksum invocation.
pub struct Manifest {
    pub name: String,
    /// Expected content digest of the image, lower-case hexadecimal.
    pub digest: String,
    /// Additive constant mapping a file offset to a virtual address.
    pub vram_offset: u64,
    /// Sorted ascending by `start`; violations are detected when the walk
    /// runs, not when the manifest is loaded.
    pub segments: Vec<Segment>,
}

#[derive(Clone, Copy, PartialEq, Eq, Structural, Debug)]
pub enum ManifestError {
    /// A required field is absent or an unknown format tag appears.
    MalformedManifest,
}

/// The declared layout is sorted ascending by start and free of overlap:
/// each segment ends at or before the next one begins.
pub open spec fn wf_layout(segs: Seq<Segment>) -> bool {
    forall|i: int|
        0 <= i && i + 1 < segs.len() ==> (#[trigger] segs[i]).start + segs[i].size <= segs[i
            + 1].start
}

/// The format a textual tag denotes, if any.
pub open spec fn format_of_tag(t: Seq<char>) -> Option<SegmentFormat> {
    if t == "raw"@ {
        Some(SegmentFormat::Raw)
    } else if t == "disassemble"@ {
        Some(SegmentFormat::Disassemble)
    } else if t == "object"@ {
        Some(SegmentFormat::Object)
    } else if t == "pass-through"@ {
        Some(SegmentFormat::PassThrough)
    } else {
        None
    }
}

/// Parse a segment's format tag; an unknown tag is a malformed manifest.
pub fn parse_format(tag: &str) -> (r: Result<SegmentFormat, ManifestError>)
    ensures
        r == match format_of_tag(tag@) {
            Some(f) => Ok::<SegmentFormat, ManifestError>(f),
            None => Err::<SegmentFormat, ManifestError>(ManifestError::MalformedManifest),
        },
{
    if str_eq(tag, "raw") {
        Ok(SegmentFormat::Raw)
    } else if str_eq(tag, "disassemble") {
        Ok(SegmentFormat::Disassemble)
    } else if str_eq(tag, "object") {
        Ok(SegmentFormat::Object)
    } else if str_eq(tag, "pass-through") {
        Ok(SegmentFormat::PassThrough)
    } else {
        Err(ManifestError::MalformedManifest)
    }
}

} // verus!
