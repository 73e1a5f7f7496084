//! Artifact naming: per-format subdirectories keyed by segment name, and
//! gap artifacts keyed by their hexadecimal start offset.

use vstd::prelude::*;
use vstd::string::StringExecFns;
use crate::hexutil::{hex_str_spec, to_hex};
use crate::manifest::{Segment, SegmentFormat};

verus! {

/// Path of a gap artifact, keyed by its start offset in hexadecimal.
pub open spec fn gap_artifact_path_spec(start: u64) -> Seq<char> {
    "bin/bin_"@ + hex_str_spec(start as int) + ".bin"@
}

pub fn gap_artifact_path(start: u64) -> (r: String)
    ensures
        r@ == gap_artifact_path_spec(start),
{
    let mut s = "bin/bin_".to_owned();
    s.append(to_hex(start).as_str());
    s.append(".bin");
    s
}

/// Path of a segment's byte artifact. For `Raw` and `Disassemble` this is
/// both written at split time and read back at merge time; for `Object` it
/// is the split-time holding dump, the merge-time bytes coming from the
/// extractor instead; for `PassThrough` it is the merge-time externally
/// built artifact, the split writing nothing.
pub open spec fn segment_artifact_path_spec(seg: Segment) -> Seq<char> {
    match seg.format {
        SegmentFormat::Raw => (match seg.path {
            Some(p) => p@,
            None => "bin"@,
        }) + "/"@ + seg.name@ + ".bin"@,
        SegmentFormat::Disassemble => "asm/"@ + seg.name@ + ".bin"@,
        SegmentFormat::Object => "obj/"@ + seg.name@ + ".bin"@,
        SegmentFormat::PassThrough => "build/"@ + seg.name@ + (match seg.group {
            Some(g) => "."@ + g@,
            None => Seq::<char>::empty(),
        }) + ".bin"@,
    }
}

pub fn segment_artifact_path(seg: &Segment) -> (r: String)
    ensures
        r@ == segment_artifact_path_spec(*seg),
{
    match seg.format {
        SegmentFormat::Raw => {
            let mut s = match &seg.path {
                Some(p) => p.clone(),
                None => "bin".to_owned(),
            };
            s.append("/");
            s.append(seg.name.as_str());
            s.append(".bin");
            s
        },
        SegmentFormat::Disassemble => {
            let mut s = "asm/".to_owned();
            s.append(seg.name.as_str());
            s.append(".bin");
            s
        },
        SegmentFormat::Object => {
            let mut s = "obj/".to_owned();
            s.append(seg.name.as_str());
            s.append(".bin");
            s
        },
        SegmentFormat::PassThrough => {
            let mut s = "build/".to_owned();
            s.append(seg.name.as_str());
            match &seg.group {
                Some(g) => {
                    s.append(".");
                    s.append(g.as_str());
                },
                None => {},
            }
            s.append(".bin");
            s
        },
    }
}

/// Path of the split-time reference dump of an ungrouped `PassThrough`
/// segment: it sits beside the segment's comparison listing. This dump is
/// a reference only; at merge time the segment's bytes come from the
/// externally built artifact instead.
pub open spec fn pass_through_dump_path_spec(seg: Segment) -> Seq<char> {
    "matching/"@ + seg.name@ + ".bin"@
}

pub fn pass_through_dump_path(seg: &Segment) -> (r: String)
    ensures
        r@ == pass_through_dump_path_spec(*seg),
{
    let mut s = "matching/".to_owned();
    s.append(seg.name.as_str());
    s.append(".bin");
    s
}

/// Path of a segment's disassembly listing: reference listings of
/// `Disassemble` segments sit beside their dumps; the comparison listings
/// of ungrouped `Object` and `PassThrough` segments sit in a directory of
/// their own.
pub open spec fn listing_path_spec(seg: Segment) -> Seq<char> {
    (match seg.format {
        SegmentFormat::Disassemble => "asm/"@,
        _ => "matching/"@,
    }) + seg.name@ + ".s"@
}

pub fn listing_path(seg: &Segment) -> (r: String)
    ensures
        r@ == listing_path_spec(*seg),
{
    let mut s = match seg.format {
        SegmentFormat::Disassemble => "asm/".to_owned(),
        _ => "matching/".to_owned(),
    };
    s.append(seg.name.as_str());
    s.append(".s");
    s
}

} // verus!
