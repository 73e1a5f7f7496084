//! The segment splitter: partitions an image into one piece per declared
//! segment and one piece per gap, covering every byte exactly once, after
//! refusing to run against an image whose digest is not the declared one.

use vstd::prelude::*;
use vstd::slice::{slice_subrange, slice_to_vec};
use crate::digest::{digest_matches, hex_of_bytes, sha1_of};
use crate::manifest::{Manifest, Segment};

verus! {

/// Identity of a piece of the partition: a gap is keyed by its start
/// offset, a segment by its position in the manifest.
#[derive(Clone, Copy, PartialEq, Eq, Structural, Debug)]
pub enum PieceKey {
    Gap { start: u64 },
    Seg { index: usize },
}

/// One piece of the partition: its identity and its bytes.
#[derive(Debug, PartialEq, Eq)]
pub struct Piece {
    pub key: PieceKey,
    pub bytes: Vec<u8>,
}

/// Mathematical shape of a piece.
pub ghost struct PieceV {
    pub key: PieceKey,
    pub bytes: Seq<u8>,
}

impl View for Piece {
    type V = PieceV;

    open spec fn view(&self) -> PieceV {
        PieceV { key: self.key, bytes: self.bytes@ }
    }
}

pub open spec fn pieces_view(ps: Seq<Piece>) -> Seq<PieceV> {
    ps.map(|i: int, p: Piece| p@)
}

#[derive(Clone, Copy, PartialEq, Eq, Structural, Debug)]
pub enum SplitError {
    /// The image's digest differs from the manifest's declared digest.
    ChecksumMismatch,
    /// A segment's declared start lies behind the walk's cursor: the
    /// manifest declares a non-monotonic layout.
    OverlapOrDisorder,
    /// A demanded byte range extends beyond the end of the image.
    ReadBeyondImage,
}

/// Start of the next range the walk must account for: the next segment's
/// declared start, or the end of the image when no segment remains.
pub open spec fn next_start(segs: Seq<Segment>, index: int, image_len: int) -> int {
    if index < segs.len() {
        segs[index].start as int
    } else {
        image_len
    }
}

/// The partition the splitter's walk produces for `image[cursor..]` from
/// segment `index` on: a gap piece for every uncovered range and a segment
/// piece for every declared range, in address order. The walk ends when the
/// cursor reaches the end of the image.
pub open spec fn partition_from(
    segs: Seq<Segment>,
    image: Seq<u8>,
    cursor: nat,
    index: nat,
) -> Result<Seq<PieceV>, SplitError>
    decreases segs.len() - index, image.len() - cursor,
{
    if cursor >= image.len() {
        Ok(Seq::empty())
    } else {
        let ns = next_start(segs, index as int, image.len() as int);
        if cursor < ns {
            if ns > image.len() {
                Err(SplitError::ReadBeyondImage)
            } else {
                let piece = PieceV {
                    key: PieceKey::Gap { start: cursor as u64 },
                    bytes: image.subrange(cursor as int, ns),
                };
                match partition_from(segs, image, ns as nat, index) {
                    Ok(rest) => Ok(seq![piece] + rest),
                    Err(e) => Err(e),
                }
            }
        } else if cursor == ns && index < segs.len() {
            let seg = segs[index as int];
            if cursor + seg.size > image.len() {
                Err(SplitError::ReadBeyondImage)
            } else {
                let piece = PieceV {
                    key: PieceKey::Seg { index: index as usize },
                    bytes: image.subrange(cursor as int, cursor + seg.size),
                };
                match partition_from(segs, image, (cursor + seg.size) as nat, index + 1) {
                    Ok(rest) => Ok(seq![piece] + rest),
                    Err(e) => Err(e),
                }
            }
        } else {
            Err(SplitError::OverlapOrDisorder)
        }
    }
}

/// The already-produced pieces followed by whatever the rest of the walk
/// yields.
pub open spec fn compose_pieces(
    done: Seq<PieceV>,
    rest: Result<Seq<PieceV>, SplitError>,
) -> Result<Seq<PieceV>, SplitError> {
    match rest {
        Ok(r) => Ok(done + r),
        Err(e) => Err(e),
    }
}

/// Split an image into its partition. The digest gate comes first: an image
/// whose digest differs from the manifest's declared one is refused outright
/// and no piece is produced.
pub fn split_image(m: &Manifest, image: &Vec<u8>) -> (r: Result<Vec<Piece>, SplitError>)
    ensures
        m.digest@ != hex_of_bytes(sha1_of(image@)) ==> r == Err::<Vec<Piece>, SplitError>(
            SplitError::ChecksumMismatch,
        ),
        m.digest@ == hex_of_bytes(sha1_of(image@)) ==> match r {
            Ok(pieces) => partition_from(m.segments@, image@, 0, 0) == Ok::<
                Seq<PieceV>,
                SplitError,
            >(pieces_view(pieces@)),
            Err(e) => e != SplitError::ChecksumMismatch && partition_from(m.segments@, image@, 0, 0)
                == Err::<Seq<PieceV>, SplitError>(e),
        },
{
    if !digest_matches(image, m.digest.as_str()) {
        return Err(SplitError::ChecksumMismatch);
    }
    let ghost segs = m.segments@;
    let segs_n: usize = m.segments.len();
    let img_len: u64 = image.len() as u64;
    let mut pieces: Vec<Piece> = Vec::new();
    let mut cursor: u64 = 0;
    let mut index: usize = 0;
    while cursor < img_len
        invariant
            segs == m.segments@,
            img_len == image@.len(),
            segs_n == segs.len(),
            index <= segs_n,
            cursor <= img_len,
            img_len <= usize::MAX as u64,
            m.digest@ == hex_of_bytes(sha1_of(image@)),
            partition_from(segs, image@, 0, 0) == compose_pieces(
                pieces_view(pieces@),
                partition_from(segs, image@, cursor as nat, index as nat),
            ),
        decreases segs_n - index, img_len - cursor,
    {
        let ns: u64 = if index < segs_n {
            m.segments[index].start
        } else {
            img_len
        };
        let ghost done = pieces_view(pieces@);
        let ghost here = partition_from(segs, image@, cursor as nat, index as nat);
        if cursor < ns {
            if ns > img_len {
                proof {
                    assert(here == Err::<Seq<PieceV>, SplitError>(SplitError::ReadBeyondImage));
                }
                return Err(SplitError::ReadBeyondImage);
            }
            let chunk = slice_to_vec(slice_subrange(image.as_slice(), cursor as usize, ns as usize));
            let piece = Piece { key: PieceKey::Gap { start: cursor }, bytes: chunk };
            proof {
                let rest = partition_from(segs, image@, ns as nat, index as nat);
                assert(chunk@ == image@.subrange(cursor as int, ns as int));
                assert(here == compose_pieces(seq![piece@], rest));
                assert(pieces_view(pieces@.push(piece)) =~= done.push(piece@));
                if rest is Ok {
                    assert(done + (seq![piece@] + rest->Ok_0) =~= done.push(piece@)
                        + rest->Ok_0);
                }
            }
            pieces.push(piece);
            cursor = ns;
        } else if cursor == ns && index < segs_n {
            let size: u64 = m.segments[index].size;
            if size > img_len - cursor {
                proof {
                    assert(here == Err::<Seq<PieceV>, SplitError>(SplitError::ReadBeyondImage));
                }
                return Err(SplitError::ReadBeyondImage);
            }
            let end: u64 = cursor + size;
            let chunk = slice_to_vec(
                slice_subrange(image.as_slice(), cursor as usize, end as usize),
            );
            let piece = Piece { key: PieceKey::Seg { index }, bytes: chunk };
            proof {
                let rest = partition_from(segs, image@, end as nat, (index + 1) as nat);
                assert(chunk@ == image@.subrange(cursor as int, end as int));
                assert(here == compose_pieces(seq![piece@], rest));
                assert(pieces_view(pieces@.push(piece)) =~= done.push(piece@));
                if rest is Ok {
                    assert(done + (seq![piece@] + rest->Ok_0) =~= done.push(piece@)
                        + rest->Ok_0);
                }
            }
            pieces.push(piece);
            cursor = end;
            index += 1;
        } else {
            proof {
                assert(here == Err::<Seq<PieceV>, SplitError>(SplitError::OverlapOrDisorder));
            }
            return Err(SplitError::OverlapOrDisorder);
        }
    }
    proof {
        assert(partition_from(segs, image@, cursor as nat, index as nat) == Ok::<
            Seq<PieceV>,
            SplitError,
        >(Seq::empty()));
        assert(pieces_view(pieces@) + Seq::<PieceV>::empty() =~= pieces_view(pieces@));
    }
    Ok(pieces)
}

} // verus!
