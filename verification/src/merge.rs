//! The segment merger: the inverse of the splitter. It walks the manifest
//! in order, checks that each supplied artifact is the one the walk expects
//! and has exactly the declared length, and concatenates the artifacts back
//! into one contiguous image.

use vstd::prelude::*;
use crate::manifest::{Manifest, Segment};
use crate::split::{Piece, PieceKey, PieceV, pieces_view};

verus! {

#[derive(Clone, Copy, PartialEq, Eq, Structural, Debug)]
pub enum MergeError {
    /// The walk expected another artifact and none was supplied.
    MissingArtifact,
    /// The supplied artifact is not the one the walk expects here.
    WrongArtifact,
    /// An artifact's byte length is not the declared one.
    SizeMismatch { expected: u64, actual: u64 },
    /// A segment's declared start lies behind the walk's cursor.
    OverlapOrDisorder,
    /// Artifacts remain after the walk, other than a single trailing gap.
    TrailingArtifact,
}

/// What merging yields from segment `index` on, consuming `pieces` in
/// order: the rebuilt tail of the image, or the first failure the walk
/// meets. After the last segment at most one artifact may remain, the
/// trailing gap, and its bytes are appended whole.
pub open spec fn merge_from(
    segs: Seq<Segment>,
    pieces: Seq<PieceV>,
    cursor: int,
    index: int,
) -> Result<Seq<u8>, MergeError>
    decreases segs.len() - index, pieces.len(),
{
    if index < 0 || index >= segs.len() {
        if pieces.len() == 0 {
            Ok(Seq::empty())
        } else if pieces.len() == 1 && pieces[0].key == (PieceKey::Gap { start: cursor as u64 }) {
            Ok(pieces[0].bytes)
        } else {
            Err(MergeError::TrailingArtifact)
        }
    } else {
        let seg = segs[index];
        if (seg.start as int) < cursor {
            Err(MergeError::OverlapOrDisorder)
        } else if cursor < seg.start as int {
            if pieces.len() == 0 {
                Err(MergeError::MissingArtifact)
            } else if pieces[0].key != (PieceKey::Gap { start: cursor as u64 }) {
                Err(MergeError::WrongArtifact)
            } else if pieces[0].bytes.len() != seg.start - cursor {
                Err(MergeError::SizeMismatch {
                    expected: (seg.start - cursor) as u64,
                    actual: pieces[0].bytes.len() as u64,
                })
            } else {
                match merge_from(segs, pieces.drop_first(), seg.start as int, index) {
                    Ok(rest) => Ok(pieces[0].bytes + rest),
                    Err(e) => Err(e),
                }
            }
        } else {
            if pieces.len() == 0 {
                Err(MergeError::MissingArtifact)
            } else if pieces[0].key != (PieceKey::Seg { index: index as usize }) {
                Err(MergeError::WrongArtifact)
            } else if pieces[0].bytes.len() != seg.size {
                Err(MergeError::SizeMismatch {
                    expected: seg.size,
                    actual: pieces[0].bytes.len() as u64,
                })
            } else {
                match merge_from(segs, pieces.drop_first(), cursor + seg.size, index + 1) {
                    Ok(rest) => Ok(pieces[0].bytes + rest),
                    Err(e) => Err(e),
                }
            }
        }
    }
}

/// The artifact keys the merge walk will ask for from segment `index` on,
/// in order: a gap key wherever the cursor lags the next declared start,
/// then the segment's own key. The optional trailing gap is not planned:
/// whether one exists only the artifact store can tell. A layout whose
/// next start lies behind the cursor, or whose end does not fit the
/// address space, is refused.
pub open spec fn plan_from(segs: Seq<Segment>, cursor: int, index: int) -> Result<
    Seq<PieceKey>,
    MergeError,
>
    decreases segs.len() - index,
{
    if index < 0 || index >= segs.len() {
        Ok(Seq::empty())
    } else {
        let seg = segs[index];
        if (seg.start as int) < cursor {
            Err(MergeError::OverlapOrDisorder)
        } else if seg.start + seg.size > u64::MAX {
            Err(MergeError::OverlapOrDisorder)
        } else {
            let gapkeys: Seq<PieceKey> = if cursor < seg.start as int {
                seq![PieceKey::Gap { start: cursor as u64 }]
            } else {
                Seq::empty()
            };
            match plan_from(segs, seg.start + seg.size, index + 1) {
                Ok(rest) => Ok(gapkeys + seq![PieceKey::Seg { index: index as usize }] + rest),
                Err(e) => Err(e),
            }
        }
    }
}

pub open spec fn compose_plan(
    done: Seq<PieceKey>,
    rest: Result<Seq<PieceKey>, MergeError>,
) -> Result<Seq<PieceKey>, MergeError> {
    match rest {
        Ok(r) => Ok(done + r),
        Err(e) => Err(e),
    }
}

/// Plan the merge: the artifact keys to resolve, in order, and the cursor
/// after the last segment, where a trailing gap artifact may follow.
pub fn merge_plan(m: &Manifest) -> (r: Result<(Vec<PieceKey>, u64), MergeError>)
    ensures
        match r {
            Ok(p) => plan_from(m.segments@, 0, 0) == Ok::<Seq<PieceKey>, MergeError>(p.0@) && (
            m.segments@.len() == 0 ==> p.1 == 0) && (m.segments@.len() > 0 ==> p.1
                == m.segments@.last().start + m.segments@.last().size),
            Err(e) => plan_from(m.segments@, 0, 0) == Err::<Seq<PieceKey>, MergeError>(e),
        },
{
    let ghost segs = m.segments@;
    let segs_n: usize = m.segments.len();
    let mut keys: Vec<PieceKey> = Vec::new();
    let mut cursor: u64 = 0;
    let mut index: usize = 0;
    proof {
        let init = plan_from(segs, 0, 0);
        if init is Ok {
            assert(Seq::<PieceKey>::empty() + init->Ok_0 =~= init->Ok_0);
        }
    }
    while index < segs_n
        invariant
            segs == m.segments@,
            segs_n == segs.len(),
            index <= segs_n,
            index == 0 ==> cursor == 0,
            index > 0 ==> cursor == segs[index - 1].start + segs[index - 1].size,
            plan_from(segs, 0, 0) == compose_plan(
                keys@,
                plan_from(segs, cursor as int, index as int),
            ),
        decreases segs_n - index,
    {
        let ghost here = plan_from(segs, cursor as int, index as int);
        let ghost done = keys@;
        let start: u64 = m.segments[index].start;
        let size: u64 = m.segments[index].size;
        if start < cursor {
            proof {
                assert(here == Err::<Seq<PieceKey>, MergeError>(MergeError::OverlapOrDisorder));
            }
            return Err(MergeError::OverlapOrDisorder);
        }
        if size > u64::MAX - start {
            proof {
                assert(here == Err::<Seq<PieceKey>, MergeError>(MergeError::OverlapOrDisorder));
            }
            return Err(MergeError::OverlapOrDisorder);
        }
        let ghost gapkeys: Seq<PieceKey> = if (cursor as int) < start as int {
            seq![PieceKey::Gap { start: cursor }]
        } else {
            Seq::<PieceKey>::empty()
        };
        if cursor < start {
            keys.push(PieceKey::Gap { start: cursor });
        }
        keys.push(PieceKey::Seg { index });
        proof {
            let rest = plan_from(segs, start + size, index + 1);
            assert(here == compose_plan(gapkeys + seq![PieceKey::Seg { index }], rest));
            assert(keys@ =~= done + (gapkeys + seq![PieceKey::Seg { index }]));
            if rest is Ok {
                assert(done + ((gapkeys + seq![PieceKey::Seg { index }]) + rest->Ok_0) =~= keys@
                    + rest->Ok_0);
            }
        }
        cursor = start + size;
        index += 1;
    }
    proof {
        assert(plan_from(segs, cursor as int, index as int) == Ok::<Seq<PieceKey>, MergeError>(
            Seq::empty(),
        ));
        assert(keys@ + Seq::<PieceKey>::empty() =~= keys@);
    }
    Ok((keys, cursor))
}

/// The already-rebuilt bytes followed by whatever the rest of the walk
/// yields.
pub open spec fn compose_bytes(
    done: Seq<u8>,
    rest: Result<Seq<u8>, MergeError>,
) -> Result<Seq<u8>, MergeError> {
    match rest {
        Ok(r) => Ok(done + r),
        Err(e) => Err(e),
    }
}

/// Merge the supplied artifacts back into one image, verifying each
/// artifact's identity and byte length against the manifest walk.
pub fn merge_artifacts(m: &Manifest, pieces: &Vec<Piece>) -> (r: Result<Vec<u8>, MergeError>)
    ensures
        match r {
            Ok(out) => merge_from(m.segments@, pieces_view(pieces@), 0, 0) == Ok::<
                Seq<u8>,
                MergeError,
            >(out@),
            Err(e) => merge_from(m.segments@, pieces_view(pieces@), 0, 0) == Err::<
                Seq<u8>,
                MergeError,
            >(e),
        },
{
    let ghost segs = m.segments@;
    let ghost all = pieces_view(pieces@);
    let segs_n: usize = m.segments.len();
    let mut out: Vec<u8> = Vec::new();
    let mut cursor: u64 = 0;
    let mut index: usize = 0;
    let mut pidx: usize = 0;
    proof {
        assert(all.skip(0) =~= all);
        let init = merge_from(segs, all, 0, 0);
        if init is Ok {
            assert(Seq::<u8>::empty() + init->Ok_0 =~= init->Ok_0);
        }
    }
    while index < segs_n
        invariant
            segs == m.segments@,
            all == pieces_view(pieces@),
            segs_n == segs.len(),
            index <= segs_n,
            pidx <= pieces@.len(),
            cursor as int == out@.len(),
            merge_from(segs, all, 0, 0) == compose_bytes(
                out@,
                merge_from(segs, all.skip(pidx as int), cursor as int, index as int),
            ),
        decreases segs_n - index, pieces@.len() - pidx,
    {
        let ghost rem = all.skip(pidx as int);
        let ghost here = merge_from(segs, rem, cursor as int, index as int);
        let seg_start: u64 = m.segments[index].start;
        let seg_size: u64 = m.segments[index].size;
        if seg_start < cursor {
            proof {
                assert(here == Err::<Seq<u8>, MergeError>(MergeError::OverlapOrDisorder));
            }
            return Err(MergeError::OverlapOrDisorder);
        }
        if pidx >= pieces.len() {
            proof {
                assert(rem.len() == 0);
                assert(here == Err::<Seq<u8>, MergeError>(MergeError::MissingArtifact));
            }
            return Err(MergeError::MissingArtifact);
        }
        proof {
            assert(rem[0] == pieces@[pidx as int]@);
        }
        if cursor < seg_start {
            // a gap artifact must fill [cursor, seg_start)
            if !(pieces[pidx].key == (PieceKey::Gap { start: cursor })) {
                proof {
                    assert(here == Err::<Seq<u8>, MergeError>(MergeError::WrongArtifact));
                }
                return Err(MergeError::WrongArtifact);
            }
            let expected: u64 = seg_start - cursor;
            let actual_usize: usize = pieces[pidx].bytes.len();
            let actual: u64 = actual_usize as u64;
            if actual != expected {
                proof {
                    assert(here == Err::<Seq<u8>, MergeError>(MergeError::SizeMismatch {
                        expected,
                        actual,
                    }));
                }
                return Err(MergeError::SizeMismatch { expected, actual });
            }
            let ghost out_old = out@;
            proof {
                assert(rem.drop_first() =~= all.skip(pidx + 1));
            }
            out.extend_from_slice(pieces[pidx].bytes.as_slice());
            proof {
                let rest = merge_from(segs, all.skip(pidx + 1), seg_start as int, index as int);
                assert(here == compose_bytes(rem[0].bytes, rest));
                if rest is Ok {
                    assert(out_old + (rem[0].bytes + rest->Ok_0) =~= out@ + rest->Ok_0);
                }
            }
            cursor = seg_start;
            pidx += 1;
        } else {
            // the segment's own artifact
            if !(pieces[pidx].key == (PieceKey::Seg { index })) {
                proof {
                    assert(here == Err::<Seq<u8>, MergeError>(MergeError::WrongArtifact));
                }
                return Err(MergeError::WrongArtifact);
            }
            let actual_usize: usize = pieces[pidx].bytes.len();
            let actual: u64 = actual_usize as u64;
            if actual != seg_size {
                proof {
                    assert(here == Err::<Seq<u8>, MergeError>(MergeError::SizeMismatch {
                        expected: seg_size,
                        actual,
                    }));
                }
                return Err(MergeError::SizeMismatch { expected: seg_size, actual });
            }
            let ghost out_old = out@;
            proof {
                assert(rem.drop_first() =~= all.skip(pidx + 1));
            }
            out.extend_from_slice(pieces[pidx].bytes.as_slice());
            proof {
                let rest = merge_from(
                    segs,
                    all.skip(pidx + 1),
                    cursor + seg_size,
                    index + 1,
                );
                assert(here == compose_bytes(rem[0].bytes, rest));
                if rest is Ok {
                    assert(out_old + (rem[0].bytes + rest->Ok_0) =~= out@ + rest->Ok_0);
                }
            }
            let new_len: usize = out.len();
            proof {
                assert(new_len as int == cursor as int + seg_size as int);
            }
            cursor = new_len as u64;
            index += 1;
            pidx += 1;
        }
    }
    // after the last segment: at most one trailing gap artifact may remain
    let ghost rem = all.skip(pidx as int);
    let ghost here = merge_from(segs, rem, cursor as int, segs_n as int);
    let remaining: usize = pieces.len() - pidx;
    if remaining == 0 {
        proof {
            assert(rem.len() == 0);
            assert(here == Ok::<Seq<u8>, MergeError>(Seq::empty()));
            assert(out@ + Seq::<u8>::empty() =~= out@);
        }
        return Ok(out);
    }
    if remaining == 1 && pieces[pidx].key == (PieceKey::Gap { start: cursor }) {
        proof {
            assert(rem.len() == 1);
            assert(rem[0] == pieces@[pidx as int]@);
            assert(here == Ok::<Seq<u8>, MergeError>(rem[0].bytes));
        }
        let ghost out_old = out@;
        out.extend_from_slice(pieces[pidx].bytes.as_slice());
        proof {
            assert(out@ == out_old + rem[0].bytes);
        }
        return Ok(out);
    }
    proof {
        assert(rem.len() >= 1);
        assert(here == Err::<Seq<u8>, MergeError>(MergeError::TrailingArtifact));
    }
    Err(MergeError::TrailingArtifact)
}

} // verus!
