//! The engine's governing theorems: the splitter's partition tiles the
//! image exactly once, and merging the partition rebuilds the image
//! byte-for-byte.

use vstd::prelude::*;
use crate::manifest::{Segment, wf_layout};
use crate::merge::{MergeError, merge_from};
use crate::split::{PieceKey, PieceV, SplitError, next_start, partition_from};

verus! {

/// All pieces' bytes, in order.
pub open spec fn concat_pieces(pieces: Seq<PieceV>) -> Seq<u8>
    decreases pieces.len(),
{
    if pieces.len() == 0 {
        Seq::empty()
    } else {
        pieces[0].bytes + concat_pieces(pieces.drop_first())
    }
}

/// The image offset at which a piece's range begins: a gap carries its
/// start, a segment piece begins at the segment's declared start.
pub open spec fn piece_start(segs: Seq<Segment>, p: PieceV) -> int {
    match p.key {
        PieceKey::Gap { start } => start as int,
        PieceKey::Seg { index } => if (index as int) < segs.len() {
            segs[index as int].start as int
        } else {
            0
        },
    }
}

proof fn lemma_concat_cons(p: PieceV, rest: Seq<PieceV>)
    ensures
        concat_pieces(seq![p] + rest) == p.bytes + concat_pieces(rest),
{
    assert((seq![p] + rest).len() == 1 + rest.len());
    assert((seq![p] + rest)[0] == p);
    assert((seq![p] + rest).drop_first() =~= rest);
}

/// Coverage of a walk's tail: the pieces produced for `image[cursor..]`
/// are consecutive — their bytes concatenate to exactly that range, and
/// each piece's declared start equals the offset at which its bytes land.
pub proof fn lemma_coverage_from(
    segs: Seq<Segment>,
    image: Seq<u8>,
    cursor: nat,
    index: nat,
    pieces: Seq<PieceV>,
)
    requires
        image.len() <= usize::MAX,
        segs.len() <= usize::MAX,
        cursor <= image.len(),
        index <= segs.len(),
        partition_from(segs, image, cursor, index) == Ok::<Seq<PieceV>, SplitError>(pieces),
    ensures
        concat_pieces(pieces) == image.subrange(cursor as int, image.len() as int),
        forall|j: int|
            0 <= j < pieces.len() ==> piece_start(segs, #[trigger] pieces[j]) == cursor
                + concat_pieces(pieces.take(j)).len(),
    decreases segs.len() - index, image.len() - cursor,
{
    if cursor >= image.len() {
        assert(pieces =~= Seq::<PieceV>::empty());
        assert(concat_pieces(pieces) =~= image.subrange(cursor as int, image.len() as int));
    } else {
        let ns = next_start(segs, index as int, image.len() as int);
        if cursor < ns {
            assert(ns <= image.len());
            let sub = partition_from(segs, image, ns as nat, index);
            assert(sub is Ok);
            let rest = sub->Ok_0;
            let p = PieceV {
                key: PieceKey::Gap { start: cursor as u64 },
                bytes: image.subrange(cursor as int, ns),
            };
            assert(pieces == seq![p] + rest);
            lemma_coverage_from(segs, image, ns as nat, index, rest);
            lemma_concat_cons(p, rest);
            assert(concat_pieces(pieces) =~= image.subrange(cursor as int, image.len() as int));
            assert forall|j: int| 0 <= j < pieces.len() implies piece_start(
                segs,
                #[trigger] pieces[j],
            ) == cursor + concat_pieces(pieces.take(j)).len() by {
                if j == 0 {
                    assert(pieces.take(0) =~= Seq::<PieceV>::empty());
                } else {
                    assert(pieces[j] == rest[j - 1]);
                    assert(pieces.take(j) =~= seq![p] + rest.take(j - 1));
                    lemma_concat_cons(p, rest.take(j - 1));
                    assert(piece_start(segs, rest[j - 1]) == ns + concat_pieces(
                        rest.take(j - 1),
                    ).len());
                }
            }
        } else if cursor == ns && index < segs.len() {
            let seg = segs[index as int];
            assert(cursor + seg.size <= image.len());
            let sub = partition_from(segs, image, (cursor + seg.size) as nat, index + 1);
            assert(sub is Ok);
            let rest = sub->Ok_0;
            let p = PieceV {
                key: PieceKey::Seg { index: index as usize },
                bytes: image.subrange(cursor as int, cursor + seg.size),
            };
            assert(pieces == seq![p] + rest);
            lemma_coverage_from(segs, image, (cursor + seg.size) as nat, index + 1, rest);
            lemma_concat_cons(p, rest);
            assert(concat_pieces(pieces) =~= image.subrange(cursor as int, image.len() as int));
            assert forall|j: int| 0 <= j < pieces.len() implies piece_start(
                segs,
                #[trigger] pieces[j],
            ) == cursor + concat_pieces(pieces.take(j)).len() by {
                if j == 0 {
                    assert(pieces.take(0) =~= Seq::<PieceV>::empty());
                } else {
                    assert(pieces[j] == rest[j - 1]);
                    assert(pieces.take(j) =~= seq![p] + rest.take(j - 1));
                    lemma_concat_cons(p, rest.take(j - 1));
                    assert(piece_start(segs, rest[j - 1]) == cursor + seg.size + concat_pieces(
                        rest.take(j - 1),
                    ).len());
                }
            }
        }
    }
}

/// Coverage: the pieces the splitter produces tile `[0, image.len())`
/// exactly once, with no overlap — each piece begins exactly where the
/// previous one ended, and together their bytes are the whole image.
pub proof fn lemma_split_coverage(segs: Seq<Segment>, image: Seq<u8>, pieces: Seq<PieceV>)
    requires
        image.len() <= usize::MAX,
        segs.len() <= usize::MAX,
        partition_from(segs, image, 0, 0) == Ok::<Seq<PieceV>, SplitError>(pieces),
    ensures
        concat_pieces(pieces) == image,
        forall|j: int|
            0 <= j < pieces.len() ==> piece_start(segs, #[trigger] pieces[j]) == concat_pieces(
                pieces.take(j),
            ).len(),
{
    lemma_coverage_from(segs, image, 0, 0, pieces);
    assert(image.subrange(0, image.len() as int) =~= image);
}

/// Merging a walk's own partition tail rebuilds `image[cursor..]`.
#[verifier::rlimit(50)]
pub proof fn lemma_merge_inverts_from(
    segs: Seq<Segment>,
    image: Seq<u8>,
    cursor: nat,
    index: nat,
    pieces: Seq<PieceV>,
)
    requires
        image.len() <= usize::MAX,
        segs.len() <= usize::MAX,
        cursor <= image.len(),
        index <= segs.len(),
        partition_from(segs, image, cursor, index) == Ok::<Seq<PieceV>, SplitError>(pieces),
        forall|i: int|
            index <= i && i + 1 < segs.len() ==> (#[trigger] segs[i]).start + segs[i].size
                <= segs[i + 1].start,
        forall|i: int| index <= i < segs.len() ==> (#[trigger] segs[i]).start < image.len(),
        index < segs.len() ==> cursor <= segs[index as int].start,
    ensures
        merge_from(segs, pieces, cursor as int, index as int) == Ok::<Seq<u8>, MergeError>(
            image.subrange(cursor as int, image.len() as int),
        ),
    decreases segs.len() - index, image.len() - cursor,
{
    if cursor >= image.len() {
        assert(index == segs.len());
        assert(pieces =~= Seq::<PieceV>::empty());
        assert(image.subrange(cursor as int, image.len() as int) =~= Seq::<u8>::empty());
    } else {
        let ns = next_start(segs, index as int, image.len() as int);
        if cursor < ns {
            assert(ns <= image.len());
            let sub = partition_from(segs, image, ns as nat, index);
            assert(sub is Ok);
            let rest = sub->Ok_0;
            let p = PieceV {
                key: PieceKey::Gap { start: cursor as u64 },
                bytes: image.subrange(cursor as int, ns),
            };
            assert(pieces == seq![p] + rest);
            assert(pieces.len() == 1 + rest.len());
            assert(pieces[0] == p);
            assert(pieces.drop_first() =~= rest);
            if index == segs.len() {
                // the trailing gap: the walk ends at the image's end and the
                // remaining pieces are exactly this one
                assert(ns == image.len());
                assert(partition_from(segs, image, ns as nat, index) == Ok::<
                    Seq<PieceV>,
                    SplitError,
                >(Seq::empty()));
                assert(rest =~= Seq::<PieceV>::empty());
                assert(pieces.len() == 1);
                assert(merge_from(segs, pieces, cursor as int, index as int) == Ok::<
                    Seq<u8>,
                    MergeError,
                >(p.bytes));
            } else {
                lemma_merge_inverts_from(segs, image, ns as nat, index, rest);
                assert(p.bytes + image.subrange(ns, image.len() as int) =~= image.subrange(
                    cursor as int,
                    image.len() as int,
                ));
            }
        } else if cursor == ns && index < segs.len() {
            let seg = segs[index as int];
            assert(cursor + seg.size <= image.len());
            let sub = partition_from(segs, image, (cursor + seg.size) as nat, index + 1);
            assert(sub is Ok);
            let rest = sub->Ok_0;
            let p = PieceV {
                key: PieceKey::Seg { index: index as usize },
                bytes: image.subrange(cursor as int, cursor + seg.size),
            };
            assert(pieces == seq![p] + rest);
            assert(pieces[0] == p);
            assert(pieces.drop_first() =~= rest);
            lemma_merge_inverts_from(segs, image, (cursor + seg.size) as nat, index + 1, rest);
            assert(p.bytes + image.subrange(cursor + seg.size, image.len() as int)
                =~= image.subrange(cursor as int, image.len() as int));
        }
    }
}

/// Round-trip: for a manifest whose layout is sorted and free of overlap
/// and whose every segment begins inside the image, merging the partition
/// the splitter produced rebuilds the original image byte-for-byte. The
/// digest gate is a separate, earlier concern: the splitter hands out a
/// partition only for an image whose digest matches the declared one.
pub proof fn lemma_round_trip(segs: Seq<Segment>, image: Seq<u8>, pieces: Seq<PieceV>)
    requires
        image.len() <= usize::MAX,
        segs.len() <= usize::MAX,
        partition_from(segs, image, 0, 0) == Ok::<Seq<PieceV>, SplitError>(pieces),
        wf_layout(segs),
        forall|i: int| 0 <= i < segs.len() ==> (#[trigger] segs[i]).start < image.len(),
    ensures
        merge_from(segs, pieces, 0, 0) == Ok::<Seq<u8>, MergeError>(image),
{
    lemma_merge_inverts_from(segs, image, 0, 0, pieces);
    assert(image.subrange(0, image.len() as int) =~= image);
}

} // verus!
