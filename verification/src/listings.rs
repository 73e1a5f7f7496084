//! The split-time listing pass: every piece of the partition that calls
//! for a reference disassembly is decoded at its virtual address and
//! annotated with the symbol table.

use vstd::prelude::*;
use crate::disasm::{DisasmError, disassemble_listing, listing_spec, ppc_decode};
use crate::manifest::{Manifest, Segment, SegmentFormat};
use crate::split::{Piece, PieceKey, PieceV, pieces_view};
use crate::symbols::lines_view;
use crate::symbols::SymbolTable;

verus! {

/// Which segments get a reference disassembly at split time: every
/// `Disassemble` segment; `Object` and `PassThrough` segments only when no
/// group is set, a grouped one being understood as reconstructed from
/// source rather than dumped for reference.
pub open spec fn listed(seg: Segment) -> bool {
    match seg.format {
        SegmentFormat::Raw => false,
        SegmentFormat::Disassemble => true,
        SegmentFormat::Object => seg.group is None,
        SegmentFormat::PassThrough => seg.group is None,
    }
}

/// The virtual address a segment is disassembled at: its file offset plus
/// the manifest's vram offset, wrapping at the address-space limit.
pub open spec fn seg_vram(vram_offset: u64, start: u64) -> u64 {
    vstd::wrapping::u64_specs::wrapping_add(vram_offset, start)
}

/// One emitted listing: the segment it belongs to and its lines.
pub struct Listing {
    pub index: usize,
    pub lines: Vec<String>,
}

/// Mathematical shape of a listing.
pub ghost struct ListingV {
    pub index: usize,
    pub lines: Seq<Seq<char>>,
}

impl View for Listing {
    type V = ListingV;

    open spec fn view(&self) -> ListingV {
        ListingV { index: self.index, lines: lines_view(self.lines@) }
    }
}

pub open spec fn listings_view(ls: Seq<Listing>) -> Seq<ListingV> {
    ls.map(|i: int, l: Listing| l@)
}

/// The listings the pieces call for, in piece order; the first decode
/// failure or ambiguous operand aborts the pass.
pub open spec fn listings_spec(
    segs: Seq<Segment>,
    vram_offset: u64,
    pieces: Seq<PieceV>,
    syms: Seq<(u64, Seq<char>)>,
) -> Result<Seq<ListingV>, DisasmError>
    decreases pieces.len(),
{
    if pieces.len() == 0 {
        Ok(Seq::empty())
    } else {
        let p = pieces[0];
        match p.key {
            PieceKey::Gap { .. } => listings_spec(segs, vram_offset, pieces.drop_first(), syms),
            PieceKey::Seg { index } => {
                if (index as int) < segs.len() && listed(segs[index as int]) {
                    let seg = segs[index as int];
                    match ppc_decode(p.bytes, seg_vram(vram_offset, seg.start)) {
                        None => Err(DisasmError::DecodeFailed),
                        Some(dec) => match listing_spec(dec, syms) {
                            Err(e) => Err(e),
                            Ok(lines) => match listings_spec(
                                segs,
                                vram_offset,
                                pieces.drop_first(),
                                syms,
                            ) {
                                Ok(rest) => Ok(seq![ListingV { index, lines }] + rest),
                                Err(e) => Err(e),
                            },
                        },
                    }
                } else {
                    listings_spec(segs, vram_offset, pieces.drop_first(), syms)
                }
            },
        }
    }
}

pub open spec fn compose_listings(
    done: Seq<ListingV>,
    rest: Result<Seq<ListingV>, DisasmError>,
) -> Result<Seq<ListingV>, DisasmError> {
    match rest {
        Ok(r) => Ok(done + r),
        Err(e) => Err(e),
    }
}

/// Produce the reference listings for a partition's pieces.
pub fn split_listings(m: &Manifest, pieces: &Vec<Piece>, syms: &SymbolTable) -> (r: Result<
    Vec<Listing>,
    DisasmError,
>)
    ensures
        match r {
            Ok(ls) => listings_spec(m.segments@, m.vram_offset, pieces_view(pieces@), syms@)
                == Ok::<Seq<ListingV>, DisasmError>(listings_view(ls@)),
            Err(e) => listings_spec(m.segments@, m.vram_offset, pieces_view(pieces@), syms@)
                == Err::<Seq<ListingV>, DisasmError>(e),
        },
{
    let ghost segs = m.segments@;
    let ghost all = pieces_view(pieces@);
    let mut out: Vec<Listing> = Vec::new();
    let mut k: usize = 0;
    proof {
        assert(all.skip(0) =~= all);
        let init = listings_spec(segs, m.vram_offset, all, syms@);
        if init is Ok {
            assert(Seq::<ListingV>::empty() + init->Ok_0 =~= init->Ok_0);
        }
    }
    while k < pieces.len()
        invariant
            k <= pieces@.len(),
            segs == m.segments@,
            all == pieces_view(pieces@),
            listings_spec(segs, m.vram_offset, all, syms@) == compose_listings(
                listings_view(out@),
                listings_spec(segs, m.vram_offset, all.skip(k as int), syms@),
            ),
        decreases pieces@.len() - k,
    {
        let ghost rem = all.skip(k as int);
        let ghost done = listings_view(out@);
        proof {
            assert(rem[0] == pieces@[k as int]@);
            assert(rem.drop_first() =~= all.skip(k + 1));
        }
        match pieces[k].key {
            PieceKey::Gap { .. } => {},
            PieceKey::Seg { index } => {
                let emit = if index < m.segments.len() {
                    match m.segments[index].format {
                        SegmentFormat::Raw => false,
                        SegmentFormat::Disassemble => true,
                        SegmentFormat::Object => m.segments[index].group.is_none(),
                        SegmentFormat::PassThrough => m.segments[index].group.is_none(),
                    }
                } else {
                    false
                };
                proof {
                    assert(emit == ((index as int) < segs.len() && listed(segs[index as int])));
                }
                if emit {
                    let vram = m.vram_offset.wrapping_add(m.segments[index].start);
                    match disassemble_listing(&pieces[k].bytes, vram, syms) {
                        Ok(lines) => {
                            let item = Listing { index, lines };
                            proof {
                                let rest = listings_spec(
                                    segs,
                                    m.vram_offset,
                                    all.skip(k + 1),
                                    syms@,
                                );
                                assert(listings_spec(segs, m.vram_offset, rem, syms@)
                                    == compose_listings(seq![item@], rest));
                                assert(listings_view(out@.push(item)) =~= done.push(item@));
                                if rest is Ok {
                                    assert(done + (seq![item@] + rest->Ok_0) =~= done.push(item@)
                                        + rest->Ok_0);
                                }
                            }
                            out.push(item);
                        },
                        Err(e) => {
                            proof {
                                assert(listings_spec(segs, m.vram_offset, rem, syms@) == Err::<
                                    Seq<ListingV>,
                                    DisasmError,
                                >(e));
                            }
                            return Err(e);
                        },
                    }
                }
            },
        }
        k += 1;
    }
    proof {
        assert(all.skip(pieces@.len() as int) =~= Seq::<PieceV>::empty());
        assert(listings_view(out@) + Seq::<ListingV>::empty() =~= listings_view(out@));
    }
    Ok(out)
}

} // verus!
