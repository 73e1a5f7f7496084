//! The object-file function extractor: a minimal reader of a relocatable
//! object container. It parses the fixed header, finds the code section by
//! its reserved name, takes the first external (indirect-named) symbol
//! belonging to that section as the section's primary function name, and
//! concatenates recovered function blobs with the link format's 8-byte
//! code-alignment convention.
//!
//! The first-match rule is a deliberate simplification, valid when each
//! compiled unit holds exactly one externally visible function per code
//! section; multi-function objects would need full symbol enumeration with
//! offset-based slicing.

use vstd::prelude::*;
use vstd::slice::{slice_subrange, slice_to_vec};

verus! {

/// Format tag every accepted object must begin with.
pub const OBJ_MAGIC: u16 = 0x01DF;

#[derive(Clone, Copy, PartialEq, Eq, Structural, Debug)]
pub enum ObjError {
    /// The bytes are not an object of the expected container format, the
    /// record the reader needs lies beyond the file's end, or no code
    /// section or qualifying symbol exists.
    UnsupportedObjectFormat,
    /// The running output offset was not 8-byte aligned after padding: a
    /// previous blob had a length that is not a multiple of four.
    AlignmentInvariant,
}

/// Big-endian 16-bit field.
pub open spec fn be16(b: Seq<u8>, off: int) -> u16 {
    (b[off] as int * 256 + b[off + 1] as int) as u16
}

/// Big-endian 32-bit field.
pub open spec fn be32(b: Seq<u8>, off: int) -> u32 {
    (b[off] as int * 0x1000000 + b[off + 1] as int * 0x10000 + b[off + 2] as int * 0x100 + b[off
        + 3] as int) as u32
}

fn read_be16(obj: &Vec<u8>, off: usize) -> (r: u16)
    requires
        off + 2 <= obj@.len(),
        obj@.len() <= usize::MAX,
    ensures
        r == be16(obj@, off as int),
{
    (obj[off] as u16) * 256 + (obj[off + 1] as u16)
}

fn read_be32(obj: &Vec<u8>, off: usize) -> (r: u32)
    requires
        off + 4 <= obj@.len(),
        obj@.len() <= usize::MAX,
    ensures
        r == be32(obj@, off as int),
{
    (obj[off] as u32) * 0x1000000 + (obj[off + 1] as u32) * 0x10000 + (obj[off + 2] as u32) * 0x100
        + (obj[off + 3] as u32)
}

/// The fixed header: format tag, section count, byte offset of the symbol
/// table, symbol count, and the optional header's size, which shifts where
/// the section records begin. The string table sits immediately after the
/// symbol table.
#[derive(Clone, Copy, PartialEq, Eq, Structural, Debug)]
pub struct ObjHeader {
    pub n_sections: u16,
    pub sym_offset: u32,
    pub n_syms: u32,
    pub opt_size: u16,
}

pub open spec fn parse_header_spec(obj: Seq<u8>) -> Result<ObjHeader, ObjError> {
    if obj.len() < 20 {
        Err(ObjError::UnsupportedObjectFormat)
    } else if be16(obj, 0) != OBJ_MAGIC {
        Err(ObjError::UnsupportedObjectFormat)
    } else {
        Ok(
            ObjHeader {
                n_sections: be16(obj, 2),
                sym_offset: be32(obj, 8),
                n_syms: be32(obj, 12),
                opt_size: be16(obj, 16),
            },
        )
    }
}

/// Read and check the fixed header; a wrong format tag rejects the file.
pub fn parse_object_header(obj: &Vec<u8>) -> (r: Result<ObjHeader, ObjError>)
    ensures
        r == parse_header_spec(obj@),
{
    let len: usize = obj.len();
    if len < 20 {
        return Err(ObjError::UnsupportedObjectFormat);
    }
    let magic = read_be16(obj, 0);
    if magic != OBJ_MAGIC {
        return Err(ObjError::UnsupportedObjectFormat);
    }
    Ok(
        ObjHeader {
            n_sections: read_be16(obj, 2),
            sym_offset: read_be32(obj, 8),
            n_syms: read_be32(obj, 12),
            opt_size: read_be16(obj, 16),
        },
    )
}

/// The bytes before the first NUL.
pub open spec fn trim_nul(name: Seq<u8>) -> Seq<u8>
    decreases name.len(),
{
    if name.len() == 0 {
        Seq::empty()
    } else if name[0] == 0 {
        Seq::empty()
    } else {
        seq![name[0]] + trim_nul(name.drop_first())
    }
}

/// A scan that saw no NUL before `k`, and one at `k` unless the text
/// ends there, pins down the trimmed prefix.
proof fn lemma_trim_nul_at(s: Seq<u8>, k: int)
    requires
        0 <= k <= s.len(),
        forall|j: int| 0 <= j < k ==> s[j] != 0,
        k < s.len() ==> s[k] == 0,
    ensures
        trim_nul(s) == s.subrange(0, k),
    decreases s.len(),
{
    if s.len() == 0 {
        assert(s.subrange(0, 0) =~= Seq::<u8>::empty());
    } else if s[0] == 0 {
        assert(k == 0);
        assert(s.subrange(0, 0) =~= Seq::<u8>::empty());
    } else {
        let t = s.drop_first();
        assert(k >= 1);
        assert(forall|j: int| 0 <= j < k - 1 ==> t[j] != 0);
        lemma_trim_nul_at(t, k - 1);
        assert(seq![s[0]] + t.subrange(0, k - 1) =~= s.subrange(0, k));
    }
}

/// The reserved name that identifies the executable-code section.
pub open spec fn code_section_name() -> Seq<u8> {
    seq![46u8, 116u8, 101u8, 120u8, 116u8]
}

/// Does the 8-byte inline section name at `off`, NUL-padding trimmed,
/// read `.text`?
fn section_name_is_code(obj: &Vec<u8>, off: usize) -> (r: bool)
    requires
        off + 8 <= obj@.len(),
        obj@.len() <= usize::MAX,
    ensures
        r == (trim_nul(obj@.subrange(off as int, off + 8)) == code_section_name()),
{
    let ghost name = obj@.subrange(off as int, off + 8);
    let mut k: usize = 0;
    while k < 8 && obj[off + k] != 0
        invariant
            k <= 8,
            off + 8 <= obj@.len(),
            obj@.len() <= usize::MAX,
            forall|j: int| 0 <= j < k ==> name[j] != 0,
            name == obj@.subrange(off as int, off + 8),
        decreases 8 - k,
    {
        k += 1;
    }
    proof {
        lemma_trim_nul_at(name, k as int);
    }
    if k != 5 {
        proof {
            assert(trim_nul(name).len() == k);
        }
        return false;
    }
    let ghost trimmed = name.subrange(0, 5);
    let r = obj[off] == 46 && obj[off + 1] == 116 && obj[off + 2] == 101 && obj[off + 3] == 120
        && obj[off + 4] == 116;
    proof {
        if r {
            assert(trimmed =~= code_section_name());
        } else {
            assert(trimmed != code_section_name());
        }
    }
    r
}

/// Byte offset of the `i`-th (0-based) section record: records follow the
/// fixed header and the optional header, 40 bytes each.
pub open spec fn section_rec_off(opt_size: u16, i: int) -> int {
    20 + opt_size + 40 * i
}

/// The 1-based index of the first section whose inline name reads
/// `.text`; a truncated record or the absence of a code section rejects
/// the object.
pub open spec fn find_code_section_from(obj: Seq<u8>, hdr: ObjHeader, i: int) -> Result<
    u16,
    ObjError,
>
    decreases hdr.n_sections - i,
{
    if i < 0 || i >= hdr.n_sections {
        Err(ObjError::UnsupportedObjectFormat)
    } else if section_rec_off(hdr.opt_size, i) + 40 > obj.len() {
        Err(ObjError::UnsupportedObjectFormat)
    } else if trim_nul(
        obj.subrange(section_rec_off(hdr.opt_size, i), section_rec_off(hdr.opt_size, i) + 8),
    ) == code_section_name() {
        Ok((i + 1) as u16)
    } else {
        find_code_section_from(obj, hdr, i + 1)
    }
}

/// Find the code section by its reserved name, 1-based.
pub fn find_code_section(obj: &Vec<u8>, hdr: &ObjHeader) -> (r: Result<u16, ObjError>)
    ensures
        r == find_code_section_from(obj@, *hdr, 0),
{
    let n: usize = hdr.n_sections as usize;
    let len64: u64 = obj.len() as u64;
    let mut i: usize = 0;
    while i < n
        invariant
            i <= n,
            n == hdr.n_sections as usize,
            len64 == obj@.len() as u64,
            obj@.len() <= usize::MAX,
            find_code_section_from(obj@, *hdr, 0) == find_code_section_from(obj@, *hdr, i as int),
        decreases n - i,
    {
        let off64: u64 = 20 + (hdr.opt_size as u64) + 40 * (i as u64);
        if off64 + 40 > len64 {
            return Err(ObjError::UnsupportedObjectFormat);
        }
        let off = off64 as usize;
        if section_name_is_code(obj, off) {
            return Ok((i as u16) + 1);
        }
        i += 1;
    }
    Err(ObjError::UnsupportedObjectFormat)
}

/// Byte offset of the `j`-th symbol record: fixed 18-byte entries.
pub open spec fn sym_rec_off(hdr: ObjHeader, j: int) -> int {
    hdr.sym_offset + 18 * j
}

/// The string table sits immediately after the symbol table.
pub open spec fn strtab_off(hdr: ObjHeader) -> int {
    hdr.sym_offset + 18 * hdr.n_syms
}

/// The NUL-terminated byte string at `p`.
pub open spec fn cstr_at(obj: Seq<u8>, p: int) -> Seq<u8> {
    trim_nul(obj.subrange(p, obj.len() as int))
}

/// The name of the first qualifying symbol from `j` on: one whose name is
/// indirect (the leading 4 bytes of its name field are zero, the next 4 an
/// offset into the string table) and whose 1-based section index is the
/// code section's. Inline-named symbols never qualify; in particular the
/// one naming the section itself is excluded. No qualifying symbol, or a
/// truncated record, rejects the object.
pub open spec fn find_code_symbol_from(obj: Seq<u8>, hdr: ObjHeader, code_idx: u16, j: int) -> Result<
    Seq<u8>,
    ObjError,
>
    decreases hdr.n_syms - j,
{
    if j < 0 || j >= hdr.n_syms {
        Err(ObjError::UnsupportedObjectFormat)
    } else if sym_rec_off(hdr, j) + 18 > obj.len() {
        Err(ObjError::UnsupportedObjectFormat)
    } else if be32(obj, sym_rec_off(hdr, j)) == 0 && be16(obj, sym_rec_off(hdr, j) + 12)
        == code_idx {
        let p = strtab_off(hdr) + be32(obj, sym_rec_off(hdr, j) + 4);
        if p > obj.len() {
            Err(ObjError::UnsupportedObjectFormat)
        } else {
            Ok(cstr_at(obj, p))
        }
    } else {
        find_code_symbol_from(obj, hdr, code_idx, j + 1)
    }
}

/// Read the NUL-terminated byte string at `p`.
fn read_cstr(obj: &Vec<u8>, p: usize) -> (r: Vec<u8>)
    requires
        p <= obj@.len(),
    ensures
        r@ == cstr_at(obj@, p as int),
{
    let n = obj.len();
    let mut e: usize = p;
    while e < n && obj[e] != 0
        invariant
            p <= e <= n,
            n == obj@.len(),
            forall|j: int| p <= j < e ==> obj@[j] != 0,
        decreases n - e,
    {
        e += 1;
    }
    let ghost tail = obj@.subrange(p as int, n as int);
    proof {
        assert(forall|j: int| 0 <= j < e - p ==> tail[j] != 0);
        lemma_trim_nul_at(tail, e - p);
        assert(tail.subrange(0, e - p) =~= obj@.subrange(p as int, e as int));
    }
    slice_to_vec(slice_subrange(obj.as_slice(), p, e))
}

/// Scan the symbol table linearly for the code section's primary
/// function name.
pub fn find_code_symbol(obj: &Vec<u8>, hdr: &ObjHeader, code_idx: u16) -> (r: Result<
    Vec<u8>,
    ObjError,
>)
    ensures
        match r {
            Ok(name) => find_code_symbol_from(obj@, *hdr, code_idx, 0) == Ok::<Seq<u8>, ObjError>(
                name@,
            ),
            Err(e) => find_code_symbol_from(obj@, *hdr, code_idx, 0) == Err::<Seq<u8>, ObjError>(e),
        },
{
    let n64: u64 = hdr.n_syms as u64;
    let len64: u64 = obj.len() as u64;
    let mut j: u64 = 0;
    while j < n64
        invariant
            j <= n64,
            n64 == hdr.n_syms as u64,
            len64 == obj@.len() as u64,
            obj@.len() <= usize::MAX,
            find_code_symbol_from(obj@, *hdr, code_idx, 0) == find_code_symbol_from(
                obj@,
                *hdr,
                code_idx,
                j as int,
            ),
        decreases n64 - j,
    {
        let off64: u64 = (hdr.sym_offset as u64) + 18 * j;
        if off64 + 18 > len64 {
            return Err(ObjError::UnsupportedObjectFormat);
        }
        let off = off64 as usize;
        if read_be32(obj, off) == 0 && read_be16(obj, off + 12) == code_idx {
            let p64: u64 = (hdr.sym_offset as u64) + 18 * n64 + (read_be32(obj, off + 4) as u64);
            if p64 > len64 {
                return Err(ObjError::UnsupportedObjectFormat);
            }
            let name = read_cstr(obj, p64 as usize);
            return Ok(name);
        }
        j += 1;
    }
    Err(ObjError::UnsupportedObjectFormat)
}

/// The code section's primary function name, from header to string table.
pub open spec fn primary_code_symbol_spec(obj: Seq<u8>) -> Result<Seq<u8>, ObjError> {
    match parse_header_spec(obj) {
        Err(e) => Err(e),
        Ok(hdr) => match find_code_section_from(obj, hdr, 0) {
            Err(e) => Err(e),
            Ok(ci) => find_code_symbol_from(obj, hdr, ci, 0),
        },
    }
}

/// Recover the primary function name of an object's code section.
pub fn primary_code_symbol(obj: &Vec<u8>) -> (r: Result<Vec<u8>, ObjError>)
    ensures
        match r {
            Ok(name) => primary_code_symbol_spec(obj@) == Ok::<Seq<u8>, ObjError>(name@),
            Err(e) => primary_code_symbol_spec(obj@) == Err::<Seq<u8>, ObjError>(e),
        },
{
    let hdr = match parse_object_header(obj) {
        Ok(h) => h,
        Err(e) => {
            return Err(e);
        },
    };
    let ci = match find_code_section(obj, &hdr) {
        Ok(c) => c,
        Err(e) => {
            return Err(e);
        },
    };
    find_code_symbol(obj, &hdr, ci)
}

/// What concatenating function blobs yields from blob `i` at running
/// output offset `off`: 4 zero bytes of padding are inserted before a blob
/// when the offset is 4 modulo 8; after padding the offset must be 0
/// modulo 8, anything else being a fatal alignment failure.
pub open spec fn aligned_concat_from(blobs: Seq<Seq<u8>>, i: int, off: int) -> Result<
    Seq<u8>,
    ObjError,
>
    decreases blobs.len() - i,
{
    if i < 0 || i >= blobs.len() {
        Ok(Seq::empty())
    } else {
        let pad: Seq<u8> = if off % 8 == 4 {
            seq![0u8, 0u8, 0u8, 0u8]
        } else {
            Seq::empty()
        };
        let off2 = off + pad.len();
        if off2 % 8 != 0 {
            Err(ObjError::AlignmentInvariant)
        } else {
            match aligned_concat_from(blobs, i + 1, off2 + blobs[i].len()) {
                Ok(rest) => Ok(pad + blobs[i] + rest),
                Err(e) => Err(e),
            }
        }
    }
}

pub open spec fn blobs_view(bs: Seq<Vec<u8>>) -> Seq<Seq<u8>> {
    bs.map(|i: int, v: Vec<u8>| v@)
}

pub open spec fn compose_blob(done: Seq<u8>, rest: Result<Seq<u8>, ObjError>) -> Result<
    Seq<u8>,
    ObjError,
> {
    match rest {
        Ok(r) => Ok(done + r),
        Err(e) => Err(e),
    }
}

/// Concatenate recovered function blobs in section order with the code
/// alignment convention.
pub fn concat_functions(blobs: &Vec<Vec<u8>>) -> (r: Result<Vec<u8>, ObjError>)
    ensures
        match r {
            Ok(out) => aligned_concat_from(blobs_view(blobs@), 0, 0) == Ok::<Seq<u8>, ObjError>(
                out@,
            ),
            Err(e) => aligned_concat_from(blobs_view(blobs@), 0, 0) == Err::<Seq<u8>, ObjError>(e),
        },
{
    let ghost all = blobs_view(blobs@);
    let mut out: Vec<u8> = Vec::new();
    let mut i: usize = 0;
    proof {
        let init = aligned_concat_from(all, 0, 0);
        if init is Ok {
            assert(Seq::<u8>::empty() + init->Ok_0 =~= init->Ok_0);
        }
    }
    while i < blobs.len()
        invariant
            i <= blobs@.len(),
            all == blobs_view(blobs@),
            aligned_concat_from(all, 0, 0) == compose_blob(
                out@,
                aligned_concat_from(all, i as int, out@.len() as int),
            ),
        decreases blobs@.len() - i,
    {
        let ghost off = out@.len() as int;
        let ghost here = aligned_concat_from(all, i as int, off);
        let ghost done = out@;
        let r = out.len() % 8;
        let ghost pad: Seq<u8> = if off % 8 == 4 {
            seq![0u8, 0u8, 0u8, 0u8]
        } else {
            Seq::empty()
        };
        if r == 4 {
            out.push(0);
            out.push(0);
            out.push(0);
            out.push(0);
            proof {
                assert(out@ =~= done + pad);
            }
        } else {
            proof {
                assert(out@ =~= done + pad);
            }
        }
        let r2 = out.len() % 8;
        if r2 != 0 {
            proof {
                assert(here == Err::<Seq<u8>, ObjError>(ObjError::AlignmentInvariant));
            }
            return Err(ObjError::AlignmentInvariant);
        }
        let ghost mid = out@;
        out.extend_from_slice(blobs[i].as_slice());
        proof {
            assert(out@ == mid + all[i as int]);
            let rest = aligned_concat_from(all, i + 1, out@.len() as int);
            assert(here == compose_blob(pad + all[i as int], rest));
            if rest is Ok {
                assert(done + ((pad + all[i as int]) + rest->Ok_0) =~= out@ + rest->Ok_0);
            }
        }
        i += 1;
    }
    proof {
        assert(aligned_concat_from(all, i as int, out@.len() as int) == Ok::<Seq<u8>, ObjError>(
            Seq::empty(),
        ));
        assert(out@ + Seq::<u8>::empty() =~= out@);
    }
    Ok(out)
}

/// Total byte length of the blobs.
pub open spec fn sum_len(blobs: Seq<Seq<u8>>) -> int
    decreases blobs.len(),
{
    if blobs.len() == 0 {
        0
    } else {
        blobs[0].len() + sum_len(blobs.drop_first())
    }
}

/// How many 4-byte pads the concatenation inserts from blob `i` at
/// running offset `off`: one before each blob met at an offset of 4
/// modulo 8.
pub open spec fn pad_count(blobs: Seq<Seq<u8>>, i: int, off: int) -> int
    decreases blobs.len() - i,
{
    if i < 0 || i >= blobs.len() {
        0
    } else {
        let pad: int = if off % 8 == 4 {
            1
        } else {
            0
        };
        pad + pad_count(blobs, i + 1, off + 4 * pad + blobs[i].len())
    }
}

/// Alignment: when every function blob's length is a multiple of four,
/// concatenation always succeeds, its output length is the sum of the
/// input lengths plus 0 or 4 extra bytes per function boundary, and the
/// final offset is a multiple of four.
pub proof fn lemma_alignment_from(blobs: Seq<Seq<u8>>, i: int, off: int)
    requires
        0 <= i <= blobs.len(),
        off % 4 == 0,
        forall|j: int| 0 <= j < blobs.len() ==> (#[trigger] blobs[j]).len() % 4 == 0,
    ensures
        aligned_concat_from(blobs, i, off) is Ok,
        0 <= pad_count(blobs, i, off) <= blobs.len() - i,
        aligned_concat_from(blobs, i, off)->Ok_0.len() == sum_len(blobs.skip(i)) + 4 * pad_count(
            blobs,
            i,
            off,
        ),
        aligned_concat_from(blobs, i, off)->Ok_0.len() % 4 == 0,
    decreases blobs.len() - i,
{
    if i >= blobs.len() {
        assert(blobs.skip(i) =~= Seq::<Seq<u8>>::empty());
        assert(aligned_concat_from(blobs, i, off)->Ok_0.len() == sum_len(blobs.skip(i)) + 4 * 0);
    } else {
        let pad: Seq<u8> = if off % 8 == 4 {
            seq![0u8, 0u8, 0u8, 0u8]
        } else {
            Seq::empty()
        };
        let off2 = off + pad.len();
        assert(off % 8 == 0 || off % 8 == 4) by (nonlinear_arith)
            requires
                off % 4 == 0,
        ;
        assert(off2 % 8 == 0) by (nonlinear_arith)
            requires
                off % 8 == 0 || off % 8 == 4,
                off2 == off + (if off % 8 == 4 { 4int } else { 0int }),
        ;
        assert(off2 % 4 == 0) by (nonlinear_arith)
            requires
                off2 % 8 == 0,
        ;
        assert((off2 + blobs[i].len()) % 4 == 0) by (nonlinear_arith)
            requires
                off2 % 4 == 0,
                blobs[i].len() % 4 == 0,
        ;
        lemma_alignment_from(blobs, i + 1, off2 + blobs[i].len());
        let rest = aligned_concat_from(blobs, i + 1, off2 + blobs[i].len());
        assert(blobs.skip(i).drop_first() =~= blobs.skip(i + 1));
        assert(blobs.skip(i)[0] == blobs[i]);
        assert(sum_len(blobs.skip(i)) == blobs[i].len() + sum_len(blobs.skip(i + 1)));
        assert(pad_count(blobs, i, off) == (if off % 8 == 4 {
            1int
        } else {
            0int
        }) + pad_count(blobs, i + 1, off2 + blobs[i].len()));
        assert((pad.len() + blobs[i].len() + rest->Ok_0.len()) % 4 == 0) by (nonlinear_arith)
            requires
                pad.len() % 4 == 0,
                blobs[i].len() % 4 == 0,
                rest->Ok_0.len() % 4 == 0,
        ;
    }
}

/// Alignment of the whole concatenation, from the first blob at offset
/// zero.
pub proof fn lemma_extractor_alignment(blobs: Seq<Seq<u8>>)
    requires
        forall|j: int| 0 <= j < blobs.len() ==> (#[trigger] blobs[j]).len() % 4 == 0,
    ensures
        aligned_concat_from(blobs, 0, 0) is Ok,
        0 <= pad_count(blobs, 0, 0) <= blobs.len(),
        aligned_concat_from(blobs, 0, 0)->Ok_0.len() == sum_len(blobs) + 4 * pad_count(
            blobs,
            0,
            0,
        ),
        aligned_concat_from(blobs, 0, 0)->Ok_0.len() % 4 == 0,
{
    lemma_alignment_from(blobs, 0, 0);
    assert(blobs.skip(0) =~= blobs);
}

} // verus!
