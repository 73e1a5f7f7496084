//! The disassembler and symbolizer: a byte range at a base virtual address
//! becomes an ordered instruction listing. A known address gets a label
//! line before its instruction; an operand holding one eight-digit
//! hexadecimal address literal has the literal replaced by its symbol name
//! when the table knows the address. More than one such literal in a
//! single operand is an error: the system refuses to guess which to
//! replace.

use vstd::prelude::*;
use vstd::string::StringExecFns;
use capstone::arch::BuildsCapstone;
use capstone::arch::BuildsCapstoneEndian;
use crate::hexutil::{
    hex_digit_value, hex_seq_val, hex_str_spec, is_hex_digit, lemma_hex_seq_val_bound, pow16,
    to_hex,
};
use crate::symbols::{SymbolTable, lines_view, resolve_spec};

verus! {

#[derive(Clone, Copy, PartialEq, Eq, Structural, Debug)]
pub enum DisasmError {
    /// The decode engine could not be configured or refused the bytes.
    DecodeFailed,
    /// The instruction at this address has more than one address literal
    /// in its operand text; substituting one of several candidates would
    /// be a silent guess.
    AmbiguousOperand { addr: u64 },
}

/// Mathematical shape of a decoded instruction sequence: for each
/// instruction its address, mnemonic text and operand text.
pub open spec fn insns_view(s: Seq<(u64, String, String)>) -> Seq<(u64, Seq<char>, Seq<char>)> {
    s.map(|i: int, t: (u64, String, String)| (t.0, t.1@, t.2@))
}

/// What the decode engine yields for a byte range at a base address:
/// a linear, length-prefixed, non-branching decode for the one instruction
/// set and byte order configured for the whole run. A function of the
/// bytes and the address alone; `None` when the engine refuses them.
pub uninterp spec fn ppc_decode(data: Seq<u8>, addr: u64) -> Option<Seq<(u64, Seq<char>, Seq<char>)>>;

/// Relies on capstone::Capstone::disasm_all, on an engine built for
/// 32-bit big-endian PowerPC: the decode of `data` at `addr`, and whether
/// the engine accepts it, depend on `data` and `addr` alone. The engine is
/// configured and used inside this one body so that nothing else can hand
/// a differently configured engine to the decode.
#[verifier::external_body]
fn ppc_disasm(data: &[u8], addr: u64) -> (r: Option<Vec<(u64, String, String)>>)
    ensures
        match r {
            Some(v) => ppc_decode(data@, addr) == Some(insns_view(v@)),
            None => ppc_decode(data@, addr) is None,
        },
{
    let builder = capstone::Capstone::new().ppc().mode(capstone::arch::ppc::ArchMode::Mode32);
    let cs = builder.endian(capstone::Endian::Big).build().ok()?;
    let insns = cs.disasm_all(data, addr).ok()?;
    let text = |s: Option<&str>| s.unwrap_or("").to_string();
    Some(insns.as_ref().iter().map(|i| (i.address(), text(i.mnemonic()), text(i.op_str()))).collect())
}

/// An address literal begins at `i`: the marker `0x` followed by exactly
/// eight hexadecimal digits.
pub open spec fn pattern_at(s: Seq<char>, i: int) -> bool {
    &&& i + 10 <= s.len()
    &&& s[i] == '0'
    &&& s[i + 1] == 'x'
    &&& forall|k: int| i + 2 <= k < i + 10 ==> is_hex_digit(#[trigger] s[k])
}

/// Positions of the address literals in a left-to-right scan that resumes
/// after each match, as a pattern search over the text does.
pub open spec fn match_positions(s: Seq<char>, i: int) -> Seq<int>
    decreases s.len() - i,
{
    if i < 0 || i + 10 > s.len() {
        Seq::empty()
    } else if pattern_at(s, i) {
        seq![i] + match_positions(s, i + 10)
    } else {
        match_positions(s, i + 1)
    }
}

/// Every reported position lies in the text and starts a literal.
proof fn lemma_match_positions_valid(s: Seq<char>, i: int)
    ensures
        forall|j: int|
            0 <= j < match_positions(s, i).len() ==> i <= #[trigger] match_positions(s, i)[j]
                && match_positions(s, i)[j] + 10 <= s.len() && pattern_at(
                s,
                match_positions(s, i)[j],
            ),
    decreases s.len() - i,
{
    if i < 0 || i + 10 > s.len() {
    } else if pattern_at(s, i) {
        let rest = match_positions(s, i + 10);
        assert(match_positions(s, i) == seq![i] + rest);
        lemma_match_positions_valid(s, i + 10);
        assert forall|j: int| 0 <= j < match_positions(s, i).len() implies i
            <= #[trigger] match_positions(s, i)[j] && match_positions(s, i)[j] + 10 <= s.len()
            && pattern_at(s, match_positions(s, i)[j]) by {
            if j == 0 {
                assert(match_positions(s, i)[0] == i);
            } else {
                assert(match_positions(s, i)[j] == match_positions(s, i + 10)[j - 1]);
                assert(i + 10 <= match_positions(s, i + 10)[j - 1] && match_positions(
                    s,
                    i + 10,
                )[j - 1] + 10 <= s.len() && pattern_at(s, match_positions(s, i + 10)[j - 1]));
            }
        }
    } else {
        assert(match_positions(s, i) == match_positions(s, i + 1));
        lemma_match_positions_valid(s, i + 1);
        assert forall|j: int| 0 <= j < match_positions(s, i).len() implies i
            <= #[trigger] match_positions(s, i)[j] && match_positions(s, i)[j] + 10 <= s.len()
            && pattern_at(s, match_positions(s, i)[j]) by {
            assert(match_positions(s, i)[j] == match_positions(s, i + 1)[j]);
            assert(i + 1 <= match_positions(s, i + 1)[j] && match_positions(s, i + 1)[j] + 10
                <= s.len() && pattern_at(s, match_positions(s, i + 1)[j]));
        }
    }
}

/// Does an address literal begin at `i`?
fn pattern_match_at(s: &str, i: usize) -> (r: bool)
    requires
        i + 10 <= s@.len(),
        s@.len() <= usize::MAX,
    ensures
        r == pattern_at(s@, i as int),
{
    if s.get_char(i) != '0' {
        return false;
    }
    if s.get_char(i + 1) != 'x' {
        return false;
    }
    let mut k: usize = i + 2;
    while k < i + 10
        invariant
            i + 2 <= k <= i + 10,
            i + 10 <= s@.len(),
            s@.len() <= usize::MAX,
            forall|t: int| i + 2 <= t < k ==> is_hex_digit(#[trigger] s@[t]),
            s@[i as int] == '0',
            s@[i + 1] == 'x',
        decreases i + 10 - k,
    {
        if hex_digit_value(s.get_char(k)).is_none() {
            return false;
        }
        k += 1;
    }
    true
}

/// All address-literal positions in the operand text, in order.
fn find_matches(s: &str) -> (r: Vec<usize>)
    ensures
        r@.map_values(|x: usize| x as int) == match_positions(s@, 0),
{
    let n = s.unicode_len();
    let mut res: Vec<usize> = Vec::new();
    let mut i: usize = 0;
    while n - i >= 10
        invariant
            i <= n,
            n == s@.len(),
            match_positions(s@, 0) == res@.map_values(|x: usize| x as int) + match_positions(
                s@,
                i as int,
            ),
        decreases n - i,
    {
        let ghost done = res@.map_values(|x: usize| x as int);
        if pattern_match_at(s, i) {
            proof {
                assert(match_positions(s@, i as int) == seq![i as int] + match_positions(
                    s@,
                    i + 10,
                ));
                assert(res@.push(i).map_values(|x: usize| x as int) =~= done.push(i as int));
                assert(done + (seq![i as int] + match_positions(s@, i + 10)) =~= done.push(
                    i as int,
                ) + match_positions(s@, i + 10));
            }
            res.push(i);
            i += 10;
        } else {
            i += 1;
        }
    }
    proof {
        assert(match_positions(s@, i as int) =~= Seq::<int>::empty());
        assert(res@.map_values(|x: usize| x as int) + Seq::<int>::empty() =~= res@.map_values(
            |x: usize| x as int,
        ));
    }
    res
}

/// What symbolizing one operand text yields: the text unchanged when it
/// holds no address literal or an address the table does not know; the
/// text with the one literal replaced by its symbol name when the table
/// knows it; nothing when more than one literal appears.
pub open spec fn symbolize_op_spec(op: Seq<char>, syms: Seq<(u64, Seq<char>)>) -> Option<
    Seq<char>,
> {
    let ms = match_positions(op, 0);
    if ms.len() == 0 {
        Some(op)
    } else if ms.len() >= 2 {
        None
    } else {
        let i = ms[0];
        let v = hex_seq_val(op.subrange(i + 2, i + 10));
        match resolve_spec(syms, v as u64) {
            Some(name) => Some(op.subrange(0, i) + name + op.subrange(i + 10, op.len() as int)),
            None => Some(op),
        }
    }
}

proof fn lemma_pow16_le(a: nat, b: nat)
    requires
        a <= b,
    ensures
        pow16(a) <= pow16(b),
    decreases b,
{
    if a < b {
        lemma_pow16_le(a, (b - 1) as nat);
        assert(pow16(b) == 16 * pow16((b - 1) as nat));
        assert(pow16((b - 1) as nat) >= 1) by {
            lemma_pow16_pos((b - 1) as nat);
        }
    }
}

proof fn lemma_pow16_pos(n: nat)
    ensures
        pow16(n) >= 1,
    decreases n,
{
    if n > 0 {
        lemma_pow16_pos((n - 1) as nat);
    }
}

/// Symbolize one operand text; nothing when the substitution would be
/// ambiguous.
pub fn symbolize_op(op: &str, syms: &SymbolTable) -> (r: Option<String>)
    ensures
        match r {
            Some(t) => symbolize_op_spec(op@, syms@) == Some(t@),
            None => symbolize_op_spec(op@, syms@) is None,
        },
{
    let ms = find_matches(op);
    proof {
        lemma_match_positions_valid(op@, 0);
    }
    if ms.len() == 0 {
        return Some(op.to_owned());
    }
    if ms.len() >= 2 {
        return None;
    }
    let i = ms[0];
    proof {
        assert(ms@.map_values(|x: usize| x as int)[0] == i as int);
        assert(pattern_at(op@, i as int));
    }
    let n = op.unicode_len();
    // the literal's eight digits, as a value
    let ghost digits = op@.subrange(i + 2, i + 10);
    let mut v: u64 = 0;
    let mut k: usize = 0;
    while k < 8
        invariant
            k <= 8,
            i + 10 <= n,
            n == op@.len(),
            pattern_at(op@, i as int),
            digits == op@.subrange(i + 2, i + 10),
            v as int == hex_seq_val(digits.take(k as int)),
            all_prefix_hex(digits, k as int),
        decreases 8 - k,
    {
        let c = op.get_char(i + 2 + k);
        proof {
            assert(digits[k as int] == op@[i + 2 + k]);
            assert(is_hex_digit(digits[k as int]));
            assert(digits.take(k + 1).drop_last() =~= digits.take(k as int));
            lemma_hex_seq_val_bound(digits.take(k as int));
            lemma_pow16_le(k as nat, 7);
            assert(pow16(7) == 0x10000000) by {
                assert(pow16(0) == 1);
                assert(pow16(1) == 16);
                assert(pow16(2) == 0x100);
                assert(pow16(3) == 0x1000);
                assert(pow16(4) == 0x10000);
                assert(pow16(5) == 0x100000);
                assert(pow16(6) == 0x1000000);
                assert(pow16(7) == 0x10000000);
            }
        }
        let d = match hex_digit_value(c) {
            Some(d) => d,
            None => {
                // unreachable: the pattern guarantees a hex digit
                proof {
                    assert(false);
                }
                return None;
            },
        };
        v = v * 16 + d as u64;
        k += 1;
    }
    proof {
        assert(digits.take(8) =~= digits);
    }
    let resolved = syms.resolve(v);
    match resolved {
        Some(name) => {
            let mut out = op.substring_char(0, i).to_owned();
            out.append(name.as_str());
            out.append(op.substring_char(i + 10, n));
            proof {
                assert(out@ == op@.subrange(0, i as int) + name@ + op@.subrange(
                    i + 10,
                    n as int,
                ));
            }
            Some(out)
        },
        None => Some(op.to_owned()),
    }
}

/// The digits of a prefix are all hexadecimal.
spec fn all_prefix_hex(digits: Seq<char>, k: int) -> bool {
    forall|t: int| 0 <= t < k ==> is_hex_digit(#[trigger] digits[t])
}

/// A label line: the symbol name followed by a colon.
pub open spec fn label_spec(name: Seq<char>) -> Seq<char> {
    name + seq![':']
}

/// An instruction line: the address in hexadecimal with its marker, a
/// colon, the mnemonic, and — only when there is any — the operand text,
/// as the decode engine's own rendering has it.
pub open spec fn line_spec(addr: u64, mnem: Seq<char>, ops: Seq<char>) -> Seq<char> {
    let head = seq!['0', 'x'] + hex_str_spec(addr as int) + seq![':', ' '] + mnem;
    if ops.len() == 0 {
        head
    } else {
        head + seq![' '] + ops
    }
}

/// Render one instruction line.
fn build_line(addr: u64, mnem: &String, ops: &String) -> (r: String)
    ensures
        r@ == line_spec(addr, mnem@, ops@),
{
    proof {
        reveal_strlit("0x");
        reveal_strlit(": ");
        reveal_strlit(" ");
    }
    let mut s = "0x".to_owned();
    let h = to_hex(addr);
    s.append(h.as_str());
    s.append(": ");
    s.append(mnem.as_str());
    if !ops.as_str().is_empty() {
        s.append(" ");
        s.append(ops.as_str());
    }
    proof {
        assert("0x"@ =~= seq!['0', 'x']);
        assert(": "@ =~= seq![':', ' ']);
        assert(" "@ =~= seq![' ']);
    }
    s
}

/// Render one label line.
fn build_label(name: &String) -> (r: String)
    ensures
        r@ == label_spec(name@),
{
    proof {
        reveal_strlit(":");
    }
    let mut s = name.clone();
    s.append(":");
    proof {
        assert(":"@ =~= seq![':']);
    }
    s
}

/// The annotated listing of a decoded instruction sequence: for each
/// instruction, an optional label line when its own address resolves, then
/// its line with the operand symbolized; address-ascending in decode
/// order. The first ambiguous operand aborts the listing.
pub open spec fn listing_spec(
    dec: Seq<(u64, Seq<char>, Seq<char>)>,
    syms: Seq<(u64, Seq<char>)>,
) -> Result<Seq<Seq<char>>, DisasmError>
    decreases dec.len(),
{
    if dec.len() == 0 {
        Ok(Seq::empty())
    } else {
        let ins = dec[0];
        match symbolize_op_spec(ins.2, syms) {
            None => Err(DisasmError::AmbiguousOperand { addr: ins.0 }),
            Some(ops) => {
                let lines = match resolve_spec(syms, ins.0) {
                    Some(nm) => seq![label_spec(nm), line_spec(ins.0, ins.1, ops)],
                    None => seq![line_spec(ins.0, ins.1, ops)],
                };
                match listing_spec(dec.drop_first(), syms) {
                    Ok(rest) => Ok(lines + rest),
                    Err(e) => Err(e),
                }
            },
        }
    }
}

pub open spec fn compose_listing(
    done: Seq<Seq<char>>,
    rest: Result<Seq<Seq<char>>, DisasmError>,
) -> Result<Seq<Seq<char>>, DisasmError> {
    match rest {
        Ok(r) => Ok(done + r),
        Err(e) => Err(e),
    }
}

/// Annotate a decoded instruction sequence with the symbol table.
pub fn symbolized_listing(insns: &Vec<(u64, String, String)>, syms: &SymbolTable) -> (r: Result<
    Vec<String>,
    DisasmError,
>)
    ensures
        match r {
            Ok(lines) => listing_spec(insns_view(insns@), syms@) == Ok::<
                Seq<Seq<char>>,
                DisasmError,
            >(lines_view(lines@)),
            Err(e) => listing_spec(insns_view(insns@), syms@) == Err::<
                Seq<Seq<char>>,
                DisasmError,
            >(e),
        },
{
    let ghost all = insns_view(insns@);
    let mut out: Vec<String> = Vec::new();
    let mut k: usize = 0;
    proof {
        assert(all.skip(0) =~= all);
        let init = listing_spec(all, syms@);
        if init is Ok {
            assert(Seq::<Seq<char>>::empty() + init->Ok_0 =~= init->Ok_0);
        }
    }
    while k < insns.len()
        invariant
            k <= insns@.len(),
            all == insns_view(insns@),
            listing_spec(all, syms@) == compose_listing(
                lines_view(out@),
                listing_spec(all.skip(k as int), syms@),
            ),
        decreases insns@.len() - k,
    {
        let ghost rem = all.skip(k as int);
        let ghost done = lines_view(out@);
        proof {
            assert(rem[0] == all[k as int]);
            assert(rem.drop_first() =~= all.skip(k + 1));
        }
        let addr = insns[k].0;
        let ops = match symbolize_op(insns[k].2.as_str(), syms) {
            Some(t) => t,
            None => {
                return Err(DisasmError::AmbiguousOperand { addr });
            },
        };
        let line = build_line(addr, &insns[k].1, &ops);
        match syms.resolve(addr) {
            Some(nm) => {
                let lbl = build_label(&nm);
                proof {
                    let lines2 = seq![label_spec(nm@), line_spec(addr, insns@[k as int].1@, ops@)];
                    let rest = listing_spec(all.skip(k + 1), syms@);
                    assert(listing_spec(rem, syms@) == compose_listing(lines2, rest));
                    assert(lines_view(out@.push(lbl).push(line)) =~= done + lines2);
                    if rest is Ok {
                        assert(done + (lines2 + rest->Ok_0) =~= (done + lines2) + rest->Ok_0);
                    }
                }
                out.push(lbl);
                out.push(line);
            },
            None => {
                proof {
                    let lines1 = seq![line_spec(addr, insns@[k as int].1@, ops@)];
                    let rest = listing_spec(all.skip(k + 1), syms@);
                    assert(listing_spec(rem, syms@) == compose_listing(lines1, rest));
                    assert(lines_view(out@.push(line)) =~= done + lines1);
                    if rest is Ok {
                        assert(done + (lines1 + rest->Ok_0) =~= (done + lines1) + rest->Ok_0);
                    }
                }
                out.push(line);
            },
        }
        k += 1;
    }
    proof {
        assert(all.skip(insns@.len() as int) =~= Seq::<(u64, Seq<char>, Seq<char>)>::empty());
        assert(lines_view(out@) + Seq::<Seq<char>>::empty() =~= lines_view(out@));
    }
    Ok(out)
}

/// Disassemble a byte range at a base virtual address and annotate it.
pub fn disassemble_listing(data: &Vec<u8>, addr: u64, syms: &SymbolTable) -> (r: Result<
    Vec<String>,
    DisasmError,
>)
    ensures
        match ppc_decode(data@, addr) {
            None => r == Err::<Vec<String>, DisasmError>(DisasmError::DecodeFailed),
            Some(dec) => match r {
                Ok(lines) => listing_spec(dec, syms@) == Ok::<Seq<Seq<char>>, DisasmError>(
                    lines_view(lines@),
                ),
                Err(e) => listing_spec(dec, syms@) == Err::<Seq<Seq<char>>, DisasmError>(e),
            },
        },
{
    match ppc_disasm(data.as_slice(), addr) {
        None => Err(DisasmError::DecodeFailed),
        Some(v) => symbolized_listing(&v, syms),
    }
}

/// Symbolization determinism: with a fixed symbol table, disassembling
/// the same byte range at the same base address twice yields identical
/// listings — the decode and the annotated listing are functions of the
/// bytes, the base address and the table alone.
pub proof fn lemma_symbolization_deterministic(
    data1: Seq<u8>,
    data2: Seq<u8>,
    addr1: u64,
    addr2: u64,
    syms1: Seq<(u64, Seq<char>)>,
    syms2: Seq<(u64, Seq<char>)>,
)
    requires
        data1 == data2,
        addr1 == addr2,
        syms1 == syms2,
    ensures
        ppc_decode(data1, addr1) == ppc_decode(data2, addr2),
        ppc_decode(data1, addr1) matches Some(dec) ==> listing_spec(dec, syms1) == listing_spec(
            dec,
            syms2,
        ),
{
}

} // verus!
