//! The symbol table: address-to-name and name-to-address lookup, loaded
//! from a plain text list of `hex-address name` pairs, one per line.

use vstd::prelude::*;
use crate::hexutil::{parse_hex, parse_hex_spec};
use crate::textutil::str_eq;

verus! {

#[derive(Clone, Copy, PartialEq, Eq, Structural, Debug)]
pub enum SymbolError {
    /// A line of the symbol list does not split into exactly two tokens,
    /// or its address token is not a hexadecimal numeral.
    MalformedLine,
}

/// Address-to-name lookup used for disassembly labels and operand
/// symbolization, with the inverse lookup beside it. Read-only for the
/// duration of one invocation once loaded.
#[derive(Debug, PartialEq, Eq)]
pub struct SymbolTable {
    pub entries: Vec<(u64, String)>,
}

/// Mathematical shape of the table: the entries in load order.
pub open spec fn sym_view(entries: Seq<(u64, String)>) -> Seq<(u64, Seq<char>)> {
    entries.map(|i: int, p: (u64, String)| (p.0, p.1@))
}

impl View for SymbolTable {
    type V = Seq<(u64, Seq<char>)>;

    open spec fn view(&self) -> Seq<(u64, Seq<char>)> {
        sym_view(self.entries@)
    }
}

/// The name an address resolves to. The latest entry for an address wins:
/// entries shadow earlier ones in load order.
pub open spec fn resolve_spec(entries: Seq<(u64, Seq<char>)>, addr: u64) -> Option<Seq<char>>
    decreases entries.len(),
{
    if entries.len() == 0 {
        None
    } else if entries.last().0 == addr {
        Some(entries.last().1)
    } else {
        resolve_spec(entries.drop_last(), addr)
    }
}

/// The address a name resolves to, the latest entry winning likewise.
pub open spec fn addr_of_spec(entries: Seq<(u64, Seq<char>)>, name: Seq<char>) -> Option<u64>
    decreases entries.len(),
{
    if entries.len() == 0 {
        None
    } else if entries.last().1 == name {
        Some(entries.last().0)
    } else {
        addr_of_spec(entries.drop_last(), name)
    }
}

/// Index of the first space in a line, or the line's length if none.
pub open spec fn first_space(s: Seq<char>) -> int
    decreases s.len(),
{
    if s.len() == 0 {
        0
    } else if s[0] == ' ' {
        0
    } else {
        1 + first_space(s.drop_first())
    }
}

pub open spec fn has_space(s: Seq<char>) -> bool {
    exists|i: int| 0 <= i < s.len() && s[i] == ' '
}

/// What one line of the symbol list denotes: its address and name, when
/// the line splits into exactly two tokens at a single space and the first
/// token is a hexadecimal address.
pub open spec fn parse_sym_line_spec(line: Seq<char>) -> Option<(u64, Seq<char>)> {
    let i = first_space(line);
    if i < line.len() && !has_space(line.subrange(i + 1, line.len() as int)) {
        match parse_hex_spec(line.subrange(0, i)) {
            Some(a) => Some((a, line.subrange(i + 1, line.len() as int))),
            None => None,
        }
    } else {
        None
    }
}

/// The table a list of lines loads to, entry order following line order;
/// any malformed line is fatal.
pub open spec fn load_syms_spec(lines: Seq<Seq<char>>) -> Result<
    Seq<(u64, Seq<char>)>,
    SymbolError,
>
    decreases lines.len(),
{
    if lines.len() == 0 {
        Ok(Seq::empty())
    } else {
        match load_syms_spec(lines.drop_last()) {
            Ok(tbl) => match parse_sym_line_spec(lines.last()) {
                Some(e) => Ok(tbl.push(e)),
                None => Err(SymbolError::MalformedLine),
            },
            Err(e) => Err(e),
        }
    }
}

pub open spec fn lines_view(ls: Seq<String>) -> Seq<Seq<char>> {
    ls.map(|i: int, s: String| s@)
}

/// A scan that stopped at `i` with no space seen pins down `first_space`.
proof fn lemma_first_space_at(s: Seq<char>, i: int)
    requires
        0 <= i <= s.len(),
        forall|j: int| 0 <= j < i ==> s[j] != ' ',
        i < s.len() ==> s[i] == ' ',
    ensures
        i < s.len() ==> first_space(s) == i,
        i == s.len() ==> first_space(s) >= s.len(),
    decreases s.len(),
{
    if s.len() == 0 {
    } else if s[0] == ' ' {
    } else {
        let t = s.drop_first();
        assert(forall|j: int| 0 <= j < i - 1 ==> t[j] != ' ');
        lemma_first_space_at(t, if i == 0 { 0 } else { i - 1 });
    }
}

/// Parse one `hex-address name` line.
pub fn parse_sym_line(line: &str) -> (r: Option<(u64, String)>)
    ensures
        match r {
            Some(p) => parse_sym_line_spec(line@) == Some((p.0, p.1@)),
            None => parse_sym_line_spec(line@) is None,
        },
{
    let n = line.unicode_len();
    let mut i: usize = 0;
    while i < n && line.get_char(i) != ' '
        invariant
            0 <= i <= n,
            n == line@.len(),
            forall|j: int| 0 <= j < i ==> line@[j] != ' ',
        decreases n - i,
    {
        i += 1;
    }
    proof {
        lemma_first_space_at(line@, i as int);
    }
    if i == n {
        return None;
    }
    // the rest of the line must hold no further space
    let mut j: usize = i + 1;
    while j < n && line.get_char(j) != ' '
        invariant
            i + 1 <= j <= n,
            n == line@.len(),
            forall|k: int| i + 1 <= k < j ==> line@[k] != ' ',
        decreases n - j,
    {
        j += 1;
    }
    let ghost tail = line@.subrange(i + 1, n as int);
    if j < n {
        proof {
            assert(tail[j - (i + 1)] == ' ');
            assert(has_space(tail));
        }
        return None;
    }
    proof {
        assert(forall|k: int| 0 <= k < tail.len() ==> tail[k] != ' ');
        assert(!has_space(tail));
    }
    let addr_txt = line.substring_char(0, i);
    let addr = match parse_hex(addr_txt) {
        Some(a) => a,
        None => {
            return None;
        },
    };
    let name = line.substring_char(i + 1, n).to_owned();
    Some((addr, name))
}

impl SymbolTable {
    /// The empty table: every address is unknown.
    pub fn new() -> (r: SymbolTable)
        ensures
            r@ =~= Seq::<(u64, Seq<char>)>::empty(),
    {
        SymbolTable { entries: Vec::new() }
    }

    /// Record one address-name pair; later entries shadow earlier ones.
    pub fn insert(&mut self, addr: u64, name: String)
        ensures
            final(self)@ =~= old(self)@.push((addr, name@)),
    {
        self.entries.push((addr, name));
    }

    /// The name an address resolves to, if the table knows it.
    pub fn resolve(&self, addr: u64) -> (r: Option<String>)
        ensures
            match r {
                Some(name) => resolve_spec(self@, addr) == Some(name@),
                None => resolve_spec(self@, addr) is None,
            },
    {
        let mut i: usize = self.entries.len();
        proof {
            assert(self@.take(i as int) =~= self@);
        }
        while i > 0
            invariant
                i <= self.entries@.len(),
                resolve_spec(self@, addr) == resolve_spec(self@.take(i as int), addr),
            decreases i,
        {
            let ghost pre = self@.take(i as int);
            proof {
                assert(pre.last() == self@[i - 1]);
                assert(pre.drop_last() =~= self@.take(i - 1));
            }
            if self.entries[i - 1].0 == addr {
                let name = self.entries[i - 1].1.clone();
                return Some(name);
            }
            i -= 1;
        }
        proof {
            assert(self@.take(0) =~= Seq::<(u64, Seq<char>)>::empty());
        }
        None
    }

    /// The address a name resolves to, if the table knows it.
    pub fn address_of(&self, name: &str) -> (r: Option<u64>)
        ensures
            match r {
                Some(a) => addr_of_spec(self@, name@) == Some(a),
                None => addr_of_spec(self@, name@) is None,
            },
    {
        let mut i: usize = self.entries.len();
        proof {
            assert(self@.take(i as int) =~= self@);
        }
        while i > 0
            invariant
                i <= self.entries@.len(),
                addr_of_spec(self@, name@) == addr_of_spec(self@.take(i as int), name@),
            decreases i,
        {
            let ghost pre = self@.take(i as int);
            proof {
                assert(pre.last() == self@[i - 1]);
                assert(pre.drop_last() =~= self@.take(i - 1));
            }
            if str_eq(self.entries[i - 1].1.as_str(), name) {
                return Some(self.entries[i - 1].0);
            }
            i -= 1;
        }
        proof {
            assert(self@.take(0) =~= Seq::<(u64, Seq<char>)>::empty());
        }
        None
    }

    /// Load a table from the lines of the symbol list. A line that does
    /// not split into exactly two tokens, or whose first token is not a
    /// hexadecimal address, is a fatal load error.
    pub fn from_lines(lines: &Vec<String>) -> (r: Result<SymbolTable, SymbolError>)
        ensures
            match r {
                Ok(t) => load_syms_spec(lines_view(lines@)) == Ok::<
                    Seq<(u64, Seq<char>)>,
                    SymbolError,
                >(t@),
                Err(e) => load_syms_spec(lines_view(lines@)) == Err::<
                    Seq<(u64, Seq<char>)>,
                    SymbolError,
                >(e),
            },
    {
        let ghost lv = lines_view(lines@);
        let mut t = SymbolTable::new();
        let mut i: usize = 0;
        while i < lines.len()
            invariant
                i <= lines@.len(),
                lv == lines_view(lines@),
                load_syms_spec(lv.take(i as int)) == Ok::<Seq<(u64, Seq<char>)>, SymbolError>(t@),
            decreases lines@.len() - i,
        {
            let ghost cur = lv.take(i + 1);
            proof {
                assert(cur.drop_last() =~= lv.take(i as int));
                assert(cur.last() == lv[i as int]);
            }
            match parse_sym_line(lines[i].as_str()) {
                Some(p) => {
                    t.insert(p.0, p.1);
                },
                None => {
                    proof {
                        assert(load_syms_spec(cur) == Err::<Seq<(u64, Seq<char>)>, SymbolError>(
                            SymbolError::MalformedLine,
                        ));
                        lemma_load_prefix_err(lv, i + 1);
                    }
                    return Err(SymbolError::MalformedLine);
                },
            }
            i += 1;
        }
        proof {
            assert(lv.take(lines@.len() as int) =~= lv);
        }
        Ok(t)
    }
}

/// A failure on a prefix of the lines is a failure of the whole list.
proof fn lemma_load_prefix_err(lines: Seq<Seq<char>>, k: int)
    requires
        0 <= k <= lines.len(),
        load_syms_spec(lines.take(k)) is Err,
    ensures
        load_syms_spec(lines) == load_syms_spec(lines.take(k)),
    decreases lines.len() - k,
{
    if k == lines.len() {
        assert(lines.take(k) =~= lines);
    } else {
        let nxt = lines.take(k + 1);
        assert(nxt.drop_last() =~= lines.take(k));
        lemma_load_prefix_err(lines, k + 1);
    }
}

} // verus!
