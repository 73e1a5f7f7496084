//! Hexadecimal numerals: parsing a hex address and rendering a value as
//! lower-case hex text, with exact specifications of both directions.

use vstd::prelude::*;
use vstd::string::StringExecFns;

verus! {

/// True of the characters that may appear in a hexadecimal numeral.
pub open spec fn is_hex_digit(c: char) -> bool {
    (('0' as int) <= c as int && c as int <= ('9' as int)) || (('a' as int) <= c as int && c as int
        <= ('f' as int)) || (('A' as int) <= c as int && c as int <= ('F' as int))
}

/// Numeric value of a hexadecimal digit; 0 for any other character.
pub open spec fn hex_digit_val(c: char) -> int {
    if ('0' as int) <= c as int && c as int <= ('9' as int) {
        c as int - ('0' as int)
    } else if ('a' as int) <= c as int && c as int <= ('f' as int) {
        c as int - ('a' as int) + 10
    } else if ('A' as int) <= c as int && c as int <= ('F' as int) {
        c as int - ('A' as int) + 10
    } else {
        0
    }
}

/// Value of a big-endian sequence of hexadecimal digits.
pub open spec fn hex_seq_val(s: Seq<char>) -> int
    decreases s.len(),
{
    if s.len() == 0 {
        0
    } else {
        hex_seq_val(s.drop_last()) * 16 + hex_digit_val(s.last())
    }
}

pub open spec fn all_hex_digits(s: Seq<char>) -> bool {
    forall|i: int| 0 <= i < s.len() ==> is_hex_digit(#[trigger] s[i])
}

/// A numeral may carry the usual `0x` marker in front of its digits.
pub open spec fn strip_hex_marker(s: Seq<char>) -> Seq<char> {
    if s.len() >= 2 && s[0] == '0' && s[1] == 'x' {
        s.subrange(2, s.len() as int)
    } else {
        s
    }
}

/// What parsing a hexadecimal address yields: the digits' value when the
/// text after an optional `0x` marker is a nonempty run of hex digits whose
/// value fits in 64 bits, and nothing otherwise.
pub open spec fn parse_hex_spec(s: Seq<char>) -> Option<u64> {
    let t = strip_hex_marker(s);
    if t.len() > 0 && all_hex_digits(t) && hex_seq_val(t) <= u64::MAX {
        Some(hex_seq_val(t) as u64)
    } else {
        None
    }
}

pub proof fn lemma_hex_seq_val_nonneg(s: Seq<char>)
    ensures
        hex_seq_val(s) >= 0,
    decreases s.len(),
{
    if s.len() > 0 {
        lemma_hex_seq_val_nonneg(s.drop_last());
    }
}

/// The value of a numeral is no less than the value of any of its prefixes.
pub proof fn lemma_hex_prefix_le(s: Seq<char>, k: int)
    requires
        0 <= k <= s.len(),
    ensures
        hex_seq_val(s.take(k)) <= hex_seq_val(s),
    decreases s.len() - k,
{
    if k == s.len() {
        assert(s.take(k) =~= s);
    } else {
        let p = s.take(k);
        let q = s.take(k + 1);
        assert(q.drop_last() =~= p);
        lemma_hex_seq_val_nonneg(p);
        assert(hex_seq_val(q) == hex_seq_val(p) * 16 + hex_digit_val(q.last()));
        assert(hex_seq_val(p) * 16 >= hex_seq_val(p)) by (nonlinear_arith)
            requires
                hex_seq_val(p) >= 0,
        ;
        lemma_hex_prefix_le(s, k + 1);
    }
}

pub open spec fn pow16(n: nat) -> int
    decreases n,
{
    if n == 0 {
        1
    } else {
        16 * pow16((n - 1) as nat)
    }
}

/// A numeral of `n` hex digits denotes a value below `16^n`.
pub proof fn lemma_hex_seq_val_bound(s: Seq<char>)
    requires
        all_hex_digits(s),
    ensures
        hex_seq_val(s) < pow16(s.len()),
    decreases s.len(),
{
    if s.len() == 0 {
    } else {
        let p = s.drop_last();
        assert(all_hex_digits(p));
        lemma_hex_seq_val_bound(p);
        lemma_hex_seq_val_nonneg(p);
        assert(hex_digit_val(s.last()) <= 15);
        assert(hex_seq_val(p) * 16 + 15 < pow16(p.len()) * 16) by (nonlinear_arith)
            requires
                hex_seq_val(p) < pow16(p.len()),
                hex_seq_val(p) >= 0,
        ;
    }
}

/// Digit value of one character, or nothing when it is not a hex digit.
pub fn hex_digit_value(c: char) -> (r: Option<u8>)
    ensures
        match r {
            Some(v) => is_hex_digit(c) && v as int == hex_digit_val(c),
            None => !is_hex_digit(c),
        },
{
    if '0' <= c && c <= '9' {
        Some(((c as u32) - ('0' as u32)) as u8)
    } else if 'a' <= c && c <= 'f' {
        Some((((c as u32) - ('a' as u32)) + 10) as u8)
    } else if 'A' <= c && c <= 'F' {
        Some((((c as u32) - ('A' as u32)) + 10) as u8)
    } else {
        None
    }
}

/// Parse a hexadecimal address, with an optional `0x` marker in front.
pub fn parse_hex(s: &str) -> (r: Option<u64>)
    ensures
        r == parse_hex_spec(s@),
{
    let n = s.unicode_len();
    let start: usize = if n >= 2 && s.get_char(0) == '0' && s.get_char(1) == 'x' {
        2
    } else {
        0
    };
    let ghost t = strip_hex_marker(s@);
    proof {
        assert(t =~= s@.subrange(start as int, n as int));
    }
    if n == start {
        return None;
    }
    let mut v: u64 = 0;
    let mut i: usize = start;
    while i < n
        invariant
            start <= i <= n,
            n == s@.len(),
            t == s@.subrange(start as int, n as int),
            t == strip_hex_marker(s@),
            v as int == hex_seq_val(t.take(i - start)),
            all_hex_digits(t.take(i - start)),
        decreases n - i,
    {
        let c = s.get_char(i);
        let ghost pre = t.take(i - start);
        let ghost cur = t.take(i + 1 - start);
        proof {
            assert(cur.drop_last() =~= pre);
            assert(cur.last() == t[i - start]);
            assert(t[i - start] == s@[i as int]);
        }
        match hex_digit_value(c) {
            None => {
                proof {
                    assert(!is_hex_digit(t[i - start]));
                }
                return None;
            },
            Some(d) => {
                if v > (u64::MAX - d as u64) / 16 {
                    proof {
                        let q = (u64::MAX - d) / 16;
                        assert(16 * q + d + 15 >= u64::MAX) by (nonlinear_arith)
                            requires
                                q == ((u64::MAX - d) as int) / 16,
                                0 <= d < 16,
                        ;
                        assert(v as int * 16 + d as int > u64::MAX) by (nonlinear_arith)
                            requires
                                v as int >= q + 1,
                                16 * q + d + 15 >= u64::MAX,
                                0 <= d < 16,
                        ;
                        assert(hex_seq_val(cur) > u64::MAX);
                        lemma_hex_prefix_le(t, i + 1 - start);
                        assert(hex_seq_val(t) > u64::MAX);
                    }
                    return None;
                }
                proof {
                    assert(v as int * 16 + d as int <= u64::MAX) by (nonlinear_arith)
                        requires
                            v as int <= ((u64::MAX - d) as int) / 16,
                            0 <= d < 16,
                    ;
                }
                v = v * 16 + d as u64;
            },
        }
        i += 1;
    }
    proof {
        assert(t.take(n - start) =~= t);
    }
    Some(v)
}

/// One hexadecimal digit as a character, lower case.
pub open spec fn hex_char_of(v: int) -> char {
    if v == 0 {
        '0'
    } else if v == 1 {
        '1'
    } else if v == 2 {
        '2'
    } else if v == 3 {
        '3'
    } else if v == 4 {
        '4'
    } else if v == 5 {
        '5'
    } else if v == 6 {
        '6'
    } else if v == 7 {
        '7'
    } else if v == 8 {
        '8'
    } else if v == 9 {
        '9'
    } else if v == 10 {
        'a'
    } else if v == 11 {
        'b'
    } else if v == 12 {
        'c'
    } else if v == 13 {
        'd'
    } else if v == 14 {
        'e'
    } else {
        'f'
    }
}

/// Lower-case hexadecimal rendering of a value, without a marker and with
/// no leading zero except for the value zero itself.
pub open spec fn hex_str_spec(v: int) -> Seq<char>
    decreases v,
{
    if v < 16 {
        seq![hex_char_of(v)]
    } else {
        hex_str_spec(v / 16) + seq![hex_char_of(v % 16)]
    }
}

/// One digit as text.
pub fn hex_digit_str(d: u64) -> (r: &'static str)
    requires
        d < 16,
    ensures
        r@ =~= seq![hex_char_of(d as int)],
{
    proof {
        reveal_strlit("0");
        reveal_strlit("1");
        reveal_strlit("2");
        reveal_strlit("3");
        reveal_strlit("4");
        reveal_strlit("5");
        reveal_strlit("6");
        reveal_strlit("7");
        reveal_strlit("8");
        reveal_strlit("9");
        reveal_strlit("a");
        reveal_strlit("b");
        reveal_strlit("c");
        reveal_strlit("d");
        reveal_strlit("e");
        reveal_strlit("f");
    }
    if d == 0 {
        "0"
    } else if d == 1 {
        "1"
    } else if d == 2 {
        "2"
    } else if d == 3 {
        "3"
    } else if d == 4 {
        "4"
    } else if d == 5 {
        "5"
    } else if d == 6 {
        "6"
    } else if d == 7 {
        "7"
    } else if d == 8 {
        "8"
    } else if d == 9 {
        "9"
    } else if d == 10 {
        "a"
    } else if d == 11 {
        "b"
    } else if d == 12 {
        "c"
    } else if d == 13 {
        "d"
    } else if d == 14 {
        "e"
    } else {
        "f"
    }
}

/// Render a value as lower-case hexadecimal text.
pub fn to_hex(v: u64) -> (r: String)
    ensures
        r@ == hex_str_spec(v as int),
    decreases v,
{
    if v < 16 {
        hex_digit_str(v).to_owned()
    } else {
        let mut s = to_hex(v / 16);
        s.append(hex_digit_str(v % 16));
        s
    }
}

} // verus!
