//! The machine-instruction table of the SIC instruction set.
use vstd::prelude::*;

verus! {

/// Marks a mnemonic that is not a machine instruction.
pub const NOT_AN_INSTRUCTION: u8 = 0xFF;

/// The operation code of mnemonic `m`, or `NOT_AN_INSTRUCTION`.
pub open spec fn opcode_of(m: Seq<char>) -> u8 {
    if m == seq!['A', 'D', 'D'] {
        0x18
    } else if m == seq!['A', 'N', 'D'] {
        0x40
    } else if m == seq!['C', 'O', 'M', 'P'] {
        0x28
    } else if m == seq!['D', 'I', 'V'] {
        0x24
    } else if m == seq!['J'] {
        0x3C
    } else if m == seq!['J', 'E', 'Q'] {
        0x30
    } else if m == seq!['J', 'G', 'T'] {
        0x34
    } else if m == seq!['J', 'L', 'T'] {
        0x38
    } else if m == seq!['J', 'S', 'U', 'B'] {
        0x48
    } else if m == seq!['L', 'D', 'A'] {
        0x00
    } else if m == seq!['L', 'D', 'C', 'H'] {
        0x50
    } else if m == seq!['L', 'D', 'L'] {
        0x08
    } else if m == seq!['L', 'D', 'X'] {
        0x04
    } else if m == seq!['M', 'U', 'L'] {
        0x20
    } else if m == seq!['O', 'R'] {
        0x44
    } else if m == seq!['R', 'D'] {
        0xD8
    } else if m == seq!['R', 'S', 'U', 'B'] {
        0x4C
    } else if m == seq!['S', 'T', 'A'] {
        0x0C
    } else if m == seq!['S', 'T', 'C', 'H'] {
        0x54
    } else if m == seq!['S', 'T', 'L'] {
        0x14
    } else if m == seq!['S', 'T', 'S', 'W'] {
        0xE8
    } else if m == seq!['S', 'T', 'X'] {
        0x10
    } else if m == seq!['S', 'U', 'B'] {
        0x1C
    } else if m == seq!['T', 'D'] {
        0xE0
    } else if m == seq!['T', 'I', 'X'] {
        0x2C
    } else if m == seq!['W', 'D'] {
        0xDC
    } else {
        NOT_AN_INSTRUCTION
    }
}

/// Whether `m` names a machine instruction.
pub open spec fn is_instruction_spec(m: Seq<char>) -> bool {
    opcode_of(m) != NOT_AN_INSTRUCTION
}

/// Whether two character strings are equal.
pub fn same_chars(a: &[char], b: &[char]) -> (r: bool)
    ensures
        r == (a@ == b@),
{
    if a.len() != b.len() {
        return false;
    }
    let mut i: usize = 0;
    while i < a.len()
        invariant
            a@.len() == b@.len(),
            i <= a@.len(),
            a@.subrange(0, i as int) == b@.subrange(0, i as int),
        decreases a@.len() - i,
    {
        if a[i] != b[i] {
            assert(a@[i as int] != b@[i as int]);
            return false;
        }
        assert(a@.subrange(0, i + 1) == a@.subrange(0, i as int).push(a@[i as int]));
        assert(b@.subrange(0, i + 1) == b@.subrange(0, i as int).push(b@[i as int]));
        i += 1;
    }
    assert(a@ == a@.subrange(0, i as int));
    assert(b@ == b@.subrange(0, i as int));
    true
}

/// Whether `m` is the 1-letter word given.
pub fn spells1(m: &[char], c0: char) -> (r: bool)
    ensures
        r == (m@ == seq![c0]),
{
    let r = m.len() == 1 && m[0] == c0;
    proof {
        if r {
            assert(m@ =~= seq![c0]);
        }
    }
    r
}

/// Whether `m` is the 2-letter word given.
pub fn spells2(m: &[char], c0: char, c1: char) -> (r: bool)
    ensures
        r == (m@ == seq![c0, c1]),
{
    let r = m.len() == 2 && m[0] == c0 && m[1] == c1;
    proof {
        if r {
            assert(m@ =~= seq![c0, c1]);
        }
    }
    r
}

/// Whether `m` is the 3-letter word given.
pub fn spells3(m: &[char], c0: char, c1: char, c2: char) -> (r: bool)
    ensures
        r == (m@ == seq![c0, c1, c2]),
{
    let r = m.len() == 3 && m[0] == c0 && m[1] == c1 && m[2] == c2;
    proof {
        if r {
            assert(m@ =~= seq![c0, c1, c2]);
        }
    }
    r
}

/// Whether `m` is the 4-letter word given.
pub fn spells4(m: &[char], c0: char, c1: char, c2: char, c3: char) -> (r: bool)
    ensures
        r == (m@ == seq![c0, c1, c2, c3]),
{
    let r = m.len() == 4 && m[0] == c0 && m[1] == c1 && m[2] == c2 && m[3] == c3;
    proof {
        if r {
            assert(m@ =~= seq![c0, c1, c2, c3]);
        }
    }
    r
}

/// Whether `m` is the 5-letter word given.
pub fn spells5(m: &[char], c0: char, c1: char, c2: char, c3: char, c4: char) -> (r: bool)
    ensures
        r == (m@ == seq![c0, c1, c2, c3, c4]),
{
    let r = m.len() == 5 && m[0] == c0 && m[1] == c1 && m[2] == c2 && m[3] == c3 && m[4] == c4;
    proof {
        if r {
            assert(m@ =~= seq![c0, c1, c2, c3, c4]);
        }
    }
    r
}

/// The operation code of mnemonic `m`, or `NOT_AN_INSTRUCTION` where `m`
/// names no machine instruction.
pub fn instruction(m: &[char]) -> (r: u8)
    ensures
        r == opcode_of(m@),
{
    if spells3(m, 'A', 'D', 'D') {
        0x18
    } else if spells3(m, 'A', 'N', 'D') {
        0x40
    } else if spells4(m, 'C', 'O', 'M', 'P') {
        0x28
    } else if spells3(m, 'D', 'I', 'V') {
        0x24
    } else if spells1(m, 'J') {
        0x3C
    } else if spells3(m, 'J', 'E', 'Q') {
        0x30
    } else if spells3(m, 'J', 'G', 'T') {
        0x34
    } else if spells3(m, 'J', 'L', 'T') {
        0x38
    } else if spells4(m, 'J', 'S', 'U', 'B') {
        0x48
    } else if spells3(m, 'L', 'D', 'A') {
        0x00
    } else if spells4(m, 'L', 'D', 'C', 'H') {
        0x50
    } else if spells3(m, 'L', 'D', 'L') {
        0x08
    } else if spells3(m, 'L', 'D', 'X') {
        0x04
    } else if spells3(m, 'M', 'U', 'L') {
        0x20
    } else if spells2(m, 'O', 'R') {
        0x44
    } else if spells2(m, 'R', 'D') {
        0xD8
    } else if spells4(m, 'R', 'S', 'U', 'B') {
        0x4C
    } else if spells3(m, 'S', 'T', 'A') {
        0x0C
    } else if spells4(m, 'S', 'T', 'C', 'H') {
        0x54
    } else if spells3(m, 'S', 'T', 'L') {
        0x14
    } else if spells4(m, 'S', 'T', 'S', 'W') {
        0xE8
    } else if spells3(m, 'S', 'T', 'X') {
        0x10
    } else if spells3(m, 'S', 'U', 'B') {
        0x1C
    } else if spells2(m, 'T', 'D') {
        0xE0
    } else if spells3(m, 'T', 'I', 'X') {
        0x2C
    } else if spells2(m, 'W', 'D') {
        0xDC
    } else {
        NOT_AN_INSTRUCTION
    }
}

/// Whether `m` names a machine instruction.
pub fn is_instruction(m: &[char]) -> (r: bool)
    ensures
        r == is_instruction_spec(m@),
{
    instruction(m) != NOT_AN_INSTRUCTION
}

} // verus!
