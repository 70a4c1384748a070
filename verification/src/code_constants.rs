//! The architecture-fixed mnemonic tables.

use vstd::prelude::*;

verus! {

/// The seven destination mnemonics, in encoding order: the mnemonic at
/// position `n` encodes as `n + 1`.
pub open spec fn spec_dest_table() -> Seq<Seq<char>> {
    seq![
        seq!['M'],
        seq!['D'],
        seq!['M', 'D'],
        seq!['A'],
        seq!['A', 'M'],
        seq!['A', 'D'],
        seq!['A', 'M', 'D'],
    ]
}

/// The seven jump mnemonics, in encoding order: the mnemonic at position
/// `n` encodes as `n + 1`.
pub open spec fn spec_jump_table() -> Seq<Seq<char>> {
    seq![
        seq!['J', 'G', 'T'],
        seq!['J', 'E', 'Q'],
        seq!['J', 'G', 'E'],
        seq!['J', 'L', 'T'],
        seq!['J', 'N', 'E'],
        seq!['J', 'L', 'E'],
        seq!['J', 'M', 'P'],
    ]
}

/// The position of the first entry of `t` equal to `s`, if any.
pub open spec fn table_lookup(t: Seq<Seq<char>>, s: Seq<char>) -> Option<int>
    decreases t.len(),
{
    if t.len() == 0 {
        None
    } else if t[0] == s {
        Some(0)
    } else {
        match table_lookup(t.skip(1), s) {
            Some(i) => Some(i + 1),
            None => None,
        }
    }
}

/// The 3-bit code of a destination field: absence encodes as zero, a known
/// mnemonic as its table position plus one, anything else is invalid.
pub open spec fn spec_dest_code(s: Option<Seq<char>>) -> Option<u8> {
    match s {
        None => Some(0),
        Some(m) => match table_lookup(spec_dest_table(), m) {
            Some(i) => Some((i + 1) as u8),
            None => None,
        },
    }
}

/// The 3-bit code of a jump field, under the same scheme as the
/// destination field.
pub open spec fn spec_jump_code(s: Option<Seq<char>>) -> Option<u8> {
    match s {
        None => Some(0),
        Some(m) => match table_lookup(spec_jump_table(), m) {
            Some(i) => Some((i + 1) as u8),
            None => None,
        },
    }
}

/// The fixed 7-bit code of every legal computation mnemonic.
pub open spec fn spec_comp_code(s: Seq<char>) -> Option<u16> {
    if s == seq!['0'] {
        Some(0b0101010u16)
    } else if s == seq!['1'] {
        Some(0b0111111u16)
    } else if s == seq!['-', '1'] {
        Some(0b0111010u16)
    } else if s == seq!['D'] {
        Some(0b0001100u16)
    } else if s == seq!['A'] {
        Some(0b0110000u16)
    } else if s == seq!['!', 'D'] {
        Some(0b0001101u16)
    } else if s == seq!['!', 'A'] {
        Some(0b0110001u16)
    } else if s == seq!['-', 'D'] {
        Some(0b0001111u16)
    } else if s == seq!['-', 'A'] {
        Some(0b0110011u16)
    } else if s == seq!['D', '+', '1'] {
        Some(0b0011111u16)
    } else if s == seq!['A', '+', '1'] {
        Some(0b0110111u16)
    } else if s == seq!['D', '-', '1'] {
        Some(0b0001110u16)
    } else if s == seq!['A', '-', '1'] {
        Some(0b0110010u16)
    } else if s == seq!['D', '+', 'A'] {
        Some(0b0000010u16)
    } else if s == seq!['D', '-', 'A'] {
        Some(0b0010011u16)
    } else if s == seq!['A', '-', 'D'] {
        Some(0b0000111u16)
    } else if s == seq!['D', '&', 'A'] {
        Some(0b0000000u16)
    } else if s == seq!['D', '|', 'A'] {
        Some(0b0010101u16)
    } else if s == seq!['M'] {
        Some(0b1110000u16)
    } else if s == seq!['!', 'M'] {
        Some(0b1110001u16)
    } else if s == seq!['-', 'M'] {
        Some(0b1110011u16)
    } else if s == seq!['M', '+', '1'] {
        Some(0b1110111u16)
    } else if s == seq!['M', '-', '1'] {
        Some(0b1110010u16)
    } else if s == seq!['D', '+', 'M'] {
        Some(0b1000010u16)
    } else if s == seq!['D', '-', 'M'] {
        Some(0b1010011u16)
    } else if s == seq!['M', '-', 'D'] {
        Some(0b1000111u16)
    } else if s == seq!['D', '&', 'M'] {
        Some(0b1000000u16)
    } else if s == seq!['D', '|', 'M'] {
        Some(0b1010101u16)
    } else {
        None
    }
}

/// Each destination mnemonic is found at its own position: looking the
/// `n`-th entry up yields `n`, so its code is `n + 1`.
pub proof fn lemma_dest_position(i: int)
    requires
        0 <= i < spec_dest_table().len(),
    ensures
        table_lookup(spec_dest_table(), spec_dest_table()[i]) == Some(i),
{
    reveal_with_fuel(table_lookup, 9);
    let t = spec_dest_table();
    assert(t[0] == seq!['M'] && t[1] == seq!['D'] && t[2] == seq!['M', 'D'] && t[3] == seq!['A']
        && t[4] == seq!['A', 'M'] && t[5] == seq!['A', 'D'] && t[6] == seq!['A', 'M', 'D']);
    assert(t[0].len() == 1 && t[0][0] == 'M');
    assert(t[1].len() == 1 && t[1][0] == 'D');
    assert(t[2].len() == 2 && t[2][0] == 'M' && t[2][1] == 'D');
    assert(t[3].len() == 1 && t[3][0] == 'A');
    assert(t[4].len() == 2 && t[4][0] == 'A' && t[4][1] == 'M');
    assert(t[5].len() == 2 && t[5][0] == 'A' && t[5][1] == 'D');
    assert(t[6].len() == 3 && t[6][0] == 'A');
    if i == 0 {
        assert(table_lookup(t, t[0]) == Some(0int));
    } else if i == 1 {
        assert(table_lookup(t, t[1]) == Some(1int));
    } else if i == 2 {
        assert(table_lookup(t, t[2]) == Some(2int));
    } else if i == 3 {
        assert(table_lookup(t, t[3]) == Some(3int));
    } else if i == 4 {
        assert(table_lookup(t, t[4]) == Some(4int));
    } else if i == 5 {
        assert(table_lookup(t, t[5]) == Some(5int));
    } else {
        assert(table_lookup(t, t[6]) == Some(6int));
    }
}

/// Each jump mnemonic is found at its own position: looking the `n`-th
/// entry up yields `n`, so its code is `n + 1`.
pub proof fn lemma_jump_position(i: int)
    requires
        0 <= i < spec_jump_table().len(),
    ensures
        table_lookup(spec_jump_table(), spec_jump_table()[i]) == Some(i),
{
    reveal_with_fuel(table_lookup, 9);
    let t = spec_jump_table();
    assert(t[0] == seq!['J', 'G', 'T'] && t[1] == seq!['J', 'E', 'Q'] && t[2] == seq![
        'J',
        'G',
        'E',
    ] && t[3] == seq!['J', 'L', 'T'] && t[4] == seq!['J', 'N', 'E'] && t[5] == seq!['J', 'L', 'E']
        && t[6] == seq!['J', 'M', 'P']);
    assert(t[0][1] == 'G' && t[0][2] == 'T');
    assert(t[1][1] == 'E' && t[1][2] == 'Q');
    assert(t[2][1] == 'G' && t[2][2] == 'E');
    assert(t[3][1] == 'L' && t[3][2] == 'T');
    assert(t[4][1] == 'N' && t[4][2] == 'E');
    assert(t[5][1] == 'L' && t[5][2] == 'E');
    assert(t[6][1] == 'M' && t[6][2] == 'P');
    if i == 0 {
        assert(table_lookup(t, t[0]) == Some(0int));
    } else if i == 1 {
        assert(table_lookup(t, t[1]) == Some(1int));
    } else if i == 2 {
        assert(table_lookup(t, t[2]) == Some(2int));
    } else if i == 3 {
        assert(table_lookup(t, t[3]) == Some(3int));
    } else if i == 4 {
        assert(table_lookup(t, t[4]) == Some(4int));
    } else if i == 5 {
        assert(table_lookup(t, t[5]) == Some(5int));
    } else {
        assert(table_lookup(t, t[6]) == Some(6int));
    }
}

} // verus!
