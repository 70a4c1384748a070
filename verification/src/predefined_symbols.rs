//! The architecture-reserved symbols and their fixed addresses.

use vstd::prelude::*;

use crate::symbol_table::SymbolTable;

verus! {

/// The predefined bindings: the named pointer registers, the sixteen
/// general-purpose register aliases, and the two memory-mapped devices.
pub open spec fn spec_predefined() -> Map<Seq<char>, u16> {
    Map::empty().insert(seq!['S', 'P'], 0u16).insert(seq!['L', 'C', 'L'], 1u16).insert(
        seq!['A', 'R', 'G'],
        2u16,
    ).insert(seq!['T', 'H', 'I', 'S'], 3u16).insert(seq!['R', '0'], 0u16).insert(
        seq!['R', '1'],
        1u16,
    ).insert(seq!['R', '2'], 2u16).insert(seq!['R', '3'], 3u16).insert(seq!['R', '4'], 4u16).insert(
        seq!['R', '5'],
        5u16,
    ).insert(seq!['R', '6'], 6u16).insert(seq!['R', '7'], 7u16).insert(seq!['R', '8'], 8u16).insert(
        seq!['R', '9'],
        9u16,
    ).insert(seq!['R', '1', '0'], 10u16).insert(seq!['R', '1', '1'], 11u16).insert(
        seq!['R', '1', '2'],
        12u16,
    ).insert(seq!['R', '1', '3'], 13u16).insert(seq!['R', '1', '4'], 14u16).insert(
        seq!['R', '1', '5'],
        15u16,
    ).insert(seq!['S', 'C', 'R', 'E', 'E', 'N'], 16384u16).insert(
        seq!['K', 'B', 'D'],
        24576u16,
    )
}

/// A symbol table seeded with every predefined binding.
pub fn predefined_table() -> (t: SymbolTable)
    ensures
        t.wf(),
        t@ == spec_predefined(),
{
    proof {
        reveal_strlit("SP");
        reveal_strlit("LCL");
        reveal_strlit("ARG");
        reveal_strlit("THIS");
        reveal_strlit("R0");
        reveal_strlit("R1");
        reveal_strlit("R2");
        reveal_strlit("R3");
        reveal_strlit("R4");
        reveal_strlit("R5");
        reveal_strlit("R6");
        reveal_strlit("R7");
        reveal_strlit("R8");
        reveal_strlit("R9");
        reveal_strlit("R10");
        reveal_strlit("R11");
        reveal_strlit("R12");
        reveal_strlit("R13");
        reveal_strlit("R14");
        reveal_strlit("R15");
        reveal_strlit("SCREEN");
        reveal_strlit("KBD");
        assert("SP"@ =~= seq!['S', 'P']);
        assert("LCL"@ =~= seq!['L', 'C', 'L']);
        assert("ARG"@ =~= seq!['A', 'R', 'G']);
        assert("THIS"@ =~= seq!['T', 'H', 'I', 'S']);
        assert("R0"@ =~= seq!['R', '0']);
        assert("R1"@ =~= seq!['R', '1']);
        assert("R2"@ =~= seq!['R', '2']);
        assert("R3"@ =~= seq!['R', '3']);
        assert("R4"@ =~= seq!['R', '4']);
        assert("R5"@ =~= seq!['R', '5']);
        assert("R6"@ =~= seq!['R', '6']);
        assert("R7"@ =~= seq!['R', '7']);
        assert("R8"@ =~= seq!['R', '8']);
        assert("R9"@ =~= seq!['R', '9']);
        assert("R10"@ =~= seq!['R', '1', '0']);
        assert("R11"@ =~= seq!['R', '1', '1']);
        assert("R12"@ =~= seq!['R', '1', '2']);
        assert("R13"@ =~= seq!['R', '1', '3']);
        assert("R14"@ =~= seq!['R', '1', '4']);
        assert("R15"@ =~= seq!['R', '1', '5']);
        assert("SCREEN"@ =~= seq!['S', 'C', 'R', 'E', 'E', 'N']);
        assert("KBD"@ =~= seq!['K', 'B', 'D']);
    }
    let mut t = SymbolTable::new();
    t.add_entry(String::from_str("SP"), 0);
    t.add_entry(String::from_str("LCL"), 1);
    t.add_entry(String::from_str("ARG"), 2);
    t.add_entry(String::from_str("THIS"), 3);
    t.add_entry(String::from_str("R0"), 0);
    t.add_entry(String::from_str("R1"), 1);
    t.add_entry(String::from_str("R2"), 2);
    t.add_entry(String::from_str("R3"), 3);
    t.add_entry(String::from_str("R4"), 4);
    t.add_entry(String::from_str("R5"), 5);
    t.add_entry(String::from_str("R6"), 6);
    t.add_entry(String::from_str("R7"), 7);
    t.add_entry(String::from_str("R8"), 8);
    t.add_entry(String::from_str("R9"), 9);
    t.add_entry(String::from_str("R10"), 10);
    t.add_entry(String::from_str("R11"), 11);
    t.add_entry(String::from_str("R12"), 12);
    t.add_entry(String::from_str("R13"), 13);
    t.add_entry(String::from_str("R14"), 14);
    t.add_entry(String::from_str("R15"), 15);
    t.add_entry(String::from_str("SCREEN"), 16384);
    t.add_entry(String::from_str("KBD"), 24576);
    t
}

} // verus!
