//! The field encoder: pure lookups from mnemonic strings to bit-field codes.

use vstd::prelude::*;

use crate::code_constants::{spec_comp_code, spec_dest_code, spec_jump_code, spec_dest_table,
    spec_jump_table, table_lookup};
use crate::errors::AssemblyError;
use crate::text::str_eq;

verus! {

/// The 3-bit code of an optional destination mnemonic: `None` encodes as
/// zero, the `n`-th table entry as `n + 1`, and any other string is
/// rejected as an invalid destination mnemonic.
pub fn dest(string: Option<&str>) -> (r: Result<u8, AssemblyError>)
    ensures
        string is None ==> r == Ok::<u8, AssemblyError>(0),
        string matches Some(s) ==> match spec_dest_code(Some(s@)) {
            Some(c) => r == Ok::<u8, AssemblyError>(c),
            None => (r matches Err(e) && e matches AssemblyError::InvalidDestMnemonic(m) && m@
                == s@),
        },
{
    match string {
        None => Ok(0),
        Some(s) => {
            proof {
                reveal_with_fuel(table_lookup, 9);
                reveal_strlit("M");
                reveal_strlit("D");
                reveal_strlit("MD");
                reveal_strlit("A");
                reveal_strlit("AM");
                reveal_strlit("AD");
                reveal_strlit("AMD");
                assert("M"@ =~= spec_dest_table()[0]);
                assert("D"@ =~= spec_dest_table()[1]);
                assert("MD"@ =~= spec_dest_table()[2]);
                assert("A"@ =~= spec_dest_table()[3]);
                assert("AM"@ =~= spec_dest_table()[4]);
                assert("AD"@ =~= spec_dest_table()[5]);
                assert("AMD"@ =~= spec_dest_table()[6]);
            }
            if str_eq(s, "M") {
                Ok(1)
            } else if str_eq(s, "D") {
                Ok(2)
            } else if str_eq(s, "MD") {
                Ok(3)
            } else if str_eq(s, "A") {
                Ok(4)
            } else if str_eq(s, "AM") {
                Ok(5)
            } else if str_eq(s, "AD") {
                Ok(6)
            } else if str_eq(s, "AMD") {
                Ok(7)
            } else {
                Err(AssemblyError::InvalidDestMnemonic(s.to_owned()))
            }
        },
    }
}

/// The 3-bit code of an optional jump mnemonic, under the same positional
/// scheme as the destination field.
pub fn jump(string: Option<&str>) -> (r: Result<u8, AssemblyError>)
    ensures
        string is None ==> r == Ok::<u8, AssemblyError>(0),
        string matches Some(s) ==> match spec_jump_code(Some(s@)) {
            Some(c) => r == Ok::<u8, AssemblyError>(c),
            None => (r matches Err(e) && e matches AssemblyError::InvalidJumpMnemonic(m) && m@
                == s@),
        },
{
    match string {
        None => Ok(0),
        Some(s) => {
            proof {
                reveal_with_fuel(table_lookup, 9);
                reveal_strlit("JGT");
                reveal_strlit("JEQ");
                reveal_strlit("JGE");
                reveal_strlit("JLT");
                reveal_strlit("JNE");
                reveal_strlit("JLE");
                reveal_strlit("JMP");
                assert("JGT"@ =~= spec_jump_table()[0]);
                assert("JEQ"@ =~= spec_jump_table()[1]);
                assert("JGE"@ =~= spec_jump_table()[2]);
                assert("JLT"@ =~= spec_jump_table()[3]);
                assert("JNE"@ =~= spec_jump_table()[4]);
                assert("JLE"@ =~= spec_jump_table()[5]);
                assert("JMP"@ =~= spec_jump_table()[6]);
            }
            if str_eq(s, "JGT") {
                Ok(1)
            } else if str_eq(s, "JEQ") {
                Ok(2)
            } else if str_eq(s, "JGE") {
                Ok(3)
            } else if str_eq(s, "JLT") {
                Ok(4)
            } else if str_eq(s, "JNE") {
                Ok(5)
            } else if str_eq(s, "JLE") {
                Ok(6)
            } else if str_eq(s, "JMP") {
                Ok(7)
            } else {
                Err(AssemblyError::InvalidJumpMnemonic(s.to_owned()))
            }
        },
    }
}

/// The 7-bit code of an optional computation mnemonic: the computation
/// field is required, so absence and unrecognized strings are both
/// rejected as an invalid computation mnemonic.
pub fn comp(string: Option<&str>) -> (r: Result<u16, AssemblyError>)
    ensures
        string is None ==> (r matches Err(e) && e matches AssemblyError::InvalidCompMnemonic(
            m,
        ) && m@ == Seq::<char>::empty()),
        string matches Some(s) ==> match spec_comp_code(s@) {
            Some(c) => r == Ok::<u16, AssemblyError>(c),
            None => (r matches Err(e) && e matches AssemblyError::InvalidCompMnemonic(m) && m@
                == s@),
        },
{
    match string {
        None => Err(AssemblyError::InvalidCompMnemonic(String::new())),
        Some(s) => {
            proof {
                reveal_strlit("0");
                reveal_strlit("1");
                reveal_strlit("-1");
                reveal_strlit("D");
                reveal_strlit("A");
                reveal_strlit("!D");
                reveal_strlit("!A");
                reveal_strlit("-D");
                reveal_strlit("-A");
                reveal_strlit("D+1");
                reveal_strlit("A+1");
                reveal_strlit("D-1");
                reveal_strlit("A-1");
                reveal_strlit("D+A");
                reveal_strlit("D-A");
                reveal_strlit("A-D");
                reveal_strlit("D&A");
                reveal_strlit("D|A");
                reveal_strlit("M");
                reveal_strlit("!M");
                reveal_strlit("-M");
                reveal_strlit("M+1");
                reveal_strlit("M-1");
                reveal_strlit("D+M");
                reveal_strlit("D-M");
                reveal_strlit("M-D");
                reveal_strlit("D&M");
                reveal_strlit("D|M");
                assert("0"@ =~= seq!['0']);
                assert("1"@ =~= seq!['1']);
                assert("-1"@ =~= seq!['-', '1']);
                assert("D"@ =~= seq!['D']);
                assert("A"@ =~= seq!['A']);
                assert("!D"@ =~= seq!['!', 'D']);
                assert("!A"@ =~= seq!['!', 'A']);
                assert("-D"@ =~= seq!['-', 'D']);
                assert("-A"@ =~= seq!['-', 'A']);
                assert("D+1"@ =~= seq!['D', '+', '1']);
                assert("A+1"@ =~= seq!['A', '+', '1']);
                assert("D-1"@ =~= seq!['D', '-', '1']);
                assert("A-1"@ =~= seq!['A', '-', '1']);
                assert("D+A"@ =~= seq!['D', '+', 'A']);
                assert("D-A"@ =~= seq!['D', '-', 'A']);
                assert("A-D"@ =~= seq!['A', '-', 'D']);
                assert("D&A"@ =~= seq!['D', '&', 'A']);
                assert("D|A"@ =~= seq!['D', '|', 'A']);
                assert("M"@ =~= seq!['M']);
                assert("!M"@ =~= seq!['!', 'M']);
                assert("-M"@ =~= seq!['-', 'M']);
                assert("M+1"@ =~= seq!['M', '+', '1']);
                assert("M-1"@ =~= seq!['M', '-', '1']);
                assert("D+M"@ =~= seq!['D', '+', 'M']);
                assert("D-M"@ =~= seq!['D', '-', 'M']);
                assert("M-D"@ =~= seq!['M', '-', 'D']);
                assert("D&M"@ =~= seq!['D', '&', 'M']);
                assert("D|M"@ =~= seq!['D', '|', 'M']);
            }
            if str_eq(s, "0") {
                Ok(0b0101010)
            } else if str_eq(s, "1") {
                Ok(0b0111111)
            } else if str_eq(s, "-1") {
                Ok(0b0111010)
            } else if str_eq(s, "D") {
                Ok(0b0001100)
            } else if str_eq(s, "A") {
                Ok(0b0110000)
            } else if str_eq(s, "!D") {
                Ok(0b0001101)
            } else if str_eq(s, "!A") {
                Ok(0b0110001)
            } else if str_eq(s, "-D") {
                Ok(0b0001111)
            } else if str_eq(s, "-A") {
                Ok(0b0110011)
            } else if str_eq(s, "D+1") {
                Ok(0b0011111)
            } else if str_eq(s, "A+1") {
                Ok(0b0110111)
            } else if str_eq(s, "D-1") {
                Ok(0b0001110)
            } else if str_eq(s, "A-1") {
                Ok(0b0110010)
            } else if str_eq(s, "D+A") {
                Ok(0b0000010)
            } else if str_eq(s, "D-A") {
                Ok(0b0010011)
            } else if str_eq(s, "A-D") {
                Ok(0b0000111)
            } else if str_eq(s, "D&A") {
                Ok(0b0000000)
            } else if str_eq(s, "D|A") {
                Ok(0b0010101)
            } else if str_eq(s, "M") {
                Ok(0b1110000)
            } else if str_eq(s, "!M") {
                Ok(0b1110001)
            } else if str_eq(s, "-M") {
                Ok(0b1110011)
            } else if str_eq(s, "M+1") {
                Ok(0b1110111)
            } else if str_eq(s, "M-1") {
                Ok(0b1110010)
            } else if str_eq(s, "D+M") {
                Ok(0b1000010)
            } else if str_eq(s, "D-M") {
                Ok(0b1010011)
            } else if str_eq(s, "M-D") {
                Ok(0b1000111)
            } else if str_eq(s, "D&M") {
                Ok(0b1000000)
            } else if str_eq(s, "D|M") {
                Ok(0b1010101)
            } else {
                Err(AssemblyError::InvalidCompMnemonic(s.to_owned()))
            }
        },
    }
}

} // verus!
