//! The line scanner and instruction parser: walks the source line by
//! line, classifies each statement, and extracts its fields.

use vstd::prelude::*;

use crate::code;
use crate::code_constants::{spec_comp_code, spec_dest_code, spec_jump_code};
use crate::errors::{bad_comp_msg, bad_dest_msg, bad_jump_msg, is_code_err, not_al_msg, not_c_msg,
    AssemblyError};
use crate::instruction_enum::Instruction;
use crate::text::{bin16, stripped, strip_line, to_bin16};

verus! {

/// The kind of a statement, read off its first and last characters.
pub open spec fn kind(s: Seq<char>) -> Instruction {
    if s.len() > 0 && s[0] == '@' {
        Instruction::A
    } else if s.len() > 0 && s[0] == '(' && s[s.len() - 1] == ')' {
        Instruction::L
    } else {
        Instruction::C
    }
}

/// The symbol of an address or label instruction: the text after the
/// sigil, or between the parentheses.
pub open spec fn spec_symbol(s: Seq<char>) -> Seq<char> {
    if kind(s) is A {
        s.skip(1)
    } else if kind(s) is L {
        s.subrange(1, s.len() - 1)
    } else {
        Seq::empty()
    }
}

/// Whether `c` occurs in `s`.
pub open spec fn has_char(s: Seq<char>, c: char) -> bool {
    exists|i: int| 0 <= i < s.len() && s[i] == c
}

/// The position of the first occurrence of `c` in `s`.
pub open spec fn first_idx(s: Seq<char>, c: char) -> int
    decreases s.len(),
{
    if s.len() == 0 {
        0
    } else if s[0] == c {
        0
    } else {
        1 + first_idx(s.skip(1), c)
    }
}

/// The position of the last occurrence of `c` in `s`.
pub open spec fn last_idx(s: Seq<char>, c: char) -> int
    decreases s.len(),
{
    if s.len() == 0 {
        0
    } else if s[s.len() - 1] == c {
        s.len() - 1
    } else {
        last_idx(s.drop_last(), c)
    }
}

proof fn lemma_first_idx(s: Seq<char>, c: char, i: int)
    requires
        0 <= i < s.len(),
        s[i] == c,
        forall|j: int| 0 <= j < i ==> s[j] != c,
    ensures
        first_idx(s, c) == i,
    decreases i,
{
    if i > 0 {
        let t = s.skip(1);
        assert(forall|j: int| 0 <= j < i - 1 ==> t[j] == s[j + 1]);
        assert(t[i - 1] == s[i]);
        lemma_first_idx(t, c, i - 1);
    }
}

proof fn lemma_last_idx(s: Seq<char>, c: char, i: int)
    requires
        0 <= i < s.len(),
        s[i] == c,
        forall|j: int| i < j < s.len() ==> s[j] != c,
    ensures
        last_idx(s, c) == i,
    decreases s.len(),
{
    if i < s.len() - 1 {
        let t = s.drop_last();
        assert(t[i] == s[i]);
        assert(forall|j: int| i < j < t.len() ==> t[j] == s[j]);
        lemma_last_idx(t, c, i);
    }
}

/// The destination field of a compute statement: the text before the
/// first `=`, when there is one.
pub open spec fn dest_part(s: Seq<char>) -> Option<Seq<char>> {
    if has_char(s, '=') {
        Some(s.take(first_idx(s, '=')))
    } else {
        None
    }
}

/// The computation field: between the first `=` (if any) and the first
/// `;` (if any); absent when those separators cross.
pub open spec fn comp_part(s: Seq<char>) -> Option<Seq<char>> {
    let i = if has_char(s, '=') {
        first_idx(s, '=') + 1
    } else {
        0
    };
    let j = if has_char(s, ';') {
        first_idx(s, ';')
    } else {
        s.len() as int
    };
    if i <= j {
        Some(s.subrange(i, j))
    } else {
        None
    }
}

/// The jump field: the text after the last `;`, when there is one.
pub open spec fn jump_part(s: Seq<char>) -> Option<Seq<char>> {
    if has_char(s, ';') {
        Some(s.skip(last_idx(s, ';') + 1))
    } else {
        None
    }
}

/// The 3-bit destination code of a compute statement, if its field is
/// legal.
pub open spec fn spec_dest_of(s: Seq<char>) -> Option<u8> {
    spec_dest_code(dest_part(s))
}

/// The 7-bit computation code of a compute statement, if its field is
/// legal.
pub open spec fn spec_comp_of(s: Seq<char>) -> Option<u16> {
    match comp_part(s) {
        Some(m) => spec_comp_code(m),
        None => None,
    }
}

/// The 3-bit jump code of a compute statement, if its field is legal.
pub open spec fn spec_jump_of(s: Seq<char>) -> Option<u8> {
    spec_jump_code(jump_part(s))
}

/// The 16-bit word of a compute statement: `111`, then the computation,
/// destination and jump codes; absent when any field is illegal.
pub open spec fn spec_cword(s: Seq<char>) -> Option<u16> {
    match (spec_dest_of(s), spec_comp_of(s), spec_jump_of(s)) {
        (Some(d), Some(c), Some(j)) => Some(
            0b1110000000000000u16 | (c << 6u16) | ((d as u16) << 3u16) | (j as u16),
        ),
        _ => None,
    }
}

/// The field errors `binary_string` reports for statement `s` on raw line
/// `n`: one entry per failed field, in destination, computation, jump
/// order; for a non-compute statement all three fields fail alike.
pub open spec fn field_errors_for(v: Seq<AssemblyError>, s: Seq<char>, n: int) -> bool {
    if kind(s) != Instruction::C {
        &&& v.len() == 3
        &&& is_code_err(v[0], not_c_msg(s), n)
        &&& is_code_err(v[1], not_c_msg(s), n)
        &&& is_code_err(v[2], not_c_msg(s), n)
    } else {
        let db: int = if spec_dest_of(s) is None {
            1
        } else {
            0
        };
        let cb: int = if spec_comp_of(s) is None {
            1
        } else {
            0
        };
        let jb: int = if spec_jump_of(s) is None {
            1
        } else {
            0
        };
        &&& v.len() == db + cb + jb
        &&& (db == 1 ==> is_code_err(v[0], bad_dest_msg(s), n))
        &&& (cb == 1 ==> is_code_err(v[db], bad_comp_msg(s), n))
        &&& (jb == 1 ==> is_code_err(v[db + cb], bad_jump_msg(s), n))
    }
}

/// `e` is the combined error `binary_string` reports for statement `s` on
/// raw line `n`.
pub open spec fn combined_errors_for(e: AssemblyError, s: Seq<char>, n: int) -> bool {
    e matches AssemblyError::CombinedErrors(v) && field_errors_for(v@, s, n)
}

/// The statements at or after raw line index `pos`, paired with their
/// one-based raw line numbers.
pub open spec fn stmts_from(lines: Seq<Seq<char>>, pos: int) -> Seq<(Seq<char>, int)>
    decreases lines.len() - pos,
{
    if pos < 0 || pos >= lines.len() {
        Seq::empty()
    } else if stripped(lines[pos]).len() > 0 {
        seq![(stripped(lines[pos]), pos + 1)] + stmts_from(lines, pos + 1)
    } else {
        stmts_from(lines, pos + 1)
    }
}

/// A source yields no more statements than it has raw lines.
pub proof fn lemma_stmts_from_len(lines: Seq<Seq<char>>, pos: int)
    requires
        0 <= pos <= lines.len(),
    ensures
        stmts_from(lines, pos).len() <= lines.len() - pos,
    decreases lines.len() - pos,
{
    if pos < lines.len() {
        lemma_stmts_from_len(lines, pos + 1);
    }
}

/// The line scanner: holds the raw source lines, a cursor, and the
/// current statement.
pub struct Parser {
    lines: Vec<String>,
    pos: usize,
    current_line: String,
    current_line_number: u32,
}

impl Parser {
    /// The raw source lines.
    pub closed spec fn lines_view(&self) -> Seq<Seq<char>> {
        self.lines@.map_values(|l: String| l@)
    }

    /// The index of the next raw line to read.
    pub closed spec fn pos_spec(&self) -> int {
        self.pos as int
    }

    /// The current statement.
    pub closed spec fn cur(&self) -> Seq<char> {
        self.current_line@
    }

    /// The one-based number of the raw line the current statement came
    /// from.
    pub closed spec fn line_no(&self) -> int {
        self.current_line_number as int
    }

    /// The cursor stays within the source and the line counter tracks it.
    pub closed spec fn wf(&self) -> bool {
        &&& self.pos <= self.lines@.len()
        &&& self.lines@.len() <= u32::MAX
        &&& self.current_line_number == self.pos
    }

    /// A scanner over an in-memory source, positioned at its start.
    pub fn new(lines: Vec<String>) -> (p: Parser)
        requires
            lines@.len() <= u32::MAX,
        ensures
            p.wf(),
            p.lines_view() == lines@.map_values(|l: String| l@),
            p.pos_spec() == 0,
            p.cur() == Seq::<char>::empty(),
    {
        Parser { lines, pos: 0, current_line: String::new(), current_line_number: 0 }
    }

    /// Rewinds the scanner to the start of the source.
    pub fn reset(&mut self)
        requires
            old(self).wf(),
        ensures
            final(self).wf(),
            final(self).lines_view() == old(self).lines_view(),
            final(self).pos_spec() == 0,
            final(self).cur() == Seq::<char>::empty(),
    {
        self.pos = 0;
        self.current_line_number = 0;
        self.current_line = String::new();
    }

    /// Reads forward to the next statement. Returns how many raw lines
    /// were consumed; zero means the source is exhausted.
    #[verifier::rlimit(60)]
    pub fn advance(&mut self) -> (r: Result<u32, AssemblyError>)
        requires
            old(self).wf(),
        ensures
            final(self).wf(),
            final(self).lines_view() == old(self).lines_view(),
            ({
                let rem = stmts_from(old(self).lines_view(), old(self).pos_spec());
                if rem.len() == 0 {
                    &&& r == Ok::<u32, AssemblyError>(0)
                    &&& final(self).pos_spec() == old(self).lines_view().len()
                    &&& final(self).cur() == Seq::<char>::empty()
                    &&& stmts_from(final(self).lines_view(), final(self).pos_spec()) =~= Seq::<(
                        Seq<char>,
                        int,
                    )>::empty()
                } else {
                    &&& final(self).cur() == rem[0].0
                    &&& final(self).pos_spec() == rem[0].1
                    &&& final(self).line_no() == rem[0].1
                    &&& rem[0].1 > old(self).pos_spec()
                    &&& rem[0].1 <= old(self).lines_view().len()
                    &&& r == Ok::<u32, AssemblyError>((rem[0].1 - old(self).pos_spec()) as u32)
                    &&& stmts_from(final(self).lines_view(), final(self).pos_spec()) == rem.skip(1)
                }
            }),
    {
        self.current_line = String::new();
        let start = self.pos;
        let n = self.lines.len();
        loop
            invariant
                self.wf(),
                n == self.lines@.len(),
                start == old(self).pos_spec(),
                old(self).wf(),
                start <= self.pos <= n,
                self.lines_view() == old(self).lines_view(),
                self.cur() == Seq::<char>::empty(),
                stmts_from(self.lines_view(), start as int) == stmts_from(
                    self.lines_view(),
                    self.pos as int,
                ),
            decreases n - self.pos,
        {
            if self.pos == n {
                proof {
                    assert(stmts_from(self.lines_view(), n as int) =~= Seq::<(
                        Seq<char>,
                        int,
                    )>::empty());
                }
                return Ok(0);
            }
            let st = strip_line(self.lines[self.pos].as_str());
            proof {
                assert(self.lines_view()[self.pos as int] == self.lines@[self.pos as int]@);
            }
            self.pos = self.pos + 1;
            self.current_line_number = self.current_line_number + 1;
            if st.unicode_len() > 0 {
                proof {
                    let lv = self.lines_view();
                    let p = self.pos - 1;
                    let rem = stmts_from(lv, start as int);
                    assert(stmts_from(lv, p) == seq![(stripped(lv[p]), p + 1)] + stmts_from(
                        lv,
                        p + 1,
                    ));
                    assert(rem == stmts_from(lv, p));
                    assert(rem.len() > 0);
                    assert(rem[0] == (st@, p + 1));
                    assert(rem.skip(1) =~= stmts_from(lv, p + 1));
                    assert(p + 1 <= lv.len());
                }
                self.current_line = st;
                return Ok((self.pos - start) as u32);
            }
            proof {
                let lv = self.lines_view();
                let p = self.pos - 1;
                assert(stmts_from(lv, p) == stmts_from(lv, p + 1));
            }
        }
    }

    /// Classifies the current statement.
    pub fn instruction_type(&self) -> (r: Instruction)
        ensures
            r == kind(self.cur()),
    {
        let s = self.current_line.as_str();
        let n = s.unicode_len();
        if n > 0 && s.get_char(0) == '@' {
            Instruction::A
        } else if n > 0 && s.get_char(0) == '(' && s.get_char(n - 1) == ')' {
            Instruction::L
        } else {
            Instruction::C
        }
    }

    /// The symbol of the current address or label instruction; asking it
    /// of a compute instruction is a structural error.
    pub fn symbol(&self) -> (r: Result<&str, AssemblyError>)
        ensures
            kind(self.cur()) != Instruction::C ==> (r matches Ok(sym) && sym@ == spec_symbol(
                self.cur(),
            )),
            kind(self.cur()) == Instruction::C ==> (r matches Err(e) && e
                matches AssemblyError::SymbolError(m, ln) && m@ == not_al_msg(self.cur()) && ln
                == self.line_no()),
    {
        let s = self.current_line.as_str();
        let n = s.unicode_len();
        match self.instruction_type() {
            Instruction::A => Ok(s.substring_char(1, n)),
            Instruction::L => Ok(s.substring_char(1, n - 1)),
            Instruction::C => Err(
                AssemblyError::SymbolError(
                    self.current_line.clone().concat(" is not an A or L instruction"),
                    self.current_line_number,
                ),
            ),
        }
    }

    fn find_first(&self, c: char) -> (r: Option<usize>)
        ensures
            match r {
                Some(i) => has_char(self.cur(), c) && i == first_idx(self.cur(), c) && i
                    < self.cur().len(),
                None => !has_char(self.cur(), c),
            },
    {
        let s = self.current_line.as_str();
        let n = s.unicode_len();
        let mut i: usize = 0;
        while i < n
            invariant
                n == s@.len(),
                s@ == self.cur(),
                0 <= i <= n,
                forall|j: int| 0 <= j < i ==> s@[j] != c,
            decreases n - i,
        {
            if s.get_char(i) == c {
                proof {
                    lemma_first_idx(s@, c, i as int);
                }
                return Some(i);
            }
            i += 1;
        }
        None
    }

    fn find_last(&self, c: char) -> (r: Option<usize>)
        ensures
            match r {
                Some(i) => has_char(self.cur(), c) && i == last_idx(self.cur(), c) && i
                    < self.cur().len(),
                None => !has_char(self.cur(), c),
            },
    {
        let s = self.current_line.as_str();
        let n = s.unicode_len();
        let mut i: usize = n;
        while i > 0
            invariant
                n == s@.len(),
                s@ == self.cur(),
                0 <= i <= n,
                forall|j: int| i <= j < n ==> s@[j] != c,
            decreases i,
        {
            if s.get_char(i - 1) == c {
                proof {
                    lemma_last_idx(s@, c, i - 1);
                }
                return Some(i - 1);
            }
            i -= 1;
        }
        None
    }

    fn code_error(&self, tail: &str) -> (e: AssemblyError)
        ensures
            e matches AssemblyError::CodeError(m, ln) && m@ == self.cur() + tail@ && ln
                == self.line_no(),
    {
        AssemblyError::CodeError(self.current_line.clone().concat(tail), self.current_line_number)
    }

    /// The 3-bit destination code of the current compute instruction; an
    /// unrecognized field, or a non-compute instruction, is a `CodeError`.
    pub fn dest(&self) -> (r: Result<u8, AssemblyError>)
        ensures
            kind(self.cur()) != Instruction::C ==> (r matches Err(e) && is_code_err(
                e,
                not_c_msg(self.cur()),
                self.line_no(),
            )),
            kind(self.cur()) == Instruction::C ==> match spec_dest_of(self.cur()) {
                Some(c) => r == Ok::<u8, AssemblyError>(c),
                None => (r matches Err(e) && is_code_err(
                    e,
                    bad_dest_msg(self.cur()),
                    self.line_no(),
                )),
            },
    {
        match self.instruction_type() {
            Instruction::C => {
                let s = self.current_line.as_str();
                let part = match self.find_first('=') {
                    Some(i) => Some(s.substring_char(0, i)),
                    None => None,
                };
                match code::dest(part) {
                    Ok(v) => Ok(v),
                    Err(_) => Err(self.code_error(" does not contain a valid dest mnemonic")),
                }
            },
            _ => Err(self.code_error(" is not a C instruction")),
        }
    }

    /// The 7-bit computation code of the current compute instruction; an
    /// unrecognized or missing field, or a non-compute instruction, is a
    /// `CodeError`.
    pub fn comp(&self) -> (r: Result<u16, AssemblyError>)
        ensures
            kind(self.cur()) != Instruction::C ==> (r matches Err(e) && is_code_err(
                e,
                not_c_msg(self.cur()),
                self.line_no(),
            )),
            kind(self.cur()) == Instruction::C ==> match spec_comp_of(self.cur()) {
                Some(c) => r == Ok::<u16, AssemblyError>(c),
                None => (r matches Err(e) && is_code_err(
                    e,
                    bad_comp_msg(self.cur()),
                    self.line_no(),
                )),
            },
    {
        match self.instruction_type() {
            Instruction::C => {
                let s = self.current_line.as_str();
                let n = s.unicode_len();
                let i = match self.find_first('=') {
                    Some(i) => i + 1,
                    None => 0,
                };
                let j = match self.find_first(';') {
                    Some(j) => j,
                    None => n,
                };
                let part = if i <= j {
                    Some(s.substring_char(i, j))
                } else {
                    None
                };
                match code::comp(part) {
                    Ok(v) => Ok(v),
                    Err(_) => Err(self.code_error(" does not contain a valid comp mnemonic")),
                }
            },
            _ => Err(self.code_error(" is not a C instruction")),
        }
    }

    /// The 3-bit jump code of the current compute instruction; an
    /// unrecognized field, or a non-compute instruction, is a `CodeError`.
    pub fn jump(&self) -> (r: Result<u8, AssemblyError>)
        ensures
            kind(self.cur()) != Instruction::C ==> (r matches Err(e) && is_code_err(
                e,
                not_c_msg(self.cur()),
                self.line_no(),
            )),
            kind(self.cur()) == Instruction::C ==> match spec_jump_of(self.cur()) {
                Some(c) => r == Ok::<u8, AssemblyError>(c),
                None => (r matches Err(e) && is_code_err(
                    e,
                    bad_jump_msg(self.cur()),
                    self.line_no(),
                )),
            },
    {
        match self.instruction_type() {
            Instruction::C => {
                let s = self.current_line.as_str();
                let n = s.unicode_len();
                let part = match self.find_last(';') {
                    Some(i) => Some(s.substring_char(i + 1, n)),
                    None => None,
                };
                match code::jump(part) {
                    Ok(v) => Ok(v),
                    Err(_) => Err(self.code_error(" does not contain a valid jump mnemonic")),
                }
            },
            _ => Err(self.code_error(" is not a C instruction")),
        }
    }

    /// The 16 binary digits of the current compute instruction. Every
    /// failed field is reported, combined into one error, rather than
    /// only the first.
    pub fn binary_string(&self) -> (r: Result<String, AssemblyError>)
        ensures
            kind(self.cur()) != Instruction::C ==> (r matches Err(e) && combined_errors_for(
                e,
                self.cur(),
                self.line_no(),
            )),
            kind(self.cur()) == Instruction::C ==> match spec_cword(self.cur()) {
                Some(w) => (r matches Ok(b) && b@ == bin16(w)),
                None => (r matches Err(e) && combined_errors_for(e, self.cur(), self.line_no())),
            },
    {
        let mut errors: Vec<AssemblyError> = Vec::new();
        let dest_int: u8 = match self.dest() {
            Ok(i) => i,
            Err(e) => {
                errors.push(e);
                0
            },
        };
        let comp_int: u16 = match self.comp() {
            Ok(i) => i,
            Err(e) => {
                errors.push(e);
                0
            },
        };
        let jump_int: u8 = match self.jump() {
            Ok(i) => i,
            Err(e) => {
                errors.push(e);
                0
            },
        };
        if errors.len() > 0 {
            return Err(AssemblyError::CombinedErrors(errors));
        }
        let word: u16 = 0b1110000000000000u16 | (comp_int << 6u16) | ((dest_int as u16) << 3u16) | (
        jump_int as u16);
        Ok(to_bin16(word))
    }
}

} // verus!
