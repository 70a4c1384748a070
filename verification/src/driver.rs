//! The assembly driver: two passes over the scanner produce the binary
//! words, resolving labels forward and allocating variables on first use.

use vstd::prelude::*;
use vstd::pervasive::unreached;

use crate::errors::AssemblyError;
use crate::instruction_enum::Instruction;
use crate::parser::{combined_errors_for, kind, lemma_stmts_from_len, spec_cword, spec_symbol,
    stmts_from, Parser};
use crate::predefined_symbols::{predefined_table, spec_predefined};
use crate::symbol_table::SymbolTable;
use crate::text::{bin16, dec_value, dec_value_checked, is_numeric, is_numeric_str, stripped,
    strip_line, to_bin16};

verus! {

/// What pass 1 produces: the label bindings added to `t`, and the final
/// instruction address counter.
pub open spec fn spec_pass1(stmts: Seq<(Seq<char>, int)>, t: Map<Seq<char>, u16>, a: u16) -> (
    Map<Seq<char>, u16>,
    u16,
)
    decreases stmts.len(),
{
    if stmts.len() == 0 {
        (t, a)
    } else {
        let s = stmts[0].0;
        if kind(s) is L {
            let sym = spec_symbol(s);
            let t2 = if t.contains_key(sym) {
                t
            } else {
                t.insert(sym, a)
            };
            spec_pass1(stmts.skip(1), t2, a)
        } else {
            spec_pass1(stmts.skip(1), t, (a + 1) as u16)
        }
    }
}

/// The failed compute statement and its raw line number: what determines
/// the combined error the driver reports.
pub ghost struct FieldFailure {
    pub stmt: Seq<char>,
    pub line: int,
}

/// What pass 2 produces on success: the emitted words, the final symbol
/// bindings, and the count of allocated variables.
pub open spec fn spec_pass2(stmts: Seq<(Seq<char>, int)>, t: Map<Seq<char>, u16>, nv: u16) -> Result<
    (Seq<Seq<char>>, Map<Seq<char>, u16>, u16),
    FieldFailure,
>
    decreases stmts.len(),
{
    if stmts.len() == 0 {
        Ok((Seq::empty(), t, nv))
    } else {
        let s = stmts[0].0;
        let rest = stmts.skip(1);
        if kind(s) is L {
            spec_pass2(rest, t, nv)
        } else if kind(s) is A {
            let sym = spec_symbol(s);
            if is_numeric_str(sym) {
                match spec_pass2(rest, t, nv) {
                    Ok(p) => Ok((seq![bin16(dec_value(sym) as u16)] + p.0, p.1, p.2)),
                    Err(f) => Err(f),
                }
            } else if t.contains_key(sym) {
                match spec_pass2(rest, t, nv) {
                    Ok(p) => Ok((seq![bin16(t[sym])] + p.0, p.1, p.2)),
                    Err(f) => Err(f),
                }
            } else {
                let addr = (16 + nv) as u16;
                match spec_pass2(rest, t.insert(sym, addr), (nv + 1) as u16) {
                    Ok(p) => Ok((seq![bin16(addr)] + p.0, p.1, p.2)),
                    Err(f) => Err(f),
                }
            }
        } else {
            match spec_cword(s) {
                Some(w) => match spec_pass2(rest, t, nv) {
                    Ok(p) => Ok((seq![bin16(w)] + p.0, p.1, p.2)),
                    Err(f) => Err(f),
                },
                None => Err(FieldFailure { stmt: s, line: stmts[0].1 }),
            }
        }
    }
}

/// A numeric address literal stays within the 16-bit range.
pub open spec fn fits16(s: Seq<char>) -> bool {
    kind(s) is A && is_numeric_str(spec_symbol(s)) ==> dec_value(spec_symbol(s)) < 65536
}

/// Every numeric address literal of the program fits a 16-bit word.
pub open spec fn a_literals_fit(stmts: Seq<(Seq<char>, int)>) -> bool {
    forall|j: int| 0 <= j < stmts.len() ==> fits16(#[trigger] stmts[j].0)
}

/// The sources the assembler accepts: the line count fits the scanner's
/// counter, the program fits the 16-bit address space alongside the
/// sixteen predefined registers, and every numeric address literal fits
/// a word. Sources outside these bounds have no 16-bit encoding.
pub open spec fn source_ok(lines: Seq<Seq<char>>) -> bool {
    &&& lines.len() <= u32::MAX
    &&& stmts_from(lines, 0).len() + 16 <= 65536
    &&& a_literals_fit(stmts_from(lines, 0))
}

/// The outcome of assembling a source: its emitted words, or the failure
/// that stopped it.
pub open spec fn spec_assemble(lines: Seq<Seq<char>>) -> Result<Seq<Seq<char>>, FieldFailure> {
    let stmts = stmts_from(lines, 0);
    let t1 = spec_pass1(stmts, spec_predefined(), 0).0;
    match spec_pass2(stmts, t1, 0) {
        Ok(p) => Ok(p.0),
        Err(f) => Err(f),
    }
}

/// Whether a source satisfies `source_ok`; callers check this before
/// assembling, and abort as the standalone tool does when it fails.
pub fn source_within_limits(lines: &Vec<String>) -> (r: bool)
    ensures
        r == source_ok(lines@.map_values(|l: String| l@)),
{
    let ghost lv = lines@.map_values(|l: String| l@);
    let ghost all = stmts_from(lv, 0);
    if lines.len() > u32::MAX as usize {
        return false;
    }
    let mut count: usize = 0;
    let mut i: usize = 0;
    proof {
        lemma_stmts_from_len(lv, 0);
    }
    while i < lines.len()
        invariant
            lv == lines@.map_values(|l: String| l@),
            all == stmts_from(lv, 0),
            all.len() <= lines@.len(),
            lines@.len() <= u32::MAX,
            0 <= i <= lines@.len(),
            0 <= count <= all.len(),
            all.skip(count as int) == stmts_from(lv, i as int),
            a_literals_fit(all.take(count as int)),
        decreases lines@.len() - i,
    {
        let st = strip_line(lines[i].as_str());
        let s = st.as_str();
        let n = s.unicode_len();
        proof {
            assert(lv[i as int] == lines@[i as int]@);
        }
        if n > 0 {
            proof {
                assert(stmts_from(lv, i as int) == seq![(stripped(lv[i as int]), i + 1)]
                    + stmts_from(lv, i + 1));
                assert(all.skip(count as int)[0] == all[count as int]);
                assert(all[count as int] == (st@, i + 1));
                assert(all.skip(count as int).skip(1) =~= all.skip(count + 1));
                assert(stmts_from(lv, i as int).skip(1) =~= stmts_from(lv, i + 1));
            }
            if s.get_char(0) == '@' {
                let sym = s.substring_char(1, n);
                proof {
                    assert(sym@ =~= st@.skip(1));
                    assert(kind(st@) is A);
                    assert(spec_symbol(st@) == st@.skip(1));
                }
                if is_numeric(sym) {
                    match dec_value_checked(sym) {
                        Some(_) => {
                            proof {
                                assert(fits16(st@));
                            }
                        },
                        None => {
                            proof {
                                assert(!fits16(all[count as int].0));
                                assert(!a_literals_fit(all)) by {
                                    if a_literals_fit(all) {
                                        assert(fits16(all[count as int].0));
                                    }
                                }
                            }
                            return false;
                        },
                    }
                } else {
                    proof {
                        assert(!is_numeric_str(spec_symbol(st@)));
                        assert(fits16(st@));
                    }
                }
            } else {
                proof {
                    assert(st@[0] != '@');
                    assert(!(kind(st@) is A));
                    assert(fits16(st@));
                }
            }
            proof {
                assert forall|j: int| 0 <= j < count + 1 implies fits16(
                    #[trigger] all.take(count + 1)[j].0,
                ) by {
                    if j < count {
                        assert(all.take(count + 1)[j] == all.take(count as int)[j]);
                        assert(fits16(all.take(count as int)[j].0));
                    } else {
                        assert(all.take(count + 1)[j] == all[count as int]);
                        assert(all[count as int].0 == st@);
                    }
                }
            }
            count += 1;
        } else {
            proof {
                assert(stmts_from(lv, i as int) == stmts_from(lv, i + 1));
            }
        }
        i += 1;
    }
    proof {
        assert(stmts_from(lv, lines@.len() as int) =~= Seq::<(Seq<char>, int)>::empty());
        assert(all.skip(count as int).len() == 0);
        assert(count == all.len());
        assert(all.take(count as int) =~= all);
    }
    count <= 65520
}

/// Assembles an in-memory source: pass 1 binds each label to the address
/// of the instruction that follows it, pass 2 resolves symbols, allocates
/// variables from address 16 upward, and emits one 16-digit binary word
/// per address or compute instruction, in source order. The first failed
/// compute statement stops the run with its combined field errors.
pub fn assemble(lines: Vec<String>) -> (r: Result<Vec<String>, AssemblyError>)
    requires
        source_ok(lines@.map_values(|l: String| l@)),
    ensures
        ({
            let sr = spec_assemble(lines@.map_values(|l: String| l@));
            match sr {
                Ok(outs) => r matches Ok(v) && v@.map_values(|o: String| o@) == outs,
                Err(f) => r matches Err(e) && combined_errors_for(e, f.stmt, f.line),
            }
        }),
{
    let ghost lv = lines@.map_values(|l: String| l@);
    let ghost all = stmts_from(lv, 0);
    let mut parser = Parser::new(lines);
    let mut table = predefined_table();
    let mut addr: u16 = 0;
    let ghost mut k: int = 0;
    proof {
        assert(all.skip(0) =~= all);
    }
    loop
        invariant
            lv == lines@.map_values(|l: String| l@),
            parser.wf(),
            parser.lines_view() == lv,
            table.wf(),
            all == stmts_from(lv, 0),
            lv.len() <= u32::MAX,
            all.len() + 16 <= 65536,
            0 <= k <= all.len(),
            addr <= k,
            stmts_from(lv, parser.pos_spec()) == all.skip(k),
            spec_pass1(all, spec_predefined(), 0) == spec_pass1(all.skip(k), table@, addr),
        ensures
            parser.wf(),
            parser.lines_view() == lv,
            table.wf(),
            spec_pass1(all, spec_predefined(), 0) == (table@, addr),
        decreases all.len() - k,
    {
        let lines_read = match parser.advance() {
            Ok(n) => n,
            Err(_) => unreached(),
        };
        if lines_read == 0 {
            proof {
                assert(all.skip(k) =~= Seq::<(Seq<char>, int)>::empty());
            }
            break ;
        }
        let ghost rem = all.skip(k);
        let ghost t_old = table@;
        let ghost a_old = addr;
        proof {
            assert(rem.len() > 0);
            assert(parser.cur() == rem[0].0);
            assert(rem.skip(1) =~= all.skip(k + 1));
        }
        match parser.instruction_type() {
            Instruction::L => {
                let sym = match parser.symbol() {
                    Ok(s) => s,
                    Err(_) => unreached(),
                };
                if !table.contains(sym) {
                    table.add_entry(sym.to_owned(), addr);
                }
            },
            _ => {
                proof {
                    assert(addr < all.len());
                }
                addr = addr + 1;
            },
        }
        proof {
            assert(spec_pass1(rem, t_old, a_old) == spec_pass1(all.skip(k + 1), table@, addr));
            k = k + 1;
        }
    }
    let ghost t1 = table@;
    parser.reset();
    let mut out: Vec<String> = Vec::new();
    let mut nvars: u16 = 0;
    proof {
        k = 0;
        assert(all.skip(0) =~= all);
        assert(out@.map_values(|o: String| o@) =~= Seq::<Seq<char>>::empty());
        match spec_pass2(all, t1, 0) {
            Ok(p) => {
                assert(out@.map_values(|o: String| o@) + p.0 =~= p.0);
            },
            Err(_) => {},
        }
    }
    loop
        invariant
            lv == lines@.map_values(|l: String| l@),
            parser.wf(),
            parser.lines_view() == lv,
            table.wf(),
            all == stmts_from(lv, 0),
            lv.len() <= u32::MAX,
            all.len() + 16 <= 65536,
            a_literals_fit(all),
            spec_pass1(all, spec_predefined(), 0).0 == t1,
            0 <= k <= all.len(),
            nvars <= k,
            stmts_from(lv, parser.pos_spec()) == all.skip(k),
            match spec_pass2(all.skip(k), table@, nvars) {
                Ok(p) => spec_pass2(all, t1, 0) == Ok::<
                    (Seq<Seq<char>>, Map<Seq<char>, u16>, u16),
                    FieldFailure,
                >((out@.map_values(|o: String| o@) + p.0, p.1, p.2)),
                Err(f) => spec_pass2(all, t1, 0) == Err::<
                    (Seq<Seq<char>>, Map<Seq<char>, u16>, u16),
                    FieldFailure,
                >(f),
            },
        ensures
            spec_pass2(all, t1, 0) == Ok::<
                (Seq<Seq<char>>, Map<Seq<char>, u16>, u16),
                FieldFailure,
            >((out@.map_values(|o: String| o@), table@, nvars)),
        decreases all.len() - k,
    {
        let lines_read = match parser.advance() {
            Ok(n) => n,
            Err(_) => unreached(),
        };
        if lines_read == 0 {
            proof {
                assert(all.skip(k) =~= Seq::<(Seq<char>, int)>::empty());
                assert(out@.map_values(|o: String| o@) + Seq::<Seq<char>>::empty()
                    =~= out@.map_values(|o: String| o@));
            }
            break ;
        }
        let ghost rem = all.skip(k);
        let ghost t_old = table@;
        let ghost nv_old = nvars;
        let ghost out_old = out@;
        let ghost mut emitted: Seq<Seq<char>> = Seq::empty();
        proof {
            assert(rem.len() > 0);
            assert(parser.cur() == rem[0].0);
            assert(rem[0] == all[k]);
            assert(fits16(all[k].0));
            assert(rem.skip(1) =~= all.skip(k + 1));
        }
        match parser.instruction_type() {
            Instruction::L => {},
            Instruction::A => {
                let sym = match parser.symbol() {
                    Ok(s) => s,
                    Err(_) => unreached(),
                };
                if is_numeric(sym) {
                    let v = match dec_value_checked(sym) {
                        Some(v) => v,
                        None => unreached(),
                    };
                    out.push(to_bin16(v));
                    proof {
                        emitted = seq![bin16(v)];
                    }
                } else {
                    if !table.contains(sym) {
                        proof {
                            assert(16 + nvars <= 65535);
                        }
                        table.add_entry(sym.to_owned(), 16 + nvars);
                        nvars = nvars + 1;
                    }
                    let a = match table.get_address(sym) {
                        Some(a) => a,
                        None => unreached(),
                    };
                    out.push(to_bin16(a));
                    proof {
                        emitted = seq![bin16(a)];
                    }
                }
            },
            Instruction::C => {
                match parser.binary_string() {
                    Ok(b) => {
                        proof {
                            emitted = seq![b@];
                        }
                        out.push(b);
                    },
                    Err(e) => {
                        proof {
                            assert(spec_pass2(rem, t_old, nv_old) == Err::<
                                (Seq<Seq<char>>, Map<Seq<char>, u16>, u16),
                                FieldFailure,
                            >(FieldFailure { stmt: rem[0].0, line: rem[0].1 }));
                        }
                        return Err(e);
                    },
                }
            },
        }
        proof {
            assert(out@.map_values(|o: String| o@) =~= out_old.map_values(|o: String| o@)
                + emitted);
            match spec_pass2(all.skip(k + 1), table@, nvars) {
                Ok(p) => {
                    assert(spec_pass2(rem, t_old, nv_old) == Ok::<
                        (Seq<Seq<char>>, Map<Seq<char>, u16>, u16),
                        FieldFailure,
                    >((emitted + p.0, p.1, p.2)));
                    assert(out_old.map_values(|o: String| o@) + (emitted + p.0) =~= out@.map_values(
                        |o: String| o@,
                    ) + p.0);
                },
                Err(f) => {
                    assert(spec_pass2(rem, t_old, nv_old) == Err::<
                        (Seq<Seq<char>>, Map<Seq<char>, u16>, u16),
                        FieldFailure,
                    >(f));
                },
            }
            k = k + 1;
        }
    }
    Ok(out)
}

/// How many statements of a program are address or compute instructions:
/// exactly the ones that occupy an instruction address.
pub open spec fn count_non_label(stmts: Seq<(Seq<char>, int)>) -> int
    decreases stmts.len(),
{
    if stmts.len() == 0 {
        0
    } else {
        (if kind(stmts[0].0) is L {
            0int
        } else {
            1int
        }) + count_non_label(stmts.skip(1))
    }
}

proof fn lemma_count_non_label_bounds(stmts: Seq<(Seq<char>, int)>)
    ensures
        0 <= count_non_label(stmts) <= stmts.len(),
    decreases stmts.len(),
{
    if stmts.len() > 0 {
        lemma_count_non_label_bounds(stmts.skip(1));
    }
}

/// The instruction address counter counts exactly the non-label
/// statements: after pass 1 it has grown by their number.
pub proof fn lemma_pass1_counter(stmts: Seq<(Seq<char>, int)>, t: Map<Seq<char>, u16>, a: u16)
    requires
        a + count_non_label(stmts) <= u16::MAX,
    ensures
        spec_pass1(stmts, t, a).1 == a + count_non_label(stmts),
    decreases stmts.len(),
{
    lemma_count_non_label_bounds(stmts);
    if stmts.len() > 0 {
        lemma_count_non_label_bounds(stmts.skip(1));
        if kind(stmts[0].0) is L {
            let sym = spec_symbol(stmts[0].0);
            let t2 = if t.contains_key(sym) {
                t
            } else {
                t.insert(sym, a)
            };
            lemma_pass1_counter(stmts.skip(1), t2, a);
        } else {
            lemma_pass1_counter(stmts.skip(1), t, (a + 1) as u16);
        }
    }
}

/// A statement the round-trip law admits: a numeric address instruction
/// or a compute instruction all of whose fields are defined.
pub open spec fn stmt_clean(s: Seq<char>) -> bool {
    ||| (kind(s) is A && is_numeric_str(spec_symbol(s)))
    ||| (kind(s) is C && spec_cword(s) is Some)
}

proof fn lemma_clean_source_pass2_ok(stmts: Seq<(Seq<char>, int)>, t: Map<Seq<char>, u16>, nv: u16)
    requires
        forall|j: int| 0 <= j < stmts.len() ==> stmt_clean(#[trigger] stmts[j].0),
    ensures
        spec_pass2(stmts, t, nv) is Ok,
    decreases stmts.len(),
{
    if stmts.len() > 0 {
        assert(stmt_clean(stmts[0].0));
        let rest = stmts.skip(1);
        assert forall|j: int| 0 <= j < rest.len() implies stmt_clean(#[trigger] rest[j].0) by {
            assert(rest[j] == stmts[j + 1]);
        }
        lemma_clean_source_pass2_ok(rest, t, nv);
    }
}

/// Round trip: a source whose statements are only numeric address
/// instructions and fully legal compute instructions assembles without
/// error, and pass 1 leaves the instruction address counter at the
/// number of its statements.
pub proof fn lemma_clean_source_round_trip(lines: Seq<Seq<char>>)
    requires
        source_ok(lines),
        forall|j: int|
            0 <= j < stmts_from(lines, 0).len() ==> stmt_clean(
                #[trigger] stmts_from(lines, 0)[j].0,
            ),
    ensures
        spec_assemble(lines) is Ok,
        spec_pass1(stmts_from(lines, 0), spec_predefined(), 0).1 == count_non_label(
            stmts_from(lines, 0),
        ),
{
    let stmts = stmts_from(lines, 0);
    lemma_count_non_label_bounds(stmts);
    lemma_pass1_counter(stmts, spec_predefined(), 0);
    lemma_clean_source_pass2_ok(stmts, spec_pass1(stmts, spec_predefined(), 0).0, 0);
}

/// A symbol bound before pass 1 keeps its address: pass 1 never rebinds.
pub proof fn lemma_pass1_preserves_binding(
    stmts: Seq<(Seq<char>, int)>,
    t: Map<Seq<char>, u16>,
    a: u16,
    key: Seq<char>,
)
    requires
        t.contains_key(key),
    ensures
        spec_pass1(stmts, t, a).0.contains_key(key),
        spec_pass1(stmts, t, a).0[key] == t[key],
    decreases stmts.len(),
{
    if stmts.len() > 0 {
        if kind(stmts[0].0) is L {
            let sym = spec_symbol(stmts[0].0);
            let t2 = if t.contains_key(sym) {
                t
            } else {
                t.insert(sym, a)
            };
            lemma_pass1_preserves_binding(stmts.skip(1), t2, a, key);
        } else {
            lemma_pass1_preserves_binding(stmts.skip(1), t, (a + 1) as u16, key);
        }
    }
}

/// Forward reference: the first declaration of a label binds it to the
/// address of the instruction that follows it — the count of non-label
/// statements before the declaration.
pub proof fn lemma_label_binds_next_address(
    stmts: Seq<(Seq<char>, int)>,
    t: Map<Seq<char>, u16>,
    a: u16,
    i: int,
)
    requires
        0 <= i < stmts.len(),
        kind(stmts[i].0) is L,
        !t.contains_key(spec_symbol(stmts[i].0)),
        forall|j: int|
            0 <= j < i ==> !(kind(#[trigger] stmts[j].0) is L && spec_symbol(stmts[j].0)
                == spec_symbol(stmts[i].0)),
        a + count_non_label(stmts.take(i)) <= u16::MAX,
    ensures
        spec_pass1(stmts, t, a).0.contains_key(spec_symbol(stmts[i].0)),
        spec_pass1(stmts, t, a).0[spec_symbol(stmts[i].0)] == a + count_non_label(stmts.take(i)),
    decreases i,
{
    let sym = spec_symbol(stmts[i].0);
    if i == 0 {
        assert(stmts.take(0) =~= Seq::<(Seq<char>, int)>::empty());
        lemma_pass1_preserves_binding(stmts.skip(1), t.insert(sym, a), a, sym);
    } else {
        let rest = stmts.skip(1);
        assert(rest[i - 1] == stmts[i]);
        assert forall|j: int|
            0 <= j < i - 1 implies !(kind(#[trigger] rest[j].0) is L && spec_symbol(rest[j].0)
            == sym) by {
            assert(rest[j] == stmts[j + 1]);
        }
        assert(stmts.take(i).skip(1) =~= rest.take(i - 1));
        assert(stmts.take(i)[0] == stmts[0]);
        assert(count_non_label(stmts.take(i)) == (if kind(stmts[0].0) is L {
            0int
        } else {
            1int
        }) + count_non_label(rest.take(i - 1)));
        lemma_count_non_label_bounds(rest.take(i - 1));
        if kind(stmts[0].0) is L {
            let sym0 = spec_symbol(stmts[0].0);
            assert(sym0 != sym);
            let t2 = if t.contains_key(sym0) {
                t
            } else {
                t.insert(sym0, a)
            };
            assert(!t2.contains_key(sym));
            lemma_label_binds_next_address(rest, t2, a, i - 1);
        } else {
            lemma_label_binds_next_address(rest, t, (a + 1) as u16, i - 1);
        }
    }
}

/// A symbol bound before pass 2 keeps its address: pass 2 never rebinds.
pub proof fn lemma_pass2_preserves_binding(
    stmts: Seq<(Seq<char>, int)>,
    t: Map<Seq<char>, u16>,
    nv: u16,
    key: Seq<char>,
)
    requires
        t.contains_key(key),
    ensures
        match spec_pass2(stmts, t, nv) {
            Ok(p) => p.1.contains_key(key) && p.1[key] == t[key],
            Err(_) => true,
        },
    decreases stmts.len(),
{
    if stmts.len() > 0 {
        let s = stmts[0].0;
        let rest = stmts.skip(1);
        let sym = spec_symbol(s);
        if kind(s) is L {
            lemma_pass2_preserves_binding(rest, t, nv, key);
        } else if kind(s) is A {
            if is_numeric_str(sym) || t.contains_key(sym) {
                lemma_pass2_preserves_binding(rest, t, nv, key);
            } else {
                lemma_pass2_preserves_binding(
                    rest,
                    t.insert(sym, (16 + nv) as u16),
                    (nv + 1) as u16,
                    key,
                );
            }
        } else {
            if spec_cword(s) is Some {
                lemma_pass2_preserves_binding(rest, t, nv, key);
            }
        }
    }
}

/// The distinct new variable symbols of a run: first uses of non-numeric
/// address symbols not yet bound, in source order.
pub open spec fn new_vars(stmts: Seq<(Seq<char>, int)>, bound: Set<Seq<char>>) -> Seq<Seq<char>>
    decreases stmts.len(),
{
    if stmts.len() == 0 {
        Seq::empty()
    } else {
        let s = stmts[0].0;
        let sym = spec_symbol(s);
        if kind(s) is A && !is_numeric_str(sym) && !bound.contains(sym) {
            seq![sym] + new_vars(stmts.skip(1), bound.insert(sym))
        } else {
            new_vars(stmts.skip(1), bound)
        }
    }
}

/// Variable allocation: when a run succeeds, its `j`-th distinct new
/// variable is bound to address `16 + nv + j` — one past the previous
/// one, monotonically, regardless of where it appears in the source.
pub proof fn lemma_variable_allocation(
    stmts: Seq<(Seq<char>, int)>,
    t: Map<Seq<char>, u16>,
    nv: u16,
    j: int,
)
    requires
        spec_pass2(stmts, t, nv) is Ok,
        0 <= j < new_vars(stmts, t.dom()).len(),
        16 + nv + new_vars(stmts, t.dom()).len() <= 65536,
    ensures
        match spec_pass2(stmts, t, nv) {
            Ok(p) => p.1.contains_key(new_vars(stmts, t.dom())[j]) && p.1[new_vars(
                stmts,
                t.dom(),
            )[j]] == 16 + nv + j,
            Err(_) => true,
        },
    decreases stmts.len(),
{
    let vs = new_vars(stmts, t.dom());
    let s = stmts[0].0;
    let rest = stmts.skip(1);
    let sym = spec_symbol(s);
    if kind(s) is A && !is_numeric_str(sym) && !t.dom().contains(sym) {
        assert(!t.contains_key(sym));
        let addr = (16 + nv) as u16;
        let t2 = t.insert(sym, addr);
        assert(t2.dom() =~= t.dom().insert(sym));
        assert(vs == seq![sym] + new_vars(rest, t.dom().insert(sym)));
        let vs2 = new_vars(rest, t2.dom());
        assert(vs2 =~= vs.skip(1));
        if j == 0 {
            lemma_pass2_preserves_binding(rest, t2, (nv + 1) as u16, sym);
            assert(vs[0] == sym);
        } else {
            assert(vs[j] == vs2[j - 1]);
            lemma_variable_allocation(rest, t2, (nv + 1) as u16, j - 1);
        }
    } else {
        assert(new_vars(rest, t.dom()) == vs);
        if kind(s) is L {
            lemma_variable_allocation(rest, t, nv, j);
        } else if kind(s) is A {
            lemma_variable_allocation(rest, t, nv, j);
        } else {
            assert(spec_cword(s) is Some);
            lemma_variable_allocation(rest, t, nv, j);
        }
    }
}

/// Idempotence: the assembled output is a function of the source alone,
/// so two runs over the same lines agree byte for byte.
pub proof fn lemma_assemble_deterministic(
    lines: Seq<Seq<char>>,
    r1: Result<Seq<Seq<char>>, FieldFailure>,
    r2: Result<Seq<Seq<char>>, FieldFailure>,
)
    requires
        r1 == spec_assemble(lines),
        r2 == spec_assemble(lines),
    ensures
        r1 == r2,
{
}

} // verus!
