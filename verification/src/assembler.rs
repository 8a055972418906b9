//! The assembler: a resolver pass that maps label and procedure names to
//! absolute program positions, and the per-line encoder that turns each
//! tokenized line into exactly one instruction.  Blank positions (label
//! and `End` lines) encode as `Noop` so that every recorded position stays
//! valid; a `Proc` line lowers to a jump over its body and `Call` targets
//! the line after the declaration.

use vstd::prelude::*;
use vstd::string::StringExecFns;
use crate::instr::{AsmError, Instruction};
use crate::numeral::{spec_parse_i64, spec_parse_usize, parse_i64, parse_usize};

verus! {

/// The label table as the specification sees it: name and position, in
/// declaration order.
pub open spec fn labels_view(s: Seq<(String, usize)>) -> Seq<(Seq<char>, int)> {
    s.map_values(|e: (String, usize)| (e.0@, e.1 as int))
}

/// The procedure table as the specification sees it: name, declaration
/// position, and position immediately after the terminator.
pub open spec fn procs_view(s: Seq<(String, (usize, usize))>) -> Seq<(Seq<char>, (int, int))> {
    s.map_values(|e: (String, (usize, usize))| (e.0@, (e.1.0 as int, e.1.1 as int)))
}

/// Look a name up in the label table; the latest declaration wins.
pub open spec fn lookup_label(entries: Seq<(Seq<char>, int)>, name: Seq<char>) -> Option<int>
    decreases entries.len(),
{
    if entries.len() == 0 {
        None
    } else if entries.last().0 == name {
        Some(entries.last().1)
    } else {
        lookup_label(entries.drop_last(), name)
    }
}

/// Look a name up in the procedure table; the latest declaration wins.
pub open spec fn lookup_proc(entries: Seq<(Seq<char>, (int, int))>, name: Seq<char>) -> Option<
    (int, int),
>
    decreases entries.len(),
{
    if entries.len() == 0 {
        None
    } else if entries.last().0 == name {
        Some(entries.last().1)
    } else {
        lookup_proc(entries.drop_last(), name)
    }
}

/// True of the tokens of a `label` declaration line.
pub open spec fn line_label(line: Seq<Seq<char>>, i: int) -> Option<(Seq<char>, int)> {
    if line.len() == 2 && line[0] == "label"@ {
        Some((line[1], i))
    } else {
        None
    }
}

/// The label table of the first `i` lines, in declaration order.
pub open spec fn spec_labels(lines: Seq<Seq<Seq<char>>>, i: int) -> Seq<(Seq<char>, int)>
    decreases i,
{
    if i <= 0 {
        Seq::empty()
    } else {
        let rest = spec_labels(lines, i - 1);
        match line_label(lines[i - 1], i - 1) {
            Some(e) => rest.push(e),
            None => rest,
        }
    }
}

/// True of the tokens of an `End` line.
pub open spec fn is_end_line(line: Seq<Seq<char>>) -> bool {
    line.len() == 1 && line[0] == "End"@
}

/// True of the tokens of a `Proc` declaration line.
pub open spec fn is_proc_line(line: Seq<Seq<char>>) -> bool {
    line.len() == 2 && line[0] == "Proc"@
}

/// The position of the first `End` line at or after `j`.
pub open spec fn find_end(lines: Seq<Seq<Seq<char>>>, j: int) -> Option<int>
    decreases lines.len() - j,
{
    if j < 0 || j >= lines.len() {
        None
    } else if is_end_line(lines[j]) {
        Some(j)
    } else {
        find_end(lines, j + 1)
    }
}

/// A found terminator lies at or after the scan start, within the lines,
/// and is an `End` line.
pub proof fn lemma_find_end_bounds(lines: Seq<Seq<Seq<char>>>, j: int)
    requires
        find_end(lines, j) is Some,
    ensures
        j <= find_end(lines, j)->Some_0 < lines.len(),
        is_end_line(lines[find_end(lines, j)->Some_0]),
    decreases lines.len() - j,
{
    if !(j < 0 || j >= lines.len()) && !is_end_line(lines[j]) {
        lemma_find_end_bounds(lines, j + 1);
    }
}

/// The procedure table found by one scan from position `j` on: each
/// `Proc` line maps its name to its own position and the position after
/// the first `End` line that follows; the scan resumes after that `End`,
/// so declarations inside a body are not registered.  A `Proc` with no
/// terminator fails the scan.
pub open spec fn spec_procs(lines: Seq<Seq<Seq<char>>>, j: int) -> Result<
    Seq<(Seq<char>, (int, int))>,
    AsmError,
>
    decreases lines.len() - j,
{
    if j < 0 || j >= lines.len() {
        Ok(Seq::empty())
    } else if is_proc_line(lines[j]) {
        match find_end(lines, j) {
            None => Err(AsmError::UnterminatedProc(j as usize)),
            Some(e) => {
                proof {
                    lemma_find_end_bounds(lines, j);
                }
                match spec_procs(lines, e + 1) {
                    Ok(rest) => Ok(seq![(lines[j][1], (j, e + 1))] + rest),
                    Err(err) => Err(err),
                }
            },
        }
    } else {
        match spec_procs(lines, j + 1) {
            Ok(rest) => Ok(rest),
            Err(err) => Err(err),
        }
    }
}

/// What one tokenized line encodes to, given the finished tables.  Label
/// and `End` lines hold their position as a `Noop`; a `Proc` line becomes
/// a jump over its body; `Call` targets the position right after the
/// declaration line.
pub open spec fn spec_parse_line(
    line: Seq<Seq<char>>,
    labels: Seq<(Seq<char>, int)>,
    procs: Seq<(Seq<char>, (int, int))>,
    lineno: usize,
) -> Result<Instruction, AsmError> {
    if line.len() == 1 {
        let m = line[0];
        if m == "Pop"@ {
            Ok(Instruction::Pop)
        } else if m == "Add"@ {
            Ok(Instruction::Add)
        } else if m == "Sub"@ {
            Ok(Instruction::Sub)
        } else if m == "Mul"@ {
            Ok(Instruction::Mul)
        } else if m == "Div"@ {
            Ok(Instruction::Div)
        } else if m == "Incr"@ {
            Ok(Instruction::Incr)
        } else if m == "Decr"@ {
            Ok(Instruction::Decr)
        } else if m == "Print"@ {
            Ok(Instruction::Print)
        } else if m == "PrintC"@ {
            Ok(Instruction::PrintC)
        } else if m == "PrintStack"@ {
            Ok(Instruction::PrintStack)
        } else if m == "Ret"@ {
            Ok(Instruction::Ret)
        } else if m == "End"@ {
            Ok(Instruction::Noop)
        } else if m == "label"@ {
            Ok(Instruction::Noop)
        } else {
            Err(AsmError::UnknownInstruction(lineno))
        }
    } else if line.len() == 2 {
        let m = line[0];
        let a = line[1];
        if m == "Push"@ {
            match spec_parse_i64(a) {
                Some(v) => Ok(Instruction::Push(v)),
                None => Err(AsmError::BadLiteral(lineno)),
            }
        } else if m == "Jump"@ {
            match lookup_label(labels, a) {
                Some(t) => Ok(Instruction::Jump((t as usize))),
                None => Err(AsmError::UndefinedLabel(lineno)),
            }
        } else if m == "JE"@ {
            match lookup_label(labels, a) {
                Some(t) => Ok(Instruction::JE((t as usize))),
                None => Err(AsmError::UndefinedLabel(lineno)),
            }
        } else if m == "JNE"@ {
            match lookup_label(labels, a) {
                Some(t) => Ok(Instruction::JNE((t as usize))),
                None => Err(AsmError::UndefinedLabel(lineno)),
            }
        } else if m == "JGT"@ {
            match lookup_label(labels, a) {
                Some(t) => Ok(Instruction::JGT((t as usize))),
                None => Err(AsmError::UndefinedLabel(lineno)),
            }
        } else if m == "JLT"@ {
            match lookup_label(labels, a) {
                Some(t) => Ok(Instruction::JLT((t as usize))),
                None => Err(AsmError::UndefinedLabel(lineno)),
            }
        } else if m == "JGE"@ {
            match lookup_label(labels, a) {
                Some(t) => Ok(Instruction::JGE((t as usize))),
                None => Err(AsmError::UndefinedLabel(lineno)),
            }
        } else if m == "JLE"@ {
            match lookup_label(labels, a) {
                Some(t) => Ok(Instruction::JLE((t as usize))),
                None => Err(AsmError::UndefinedLabel(lineno)),
            }
        } else if m == "Get"@ {
            match spec_parse_usize(a) {
                Some(u) => Ok(Instruction::Get(u)),
                None => Err(AsmError::BadLiteral(lineno)),
            }
        } else if m == "Set"@ {
            match spec_parse_usize(a) {
                Some(u) => Ok(Instruction::SetIdx(u)),
                None => Err(AsmError::BadLiteral(lineno)),
            }
        } else if m == "GetArg"@ {
            match spec_parse_usize(a) {
                Some(u) => Ok(Instruction::GetArg(u)),
                None => Err(AsmError::BadLiteral(lineno)),
            }
        } else if m == "SetArg"@ {
            match spec_parse_usize(a) {
                Some(u) => Ok(Instruction::SetArg(u)),
                None => Err(AsmError::BadLiteral(lineno)),
            }
        } else if m == "Proc"@ {
            match lookup_proc(procs, a) {
                Some(se) => Ok(Instruction::Jump((se.1 as usize))),
                None => Err(AsmError::UndefinedProcedure(lineno)),
            }
        } else if m == "Call"@ {
            match lookup_proc(procs, a) {
                Some(se) => Ok(Instruction::Call(((se.0 + 1) as usize))),
                None => Err(AsmError::UndefinedProcedure(lineno)),
            }
        } else if m == "label"@ {
            Ok(Instruction::Noop)
        } else {
            Err(AsmError::UnknownInstruction(lineno))
        }
    } else if line.len() > 2 && line[0] == "label"@ {
        Ok(Instruction::Noop)
    } else {
        Err(AsmError::UnknownInstruction(lineno))
    }
}

/// The instructions of the first `i` lines, or the first error in line
/// order.
pub open spec fn spec_parse_all(
    lines: Seq<Seq<Seq<char>>>,
    labels: Seq<(Seq<char>, int)>,
    procs: Seq<(Seq<char>, (int, int))>,
    i: int,
) -> Result<Seq<Instruction>, AsmError>
    decreases i,
{
    if i <= 0 {
        Ok(Seq::empty())
    } else {
        match spec_parse_all(lines, labels, procs, i - 1) {
            Ok(sq) => match spec_parse_line(lines[i - 1], labels, procs, (i - 1) as usize) {
                Ok(ins) => Ok(sq.push(ins)),
                Err(e) => Err(e),
            },
            Err(e) => Err(e),
        }
    }
}

/// The whole assembly of a tokenized source: resolve the tables in one
/// scan, then encode every line.
pub open spec fn spec_assemble(lines: Seq<Seq<Seq<char>>>) -> Result<Seq<Instruction>, AsmError> {
    match spec_procs(lines, 0) {
        Ok(procs) => spec_parse_all(
            lines,
            spec_labels(lines, lines.len() as int),
            procs,
            lines.len() as int,
        ),
        Err(e) => Err(e),
    }
}

/// True when the two strings spell the same characters.
fn tok_eq(a: &String, b: &String) -> (r: bool)
    ensures
        r == (a@ == b@),
{
    a.eq(b)
}

/// True when the string spells the given literal.
fn tok_is(t: &String, lit: &str) -> (r: bool)
    ensures
        r == (t@ == lit@),
{
    t.eq(&lit.to_owned())
}

/// Look a name up in the built label table; the latest declaration wins.
fn label_pos(labels: &Vec<(String, usize)>, name: &String) -> (r: Option<usize>)
    ensures
        match r {
            Some(t) => lookup_label(labels_view(labels@), name@) == Some(t as int),
            None => lookup_label(labels_view(labels@), name@) is None,
        },
{
    let ghost lv = labels_view(labels@);
    let mut i: usize = labels.len();
    proof {
        assert(lv.subrange(0, lv.len() as int) =~= lv);
    }
    while i > 0
        invariant
            i <= labels@.len(),
            lv == labels_view(labels@),
            lv.len() == labels@.len(),
            lookup_label(lv, name@) == lookup_label(lv.subrange(0, i as int), name@),
        decreases i,
    {
        i = i - 1;
        let ghost prefix = lv.subrange(0, i + 1);
        proof {
            assert(prefix.last() == lv[i as int]);
            assert(lv[i as int] == (labels@[i as int].0@, labels@[i as int].1 as int));
            assert(prefix.drop_last() =~= lv.subrange(0, i as int));
        }
        if tok_eq(&labels[i].0, name) {
            return Some(labels[i].1);
        }
    }
    proof {
        assert(lv.subrange(0, 0) =~= Seq::<(Seq<char>, int)>::empty());
    }
    None
}

/// Look a name up in the built procedure table; the latest declaration
/// wins.
fn proc_pos(procs: &Vec<(String, (usize, usize))>, name: &String) -> (r: Option<(usize, usize)>)
    ensures
        match r {
            Some(se) => lookup_proc(procs_view(procs@), name@) == Some(
                (se.0 as int, se.1 as int),
            ),
            None => lookup_proc(procs_view(procs@), name@) is None,
        },
{
    let ghost pv = procs_view(procs@);
    let mut i: usize = procs.len();
    proof {
        assert(pv.subrange(0, pv.len() as int) =~= pv);
    }
    while i > 0
        invariant
            i <= procs@.len(),
            pv == procs_view(procs@),
            pv.len() == procs@.len(),
            lookup_proc(pv, name@) == lookup_proc(pv.subrange(0, i as int), name@),
        decreases i,
    {
        i = i - 1;
        let ghost prefix = pv.subrange(0, i + 1);
        proof {
            assert(prefix.last() == pv[i as int]);
            assert(pv[i as int] == (
                procs@[i as int].0@,
                (procs@[i as int].1.0 as int, procs@[i as int].1.1 as int),
            ));
            assert(prefix.drop_last() =~= pv.subrange(0, i as int));
        }
        if tok_eq(&procs[i].0, name) {
            return Some((procs[i].1.0, procs[i].1.1));
        }
    }
    proof {
        assert(pv.subrange(0, 0) =~= Seq::<(Seq<char>, (int, int))>::empty());
    }
    None
}

/// The label a tokenized line declares, if any, with its position.
pub fn find_label(i: usize, s: &Vec<String>) -> (r: Option<(String, usize)>)
    ensures
        match r {
            Some(e) => e.1 == i && line_label(s.deep_view(), i as int) == Some((e.0@, i as int)),
            None => line_label(s.deep_view(), i as int) is None,
        },
{
    proof {
        if s@.len() == 2 {
            assert(s.deep_view()[0] == s@[0]@);
            assert(s.deep_view()[1] == s@[1]@);
        }
    }
    if s.len() == 2 && tok_is(&s[0], "label") {
        Some((s[1].clone(), i))
    } else {
        None
    }
}

/// True of the tokens of an `End` line.
fn is_end_exec(line: &Vec<String>) -> (r: bool)
    ensures
        r == is_end_line(line.deep_view()),
{
    proof {
        if line@.len() == 1 {
            assert(line.deep_view()[0] == line@[0]@);
        }
    }
    line.len() == 1 && tok_is(&line[0], "End")
}

/// True of the tokens of a `Proc` declaration line.
fn is_proc_exec(line: &Vec<String>) -> (r: bool)
    ensures
        r == is_proc_line(line.deep_view()),
{
    proof {
        if line@.len() == 2 {
            assert(line.deep_view()[0] == line@[0]@);
        }
    }
    line.len() == 2 && tok_is(&line[0], "Proc")
}

/// Scan the tokenized lines once and record every procedure: its name,
/// its declaration position, and the position after its terminator.
/// Fails when a `Proc` has no `End` before the lines run out.
pub fn find_procedures(lines: &Vec<Vec<String>>) -> (r: Result<
    Vec<(String, (usize, usize))>,
    AsmError,
>)
    ensures
        match r {
            Ok(v) => spec_procs(lines.deep_view(), 0) == Result::<
                Seq<(Seq<char>, (int, int))>,
                AsmError,
            >::Ok(procs_view(v@)),
            Err(e) => spec_procs(lines.deep_view(), 0) == Result::<
                Seq<(Seq<char>, (int, int))>,
                AsmError,
            >::Err(e),
        },
{
    let ghost dv = lines.deep_view();
    let n = lines.len();
    let mut res: Vec<(String, (usize, usize))> = Vec::new();
    let mut ip: usize = 0;
    proof {
        assert(procs_view(res@) =~= Seq::<(Seq<char>, (int, int))>::empty());
    }
    while ip < n
        invariant
            ip <= n,
            n == lines@.len(),
            dv == lines.deep_view(),
            dv.len() == n,
            spec_procs(dv, 0) == (match spec_procs(dv, ip as int) {
                Ok(rest) => Result::<Seq<(Seq<char>, (int, int))>, AsmError>::Ok(
                    procs_view(res@) + rest,
                ),
                Err(e) => Result::<Seq<(Seq<char>, (int, int))>, AsmError>::Err(e),
            }),
        decreases n - ip,
    {
        proof {
            assert(dv[ip as int] == lines@[ip as int].deep_view());
        }
        if is_proc_exec(&lines[ip]) {
            let mut k: usize = ip;
            while k < n && !is_end_exec(&lines[k])
                invariant
                    ip <= k <= n,
                    n == lines@.len(),
                    dv == lines.deep_view(),
                    dv.len() == n,
                    find_end(dv, ip as int) == find_end(dv, k as int),
                    forall|x: int| ip <= x < k ==> dv[x] == lines@[x].deep_view(),
                decreases n - k,
            {
                proof {
                    assert(dv[k as int] == lines@[k as int].deep_view());
                }
                k = k + 1;
            }
            proof {
                if k < n {
                    assert(dv[k as int] == lines@[k as int].deep_view());
                }
            }
            if k == n {
                proof {
                    assert(find_end(dv, k as int) is None);
                }
                return Err(AsmError::UnterminatedProc(ip));
            }
            let ghost pre = procs_view(res@);
            let name = lines[ip][1].clone();
            res.push((name, (ip, k + 1)));
            proof {
                assert(find_end(dv, ip as int) == Some(k as int));
                assert(dv[ip as int][1] == lines@[ip as int]@[1]@);
                assert(procs_view(res@) =~= pre + seq![
                    (dv[ip as int][1], (ip as int, k + 1 as int)),
                ]);
                assert(spec_procs(dv, ip as int) == (match spec_procs(dv, k + 1 as int) {
                    Ok(rest) => Result::<Seq<(Seq<char>, (int, int))>, AsmError>::Ok(
                        seq![(dv[ip as int][1], (ip as int, k + 1 as int))] + rest,
                    ),
                    Err(e) => Result::<Seq<(Seq<char>, (int, int))>, AsmError>::Err(e),
                }));
                match spec_procs(dv, k + 1 as int) {
                    Ok(rest) => {
                        assert(procs_view(res@) + rest =~= pre + (seq![
                            (dv[ip as int][1], (ip as int, k + 1 as int)),
                        ] + rest));
                    },
                    Err(_) => {},
                }
            }
            ip = k + 1;
        } else {
            proof {
                assert(spec_procs(dv, ip as int) == spec_procs(dv, ip + 1 as int));
            }
            ip = ip + 1;
        }
    }
    proof {
        assert(spec_procs(dv, ip as int) == Result::<Seq<(Seq<char>, (int, int))>, AsmError>::Ok(
            Seq::empty(),
        ));
        match spec_procs(dv, 0) {
            Ok(v) => {
                assert(v =~= procs_view(res@));
            },
            Err(_) => {},
        }
    }
    Ok(res)
}

/// Encode one tokenized line as its instruction, given the finished
/// tables and the line's own position.
pub fn parse_instruction(
    s: &Vec<String>,
    labels: &Vec<(String, usize)>,
    procedures: &Vec<(String, (usize, usize))>,
    lineno: usize,
) -> (r: Result<Instruction, AsmError>)
    requires
        forall|k: int|
            0 <= k < procedures@.len() ==> (#[trigger] procedures@[k]).1.0 < usize::MAX,
    ensures
        r == spec_parse_line(
            s.deep_view(),
            labels_view(labels@),
            procs_view(procedures@),
            lineno,
        ),
{
    let ghost dl = s.deep_view();
    proof {
        assert(dl.len() == s@.len());
        assert forall|x: int| 0 <= x < s@.len() implies dl[x] == s@[x]@ by {
            assert(dl[x] == s@[x].deep_view());
        }
    }
    if s.len() == 1 {
        let m = &s[0];
        if tok_is(m, "Pop") {
            Ok(Instruction::Pop)
        } else if tok_is(m, "Add") {
            Ok(Instruction::Add)
        } else if tok_is(m, "Sub") {
            Ok(Instruction::Sub)
        } else if tok_is(m, "Mul") {
            Ok(Instruction::Mul)
        } else if tok_is(m, "Div") {
            Ok(Instruction::Div)
        } else if tok_is(m, "Incr") {
            Ok(Instruction::Incr)
        } else if tok_is(m, "Decr") {
            Ok(Instruction::Decr)
        } else if tok_is(m, "Print") {
            Ok(Instruction::Print)
        } else if tok_is(m, "PrintC") {
            Ok(Instruction::PrintC)
        } else if tok_is(m, "PrintStack") {
            Ok(Instruction::PrintStack)
        } else if tok_is(m, "Ret") {
            Ok(Instruction::Ret)
        } else if tok_is(m, "End") {
            Ok(Instruction::Noop)
        } else if tok_is(m, "label") {
            Ok(Instruction::Noop)
        } else {
            Err(AsmError::UnknownInstruction(lineno))
        }
    } else if s.len() == 2 {
        let m = &s[0];
        let a = &s[1];
        if tok_is(m, "Push") {
            match parse_i64(a.as_str()) {
                Some(v) => Ok(Instruction::Push(v)),
                None => Err(AsmError::BadLiteral(lineno)),
            }
        } else if tok_is(m, "Jump") {
            match label_pos(labels, a) {
                Some(t) => Ok(Instruction::Jump(t)),
                None => Err(AsmError::UndefinedLabel(lineno)),
            }
        } else if tok_is(m, "JE") {
            match label_pos(labels, a) {
                Some(t) => Ok(Instruction::JE(t)),
                None => Err(AsmError::UndefinedLabel(lineno)),
            }
        } else if tok_is(m, "JNE") {
            match label_pos(labels, a) {
                Some(t) => Ok(Instruction::JNE(t)),
                None => Err(AsmError::UndefinedLabel(lineno)),
            }
        } else if tok_is(m, "JGT") {
            match label_pos(labels, a) {
                Some(t) => Ok(Instruction::JGT(t)),
                None => Err(AsmError::UndefinedLabel(lineno)),
            }
        } else if tok_is(m, "JLT") {
            match label_pos(labels, a) {
                Some(t) => Ok(Instruction::JLT(t)),
                None => Err(AsmError::UndefinedLabel(lineno)),
            }
        } else if tok_is(m, "JGE") {
            match label_pos(labels, a) {
                Some(t) => Ok(Instruction::JGE(t)),
                None => Err(AsmError::UndefinedLabel(lineno)),
            }
        } else if tok_is(m, "JLE") {
            match label_pos(labels, a) {
                Some(t) => Ok(Instruction::JLE(t)),
                None => Err(AsmError::UndefinedLabel(lineno)),
            }
        } else if tok_is(m, "Get") {
            match parse_usize(a.as_str()) {
                Some(u) => Ok(Instruction::Get(u)),
                None => Err(AsmError::BadLiteral(lineno)),
            }
        } else if tok_is(m, "Set") {
            match parse_usize(a.as_str()) {
                Some(u) => Ok(Instruction::SetIdx(u)),
                None => Err(AsmError::BadLiteral(lineno)),
            }
        } else if tok_is(m, "GetArg") {
            match parse_usize(a.as_str()) {
                Some(u) => Ok(Instruction::GetArg(u)),
                None => Err(AsmError::BadLiteral(lineno)),
            }
        } else if tok_is(m, "SetArg") {
            match parse_usize(a.as_str()) {
                Some(u) => Ok(Instruction::SetArg(u)),
                None => Err(AsmError::BadLiteral(lineno)),
            }
        } else if tok_is(m, "Proc") {
            match proc_pos(procedures, a) {
                Some(se) => Ok(Instruction::Jump(se.1)),
                None => Err(AsmError::UndefinedProcedure(lineno)),
            }
        } else if tok_is(m, "Call") {
            match proc_pos(procedures, a) {
                Some(se) => {
                    proof {
                        assert forall|k: int| 0 <= k < procs_view(procedures@).len() implies 0 <= (
                        #[trigger] procs_view(procedures@)[k]).1.0 < usize::MAX by {
                            assert(procs_view(procedures@)[k] == (
                                procedures@[k].0@,
                                (procedures@[k].1.0 as int, procedures@[k].1.1 as int),
                            ));
                        }
                        lemma_lookup_proc_starts(procs_view(procedures@), a@);
                    }
                    Ok(Instruction::Call(se.0 + 1))
                },
                None => Err(AsmError::UndefinedProcedure(lineno)),
            }
        } else if tok_is(m, "label") {
            Ok(Instruction::Noop)
        } else {
            Err(AsmError::UnknownInstruction(lineno))
        }
    } else if s.len() > 2 && tok_is(&s[0], "label") {
        Ok(Instruction::Noop)
    } else {
        Err(AsmError::UnknownInstruction(lineno))
    }
}

/// Every recorded procedure start fits the machine: a looked-up start can
/// be stepped past the declaration line.
proof fn lemma_lookup_proc_starts(entries: Seq<(Seq<char>, (int, int))>, name: Seq<char>)
    requires
        forall|k: int| 0 <= k < entries.len() ==> 0 <= (#[trigger] entries[k]).1.0 < usize::MAX,
        lookup_proc(entries, name) is Some,
    ensures
        0 <= lookup_proc(entries, name)->Some_0.0 < usize::MAX,
    decreases entries.len(),
{
    if entries.len() > 0 && !(entries.last().0 == name) {
        assert(forall|k: int|
            0 <= k < entries.len() - 1 ==> entries.drop_last()[k] == entries[k]);
        lemma_lookup_proc_starts(entries.drop_last(), name);
    }
}

/// A position looked up in the label table lies among the lines.
proof fn lemma_lookup_label_bound(entries: Seq<(Seq<char>, int)>, name: Seq<char>, n: int)
    requires
        forall|k: int| 0 <= k < entries.len() ==> 0 <= (#[trigger] entries[k]).1 < n,
        lookup_label(entries, name) is Some,
    ensures
        0 <= lookup_label(entries, name)->Some_0 < n,
    decreases entries.len(),
{
    if entries.len() > 0 && !(entries.last().0 == name) {
        assert(forall|k: int|
            0 <= k < entries.len() - 1 ==> entries.drop_last()[k] == entries[k]);
        lemma_lookup_label_bound(entries.drop_last(), name, n);
    }
}

/// A range looked up in the procedure table lies among the lines, with
/// the entry point before the end.
proof fn lemma_lookup_proc_bound(entries: Seq<(Seq<char>, (int, int))>, name: Seq<char>, n: int)
    requires
        forall|k: int|
            0 <= k < entries.len() ==> {
                &&& 0 <= (#[trigger] entries[k]).1.0
                &&& entries[k].1.0 + 1 <= entries[k].1.1 <= n
            },
        lookup_proc(entries, name) is Some,
    ensures
        0 <= lookup_proc(entries, name)->Some_0.0,
        lookup_proc(entries, name)->Some_0.0 + 1 <= lookup_proc(entries, name)->Some_0.1 <= n,
    decreases entries.len(),
{
    if entries.len() > 0 && !(entries.last().0 == name) {
        assert(forall|k: int|
            0 <= k < entries.len() - 1 ==> entries.drop_last()[k] == entries[k]);
        lemma_lookup_proc_bound(entries.drop_last(), name, n);
    }
}

/// Every label the scan records points at its own line.
proof fn lemma_labels_bounds(lines: Seq<Seq<Seq<char>>>, i: int)
    requires
        i <= lines.len(),
    ensures
        forall|k: int|
            0 <= k < spec_labels(lines, i).len() ==> 0 <= (#[trigger] spec_labels(lines, i)[k]).1
                < i,
    decreases i,
{
    if i > 0 {
        lemma_labels_bounds(lines, i - 1);
        let rest = spec_labels(lines, i - 1);
        assert forall|k: int|
            0 <= k < spec_labels(lines, i).len() implies 0 <= (#[trigger] spec_labels(lines, i)[
            k]).1 < i by {
            if k < rest.len() {
                assert(spec_labels(lines, i)[k] == rest[k]);
            }
        }
    }
}

/// Every procedure the scan records starts at its declaration line and
/// ends within the lines, past its start.
proof fn lemma_procs_bounds(lines: Seq<Seq<Seq<char>>>, j: int)
    requires
        0 <= j,
        spec_procs(lines, j) is Ok,
    ensures
        forall|k: int|
            0 <= k < spec_procs(lines, j)->Ok_0.len() ==> {
                &&& 0 <= (#[trigger] spec_procs(lines, j)->Ok_0[k]).1.0
                &&& spec_procs(lines, j)->Ok_0[k].1.0 + 1 <= spec_procs(lines, j)->Ok_0[k].1.1
                    <= lines.len()
            },
    decreases lines.len() - j,
{
    if j < lines.len() {
        if is_proc_line(lines[j]) {
            let e = find_end(lines, j)->Some_0;
            lemma_find_end_bounds(lines, j);
            lemma_procs_bounds(lines, e + 1);
            let v = spec_procs(lines, j)->Ok_0;
            let rest = spec_procs(lines, e + 1)->Ok_0;
            assert forall|k: int| 0 <= k < v.len() implies {
                &&& 0 <= (#[trigger] v[k]).1.0
                &&& v[k].1.0 + 1 <= v[k].1.1 <= lines.len()
            } by {
                if k > 0 {
                    assert(v[k] == rest[k - 1]);
                }
            }
        } else {
            lemma_procs_bounds(lines, j + 1);
        }
    }
}

/// An instruction the encoder emits keeps its positional operand within
/// the program.
proof fn lemma_parse_line_target(
    line: Seq<Seq<char>>,
    labels: Seq<(Seq<char>, int)>,
    procs: Seq<(Seq<char>, (int, int))>,
    lineno: usize,
    n: int,
)
    requires
        n <= usize::MAX,
        forall|k: int| 0 <= k < labels.len() ==> 0 <= (#[trigger] labels[k]).1 < n,
        forall|k: int|
            0 <= k < procs.len() ==> {
                &&& 0 <= (#[trigger] procs[k]).1.0
                &&& procs[k].1.0 + 1 <= procs[k].1.1 <= n
            },
        spec_parse_line(line, labels, procs, lineno) is Ok,
    ensures
        crate::code::target_ok(spec_parse_line(line, labels, procs, lineno)->Ok_0, n),
{
    if line.len() == 2 {
        let a = line[1];
        if lookup_label(labels, a) is Some {
            lemma_lookup_label_bound(labels, a, n);
        }
        if lookup_proc(procs, a) is Some {
            lemma_lookup_proc_bound(procs, a, n);
        }
    }
}

/// The instructions of the first `i` lines are one per line, every
/// positional operand within the program.
proof fn lemma_parse_all_props(
    lines: Seq<Seq<Seq<char>>>,
    labels: Seq<(Seq<char>, int)>,
    procs: Seq<(Seq<char>, (int, int))>,
    i: int,
    n: int,
)
    requires
        n == lines.len(),
        n <= usize::MAX,
        0 <= i <= n,
        forall|k: int| 0 <= k < labels.len() ==> 0 <= (#[trigger] labels[k]).1 < n,
        forall|k: int|
            0 <= k < procs.len() ==> {
                &&& 0 <= (#[trigger] procs[k]).1.0
                &&& procs[k].1.0 + 1 <= procs[k].1.1 <= n
            },
        spec_parse_all(lines, labels, procs, i) is Ok,
    ensures
        spec_parse_all(lines, labels, procs, i)->Ok_0.len() == i,
        forall|k: int|
            0 <= k < i ==> crate::code::target_ok(
                #[trigger] spec_parse_all(lines, labels, procs, i)->Ok_0[k],
                n,
            ),
    decreases i,
{
    if i > 0 {
        lemma_parse_all_props(lines, labels, procs, i - 1, n);
        lemma_parse_line_target(lines[i - 1], labels, procs, (i - 1) as usize, n);
    }
}

/// An error while encoding a line is the error of the whole pass.
proof fn lemma_parse_all_err_stable(
    lines: Seq<Seq<Seq<char>>>,
    labels: Seq<(Seq<char>, int)>,
    procs: Seq<(Seq<char>, (int, int))>,
    i: int,
    j: int,
)
    requires
        0 <= i <= j,
        spec_parse_all(lines, labels, procs, i) is Err,
    ensures
        spec_parse_all(lines, labels, procs, j) == spec_parse_all(lines, labels, procs, i),
    decreases j - i,
{
    if i < j {
        lemma_parse_all_err_stable(lines, labels, procs, i, j - 1);
    }
}

/// Resolve the tables and encode every tokenized line into its
/// instruction, or report the first assembly-time error.  A successful
/// assembly has one instruction per line, and every jump and call target
/// lies within the program, so the result can be lowered and run.
pub fn assemble(lines: &Vec<Vec<String>>) -> (r: Result<Vec<Instruction>, AsmError>)
    ensures
        match r {
            Ok(v) => {
                &&& spec_assemble(lines.deep_view()) == Result::<Seq<Instruction>, AsmError>::Ok(
                    v@,
                )
                &&& crate::code::targets_ok(v@)
                &&& v@.len() == lines@.len()
            },
            Err(e) => spec_assemble(lines.deep_view()) == Result::<
                Seq<Instruction>,
                AsmError,
            >::Err(e),
        },
{
    let ghost dv = lines.deep_view();
    let n = lines.len();
    proof {
        assert(dv.len() == n);
    }

    let mut labels: Vec<(String, usize)> = Vec::new();
    let mut i: usize = 0;
    proof {
        assert(labels_view(labels@) =~= spec_labels(dv, 0));
    }
    while i < n
        invariant
            i <= n,
            n == lines@.len(),
            dv == lines.deep_view(),
            dv.len() == n,
            labels_view(labels@) == spec_labels(dv, i as int),
        decreases n - i,
    {
        let ghost pre = labels_view(labels@);
        proof {
            assert(dv[i as int] == lines@[i as int].deep_view());
        }
        match find_label(i, &lines[i]) {
            Some(e) => {
                labels.push(e);
                proof {
                    assert(labels_view(labels@) =~= pre.push(
                        (line_label(dv[i as int], i as int)->Some_0.0, i as int),
                    ));
                }
            },
            None => {},
        }
        i = i + 1;
    }

    let procedures = match find_procedures(lines) {
        Ok(p) => p,
        Err(e) => {
            return Err(e);
        },
    };
    let ghost lv = labels_view(labels@);
    let ghost pv = procs_view(procedures@);

    proof {
        lemma_labels_bounds(dv, n as int);
        lemma_procs_bounds(dv, 0);
        assert forall|k: int| 0 <= k < pv.len() implies {
            &&& 0 <= (#[trigger] pv[k]).1.0
            &&& pv[k].1.0 + 1 <= pv[k].1.1 <= n
        } by {
            assert(pv[k] == spec_procs(dv, 0)->Ok_0[k]);
        }
        assert forall|k: int|
            0 <= k < procedures@.len() implies (#[trigger] procedures@[k]).1.0 < usize::MAX by {
            assert(pv[k] == (
                procedures@[k].0@,
                (procedures@[k].1.0 as int, procedures@[k].1.1 as int),
            ));
        }
    }

    let mut prog: Vec<Instruction> = Vec::new();
    let mut i: usize = 0;
    while i < n
        invariant
            i <= n,
            n == lines@.len(),
            dv == lines.deep_view(),
            dv.len() == n,
            lv == labels_view(labels@),
            pv == procs_view(procedures@),
            lv == spec_labels(dv, n as int),
            spec_procs(dv, 0) == Result::<Seq<(Seq<char>, (int, int))>, AsmError>::Ok(pv),
            forall|k: int|
                0 <= k < procedures@.len() ==> (#[trigger] procedures@[k]).1.0 < usize::MAX,
            spec_parse_all(dv, lv, pv, i as int) == Result::<Seq<Instruction>, AsmError>::Ok(
                prog@,
            ),
        decreases n - i,
    {
        proof {
            assert(dv[i as int] == lines@[i as int].deep_view());
        }
        match parse_instruction(&lines[i], &labels, &procedures, i) {
            Ok(ins) => {
                prog.push(ins);
            },
            Err(e) => {
                proof {
                    assert(spec_parse_all(dv, lv, pv, i + 1 as int) == Result::<
                        Seq<Instruction>,
                        AsmError,
                    >::Err(e));
                    lemma_parse_all_err_stable(dv, lv, pv, i + 1 as int, n as int);
                }
                return Err(e);
            },
        }
        i = i + 1;
    }
    proof {
        lemma_parse_all_props(dv, lv, pv, n as int, n as int);
        assert(crate::code::targets_ok(prog@));
    }
    Ok(prog)
}

} // verus!
