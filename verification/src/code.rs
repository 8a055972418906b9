//! Lowering of an instruction array into a packed byte stream: one
//! discriminant byte per instruction, followed by an eight-byte big-endian
//! operand when the opcode carries one, closed by an explicit terminator
//! byte.  Instructions occupy one or nine bytes, so every jump and call
//! target is rewritten from instruction space to byte space through a
//! separately computed position translation table.

use vstd::prelude::*;
use crate::bytes::{be_bytes, i64_to_u64_bits, push_be_bytes};
use crate::instr::Instruction;

verus! {

/// The terminator byte that ends a packed program.
pub const END_BYTE: u8 = 25;

/// The discriminant byte of an instruction in packed form.
pub open spec fn opcode(ins: Instruction) -> u8 {
    match ins {
        Instruction::Push(_) => 0,
        Instruction::Pop => 1,
        Instruction::Add => 2,
        Instruction::Sub => 3,
        Instruction::Incr => 4,
        Instruction::Decr => 5,
        Instruction::Mul => 6,
        Instruction::Div => 7,
        Instruction::Jump(_) => 8,
        Instruction::JE(_) => 9,
        Instruction::JNE(_) => 10,
        Instruction::JGT(_) => 11,
        Instruction::JLT(_) => 12,
        Instruction::JGE(_) => 13,
        Instruction::JLE(_) => 14,
        Instruction::Get(_) => 15,
        Instruction::SetIdx(_) => 16,
        Instruction::GetArg(_) => 17,
        Instruction::SetArg(_) => 18,
        Instruction::Noop => 19,
        Instruction::Print => 20,
        Instruction::PrintC => 21,
        Instruction::PrintStack => 22,
        Instruction::Call(_) => 23,
        Instruction::Ret => 24,
    }
}

/// The operand carried in packed form: the two's-complement bit pattern
/// for a pushed literal, the plain number for positions and indices.
pub open spec fn operand_bits(ins: Instruction) -> u64 {
    match ins {
        Instruction::Push(v) => i64_to_u64_bits(v),
        Instruction::Jump(t) => t as u64,
        Instruction::JE(t) => t as u64,
        Instruction::JNE(t) => t as u64,
        Instruction::JGT(t) => t as u64,
        Instruction::JLT(t) => t as u64,
        Instruction::JGE(t) => t as u64,
        Instruction::JLE(t) => t as u64,
        Instruction::Get(i) => i as u64,
        Instruction::SetIdx(i) => i as u64,
        Instruction::GetArg(i) => i as u64,
        Instruction::SetArg(i) => i as u64,
        Instruction::Call(t) => t as u64,
        _ => 0,
    }
}

/// The bytes of one instruction in packed form.
pub open spec fn enc(ins: Instruction) -> Seq<u8> {
    if ins.has_operand() {
        seq![opcode(ins)] + be_bytes(operand_bits(ins) as nat, 8)
    } else {
        seq![opcode(ins)]
    }
}

/// The byte offset of instruction position `i`: the summed widths of the
/// instructions before it.  This is the position translation table as a
/// function.
pub open spec fn off(p: Seq<Instruction>, i: int) -> int
    decreases i,
{
    if i <= 0 {
        0
    } else {
        off(p, i - 1) + p[i - 1].packed_size()
    }
}

/// True when a positional operand stays within the program: a target may
/// point at any instruction or just past the last one.
pub open spec fn target_ok(ins: Instruction, n: int) -> bool {
    match ins {
        Instruction::Jump(t) => t <= n,
        Instruction::JE(t) => t <= n,
        Instruction::JNE(t) => t <= n,
        Instruction::JGT(t) => t <= n,
        Instruction::JLT(t) => t <= n,
        Instruction::JGE(t) => t <= n,
        Instruction::JLE(t) => t <= n,
        Instruction::Call(t) => t <= n,
        _ => true,
    }
}

/// True when every positional operand in the program stays within it.
pub open spec fn targets_ok(p: Seq<Instruction>) -> bool {
    forall|i: int| 0 <= i < p.len() ==> target_ok(#[trigger] p[i], p.len() as int)
}

/// The instruction with its positional operand rewritten from instruction
/// space to byte space.  Stack indices are not positions and stay as they
/// are.
pub open spec fn retarget(ins: Instruction, p: Seq<Instruction>) -> Instruction {
    match ins {
        Instruction::Jump(t) => Instruction::Jump((off(p, t as int) as usize)),
        Instruction::JE(t) => Instruction::JE((off(p, t as int) as usize)),
        Instruction::JNE(t) => Instruction::JNE((off(p, t as int) as usize)),
        Instruction::JGT(t) => Instruction::JGT((off(p, t as int) as usize)),
        Instruction::JLT(t) => Instruction::JLT((off(p, t as int) as usize)),
        Instruction::JGE(t) => Instruction::JGE((off(p, t as int) as usize)),
        Instruction::JLE(t) => Instruction::JLE((off(p, t as int) as usize)),
        Instruction::Call(t) => Instruction::Call((off(p, t as int) as usize)),
        _ => ins,
    }
}

/// The packed bytes of the instructions from position `i` on, closed by
/// the terminator byte.
pub open spec fn enc_prog_from(p: Seq<Instruction>, i: int) -> Seq<u8>
    decreases p.len() - i,
{
    if i < 0 || i >= p.len() {
        seq![END_BYTE]
    } else {
        enc(retarget(p[i], p)) + enc_prog_from(p, i + 1)
    }
}

/// The packed bytes of the whole program.
pub open spec fn enc_prog(p: Seq<Instruction>) -> Seq<u8> {
    enc_prog_from(p, 0)
}

/// Byte offsets do not decrease with the position.
pub proof fn lemma_off_mono(p: Seq<Instruction>, i: int, j: int)
    requires
        i <= j,
    ensures
        off(p, i) <= off(p, j),
        off(p, i) >= 0,
    decreases j - i, i + j + p.len(),
{
    if i < j {
        lemma_off_mono(p, i, j - 1);
    } else if i > 0 {
        lemma_off_mono(p, i - 1, i - 1);
    }
}

/// The width of an instruction's encoding is its packed size.
pub proof fn lemma_enc_len(ins: Instruction, p: Seq<Instruction>)
    ensures
        enc(retarget(ins, p)).len() == ins.packed_size(),
        opcode(retarget(ins, p)) == opcode(ins),
        retarget(ins, p).has_operand() == ins.has_operand(),
{
    reveal_with_fuel(crate::bytes::p256, 9);
    crate::bytes::lemma_be_bytes_val(operand_bits(retarget(ins, p)) as nat, 8);
}

/// The length of the packed suffix from position `i`.
pub proof fn lemma_enc_from_len(p: Seq<Instruction>, i: int)
    requires
        0 <= i <= p.len(),
    ensures
        enc_prog_from(p, i).len() == off(p, p.len() as int) - off(p, i) + 1,
    decreases p.len() - i,
{
    if i < p.len() {
        lemma_enc_len(p[i], p);
        lemma_enc_from_len(p, i + 1);
        assert(off(p, i + 1) == off(p, i) + p[i].packed_size());
    }
}

/// The packed program from byte offset `off(p, i)` on is exactly the
/// packed suffix from position `i`.
pub proof fn lemma_enc_suffix(p: Seq<Instruction>, i: int)
    requires
        0 <= i <= p.len(),
    ensures
        enc_prog(p).subrange(off(p, i), enc_prog(p).len() as int) == enc_prog_from(p, i),
    decreases i,
{
    lemma_off_mono(p, 0, i);
    lemma_enc_from_len(p, i);
    lemma_enc_from_len(p, 0);
    if i == 0 {
        assert(enc_prog(p).subrange(0, enc_prog(p).len() as int) =~= enc_prog(p));
    } else {
        lemma_enc_suffix(p, i - 1);
        lemma_enc_len(p[i - 1], p);
        lemma_enc_from_len(p, i - 1);
        lemma_off_mono(p, 0, i - 1);
        lemma_off_mono(p, i, p.len() as int);
        assert(enc_prog_from(p, i - 1) == enc(retarget(p[i - 1], p)) + enc_prog_from(p, i));
        assert(off(p, i) == off(p, i - 1) + p[i - 1].packed_size());
        assert(enc_prog(p).subrange(off(p, i), enc_prog(p).len() as int) =~= enc_prog_from(
            p,
            i,
        )) by {
            let l = enc_prog(p).len() as int;
            let prev = enc_prog(p).subrange(off(p, i - 1), l);
            let d = p[i - 1].packed_size();
            assert forall|k: int| 0 <= k < l - off(p, i) implies enc_prog(p).subrange(
                off(p, i),
                l,
            )[k] == enc_prog_from(p, i)[k] by {
                assert(enc_prog(p).subrange(off(p, i), l)[k] == enc_prog(p)[off(p, i) + k]);
                assert(0 <= d + k < l - off(p, i - 1));
                assert(enc_prog(p)[off(p, i - 1) + (d + k)] == prev[d + k]);
                assert(prev[d + k] == enc_prog_from(p, i)[k]);
            }
        }
    }
}

/// The bytes of instruction `i` stand at byte offsets `off(p, i)` up to
/// `off(p, i + 1)` in the packed program.
pub proof fn lemma_enc_at(p: Seq<Instruction>, i: int)
    requires
        0 <= i < p.len(),
    ensures
        off(p, i) + p[i].packed_size() <= off(p, p.len() as int),
        enc_prog(p).len() == off(p, p.len() as int) + 1,
        enc_prog(p).subrange(off(p, i), off(p, i) + p[i].packed_size()) == enc(
            retarget(p[i], p),
        ),
{
    lemma_off_mono(p, i + 1, p.len() as int);
    lemma_off_mono(p, 0, i);
    lemma_enc_from_len(p, 0);
    lemma_enc_suffix(p, i);
    lemma_enc_len(p[i], p);
    lemma_enc_from_len(p, i);
    assert(enc_prog(p).subrange(off(p, i), off(p, i) + p[i].packed_size()) =~= enc(
        retarget(p[i], p),
    )) by {
        let l = enc_prog(p).len() as int;
        let suf = enc_prog(p).subrange(off(p, i), l);
        assert forall|k: int| 0 <= k < p[i].packed_size() implies enc_prog(p).subrange(
            off(p, i),
            off(p, i) + p[i].packed_size(),
        )[k] == enc(retarget(p[i], p))[k] by {
            assert(enc_prog(p)[off(p, i) + k] == suf[k]);
            assert(suf[k] == enc_prog_from(p, i)[k]);
            assert(enc_prog_from(p, i)[k] == enc(retarget(p[i], p))[k]);
        }
    }
}

/// The terminator byte stands right after the last instruction.
pub proof fn lemma_end_byte(p: Seq<Instruction>)
    ensures
        enc_prog(p).len() == off(p, p.len() as int) + 1,
        enc_prog(p)[off(p, p.len() as int)] == END_BYTE,
{
    lemma_enc_from_len(p, 0);
    lemma_enc_suffix(p, p.len() as int);
    lemma_off_mono(p, 0, p.len() as int);
    let l = enc_prog(p).len() as int;
    let suf = enc_prog(p).subrange(off(p, p.len() as int), l);
    assert(suf == enc_prog_from(p, p.len() as int));
    assert(suf[0] == enc_prog(p)[off(p, p.len() as int)]);
}

/// Append one operand-free instruction byte.
fn emit_op(code: &mut Vec<u8>, op: u8)
    ensures
        final(code)@ == old(code)@ + seq![op],
{
    code.push(op);
    assert(code@ =~= old(code)@ + seq![op]);
}

/// Append one instruction byte followed by its eight operand bytes.
fn emit_op_operand(code: &mut Vec<u8>, op: u8, operand: u64)
    ensures
        final(code)@ == old(code)@ + seq![op] + be_bytes(operand as nat, 8),
{
    code.push(op);
    push_be_bytes(operand, 8, code);
    assert(code@ =~= old(code)@ + seq![op] + be_bytes(operand as nat, 8));
}

/// Lower the instruction array into its packed byte form, positional
/// operands rewritten through the translation table, the terminator byte
/// appended.  The translation table is computed first, since instructions
/// occupy one or nine bytes and index-space offsets would be invalid
/// against the byte stream.
pub fn to_code(instrs: &Vec<Instruction>) -> (code: Vec<u8>)
    requires
        targets_ok(instrs@),
        off(instrs@, instrs@.len() as int) < usize::MAX,
    ensures
        code@ == enc_prog(instrs@),
{
    let ghost p = instrs@;
    let n = instrs.len();

    let mut offs: Vec<usize> = Vec::new();
    offs.push(0);
    let mut acc: usize = 0;
    let mut i: usize = 0;
    while i < n
        invariant
            i <= n,
            n == p.len(),
            p == instrs@,
            off(p, n as int) < usize::MAX,
            offs@.len() == i + 1,
            forall|j: int| 0 <= j <= i ==> offs@[j] == off(p, j),
            acc == off(p, i as int),
        decreases n - i,
    {
        proof {
            lemma_off_mono(p, i + 1, n as int);
        }
        let sz: usize = match instrs[i] {
            Instruction::Push(_) => 9,
            Instruction::Jump(_) => 9,
            Instruction::JE(_) => 9,
            Instruction::JNE(_) => 9,
            Instruction::JGT(_) => 9,
            Instruction::JLT(_) => 9,
            Instruction::JGE(_) => 9,
            Instruction::JLE(_) => 9,
            Instruction::Get(_) => 9,
            Instruction::SetIdx(_) => 9,
            Instruction::GetArg(_) => 9,
            Instruction::SetArg(_) => 9,
            Instruction::Call(_) => 9,
            _ => 1,
        };
        assert(sz == p[i as int].packed_size());
        acc = acc + sz;
        offs.push(acc);
        i = i + 1;
    }

    let mut code: Vec<u8> = Vec::new();
    let mut i: usize = 0;
    while i < n
        invariant
            i <= n,
            n == p.len(),
            p == instrs@,
            targets_ok(p),
            off(p, n as int) < usize::MAX,
            offs@.len() == n + 1,
            forall|j: int| 0 <= j <= n ==> offs@[j] == off(p, j),
            code@ + enc_prog_from(p, i as int) == enc_prog(p),
        decreases n - i,
    {
        let ghost pre = code@;
        proof {
            assert(enc_prog_from(p, i as int) == enc(retarget(p[i as int], p)) + enc_prog_from(
                p,
                i as int + 1,
            ));
        }
        match instrs[i] {
            Instruction::Push(v) => {
                emit_op_operand(&mut code, 0, 0u64.wrapping_add_signed(v));
            },
            Instruction::Pop => emit_op(&mut code, 1),
            Instruction::Add => emit_op(&mut code, 2),
            Instruction::Sub => emit_op(&mut code, 3),
            Instruction::Incr => emit_op(&mut code, 4),
            Instruction::Decr => emit_op(&mut code, 5),
            Instruction::Mul => emit_op(&mut code, 6),
            Instruction::Div => emit_op(&mut code, 7),
            Instruction::Jump(t) => {
                emit_op_operand(&mut code, 8, offs[t] as u64);
            },
            Instruction::JE(t) => {
                emit_op_operand(&mut code, 9, offs[t] as u64);
            },
            Instruction::JNE(t) => {
                emit_op_operand(&mut code, 10, offs[t] as u64);
            },
            Instruction::JGT(t) => {
                emit_op_operand(&mut code, 11, offs[t] as u64);
            },
            Instruction::JLT(t) => {
                emit_op_operand(&mut code, 12, offs[t] as u64);
            },
            Instruction::JGE(t) => {
                emit_op_operand(&mut code, 13, offs[t] as u64);
            },
            Instruction::JLE(t) => {
                emit_op_operand(&mut code, 14, offs[t] as u64);
            },
            Instruction::Get(x) => {
                emit_op_operand(&mut code, 15, x as u64);
            },
            Instruction::SetIdx(x) => {
                emit_op_operand(&mut code, 16, x as u64);
            },
            Instruction::GetArg(x) => {
                emit_op_operand(&mut code, 17, x as u64);
            },
            Instruction::SetArg(x) => {
                emit_op_operand(&mut code, 18, x as u64);
            },
            Instruction::Noop => emit_op(&mut code, 19),
            Instruction::Print => emit_op(&mut code, 20),
            Instruction::PrintC => emit_op(&mut code, 21),
            Instruction::PrintStack => emit_op(&mut code, 22),
            Instruction::Call(t) => {
                emit_op_operand(&mut code, 23, offs[t] as u64);
            },
            Instruction::Ret => emit_op(&mut code, 24),
        }
        proof {
            assert(code@ =~= pre + enc(retarget(p[i as int], p)));
            assert(code@ + enc_prog_from(p, i as int + 1) =~= enc_prog(p));
        }
        i = i + 1;
    }
    emit_op(&mut code, END_BYTE);
    proof {
        assert(code@ =~= enc_prog(p));
    }
    code
}


/// Lower the instruction array when it can be lowered, testing at run
/// time what `to_code` assumes: every positional operand within the
/// program, and a total packed width below the machine's limit.
pub fn try_to_code(instrs: &Vec<Instruction>) -> (r: Option<Vec<u8>>)
    ensures
        match r {
            Some(code) => {
                &&& targets_ok(instrs@)
                &&& off(instrs@, instrs@.len() as int) < usize::MAX
                &&& code@ == enc_prog(instrs@)
            },
            None => !(targets_ok(instrs@) && off(instrs@, instrs@.len() as int) < usize::MAX),
        },
{
    let ghost p = instrs@;
    let n = instrs.len();
    let mut i: usize = 0;
    while i < n
        invariant
            i <= n,
            n == p.len(),
            p == instrs@,
            forall|j: int| 0 <= j < i ==> target_ok(#[trigger] p[j], n as int),
        decreases n - i,
    {
        let ok = match instrs[i] {
            Instruction::Jump(t) => t <= n,
            Instruction::JE(t) => t <= n,
            Instruction::JNE(t) => t <= n,
            Instruction::JGT(t) => t <= n,
            Instruction::JLT(t) => t <= n,
            Instruction::JGE(t) => t <= n,
            Instruction::JLE(t) => t <= n,
            Instruction::Call(t) => t <= n,
            _ => true,
        };
        if !ok {
            proof {
                assert(!target_ok(p[i as int], n as int));
            }
            return None;
        }
        i = i + 1;
    }
    assert(targets_ok(p));

    let mut acc: usize = 0;
    let mut i: usize = 0;
    while i < n
        invariant
            i <= n,
            n == p.len(),
            p == instrs@,
            targets_ok(p),
            acc == off(p, i as int),
            acc < usize::MAX,
        decreases n - i,
    {
        let sz: usize = match instrs[i] {
            Instruction::Push(_) => 9,
            Instruction::Jump(_) => 9,
            Instruction::JE(_) => 9,
            Instruction::JNE(_) => 9,
            Instruction::JGT(_) => 9,
            Instruction::JLT(_) => 9,
            Instruction::JGE(_) => 9,
            Instruction::JLE(_) => 9,
            Instruction::Get(_) => 9,
            Instruction::SetIdx(_) => 9,
            Instruction::GetArg(_) => 9,
            Instruction::SetArg(_) => 9,
            Instruction::Call(_) => 9,
            _ => 1,
        };
        assert(sz == p[i as int].packed_size());
        match acc.checked_add(sz) {
            Some(a2) => {
                if a2 == usize::MAX {
                    proof {
                        lemma_off_mono(p, i + 1, n as int);
                    }
                    return None;
                }
                acc = a2;
            },
            None => {
                proof {
                    lemma_off_mono(p, i + 1, n as int);
                }
                return None;
            },
        }
        i = i + 1;
    }
    Some(to_code(instrs))
}

} // verus!
