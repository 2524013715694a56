//! Laws of the machine: what holds of every state and every instruction.

use crate::alu::{branch_taken, lemma_wrap_add, op_imm_32_value, op_imm_value, wrap64};
use crate::bits::sign_extend;
use crate::cpu::{
    after_write, execute, hart_wf, lemma_execute_keeps_zero, register_step, run, set_reg, step,
    Fault, Hart, Step,
};
use crate::decode::{funct3, imm_b, imm_i, lemma_field_bounds, opcode, rd, rs1, rs2};
use crate::mm::{read_u32, ADDRESS_SPACE};
use vstd::prelude::*;

verus! {

/// Register 0 holds zero after every instruction: a step that retires
/// leaves a well-formed hart.
pub proof fn step_keeps_zero(h: Hart, mem: Map<int, u8>)
    requires
        hart_wf(h),
    ensures
        step(h, mem) matches Step::Retired { hart, .. } ==> hart_wf(hart),
{
    if h.pc % 4 == 0 {
        match read_u32(mem, h.pc as int) {
            Some(isn) => {
                lemma_execute_keeps_zero(h, mem, isn);
            },
            None => {},
        }
    }
}

/// Register 0 holds zero after any sequence of instructions.
pub proof fn run_keeps_zero(h: Hart, mem: Map<int, u8>, n: nat)
    requires
        hart_wf(h),
    ensures
        hart_wf(run(h, mem, n).0),
    decreases n,
{
    if n > 0 {
        step_keeps_zero(h, mem);
        match step(h, mem) {
            Step::Retired { hart, mem: m } => {
                run_keeps_zero(hart, m, (n - 1) as nat);
            },
            _ => {},
        }
    }
}

/// Register 0 holds zero after the host has answered a `write`.
pub proof fn after_write_keeps_zero(h: Hart, result: u64)
    requires
        hart_wf(h),
    ensures
        hart_wf(after_write(h, result)),
{
}

/// JAL and JALR, where they jump, leave the address of the following
/// instruction in `rd`, and change no other register.
pub proof fn jump_links(h: Hart, mem: Map<int, u8>, isn: u32)
    requires
        opcode(isn) == 0x6f || opcode(isn) == 0x67,
    ensures
        execute(h, mem, isn) matches Step::Retired { hart, .. } ==> hart.regs == set_reg(
            h.regs,
            rd(isn),
            wrap64(h.pc + 4),
        ),
{
    reveal(register_step);
}

/// ADDI to register 0 leaves the register file as it is, whatever the
/// source register and the immediate.
pub proof fn addi_to_zero(h: Hart, mem: Map<int, u8>, isn: u32)
    requires
        opcode(isn) == 0x13,
        funct3(isn) == 0,
        rd(isn) == 0,
    ensures
        execute(h, mem, isn) == (Step::Retired {
            hart: Hart { regs: h.regs, pc: wrap64(h.pc + 4) },
            mem,
        }),
{
    reveal(register_step);
    reveal(op_imm_value);
}

/// The twelve major opcodes that are implemented.
pub open spec fn is_known_opcode(op: u32) -> bool {
    op == 0x03 || op == 0x13 || op == 0x17 || op == 0x1b || op == 0x23 || op == 0x33 || op == 0x37
        || op == 0x3b || op == 0x63 || op == 0x67 || op == 0x6f || op == 0x73
}

/// Dispatch is total: an instruction word with any other opcode is a fault,
/// whatever the state.
pub proof fn unknown_opcode_faults(h: Hart, mem: Map<int, u8>, isn: u32)
    requires
        !is_known_opcode(opcode(isn)),
    ensures
        execute(h, mem, isn) == Step::Fault(Fault::Opcode),
{
    reveal(register_step);
}

/// An instruction that reads and writes registers only: the ALU groups, LUI
/// and AUIPC.
pub open spec fn is_register_op(isn: u32) -> bool {
    let op = opcode(isn);
    op == 0x13 || op == 0x33 || op == 0x1b || op == 0x3b || op == 0x37 || op == 0x17
}

/// The next `n` instructions are all register operations that retire.
pub open spec fn straight_line(h: Hart, mem: Map<int, u8>, n: nat) -> bool
    decreases n,
{
    n == 0 || (h.pc % 4 == 0 && match read_u32(mem, h.pc as int) {
        Some(isn) => is_register_op(isn) && match execute(h, mem, isn) {
            Step::Retired { hart, mem: m } => straight_line(hart, m, (n - 1) as nat),
            _ => false,
        },
        None => false,
    })
}

/// A register operation that retires moves the program counter on by four
/// and leaves memory as it is.
pub proof fn register_op_advances_pc(h: Hart, mem: Map<int, u8>, isn: u32)
    requires
        is_register_op(isn),
    ensures
        execute(h, mem, isn) matches Step::Retired { hart, mem: m } ==> hart.pc == wrap64(h.pc + 4)
            && m == mem,
{
    reveal(register_step);
}

/// After `n` register operations in a row the program counter has moved on
/// by `4 * n` (within 64 bits) and memory is as it was.
pub proof fn register_ops_advance_pc(h: Hart, mem: Map<int, u8>, n: nat)
    requires
        straight_line(h, mem, n),
    ensures
        run(h, mem, n).2 is None,
        run(h, mem, n).1 == mem,
        run(h, mem, n).0.pc == wrap64(h.pc + 4 * n),
    decreases n,
{
    if n > 0 {
        let isn = read_u32(mem, h.pc as int).unwrap();
        register_op_advances_pc(h, mem, isn);
        match execute(h, mem, isn) {
            Step::Retired { hart, mem: m } => {
                register_ops_advance_pc(hart, m, (n - 1) as nat);
                lemma_wrap_add(h.pc + 4, 4 * (n - 1));
            },
            _ => {},
        }
    }
}

/// In memory that lies inside the address space the sum does not wrap: after
/// `n` register operations in a row the program counter is `4 * n` further.
pub proof fn register_ops_advance_pc_exactly(h: Hart, mem: Map<int, u8>, n: nat)
    requires
        straight_line(h, mem, n),
        forall|a: int| mem.dom().contains(a) ==> a < ADDRESS_SPACE,
    ensures
        run(h, mem, n).0.pc == h.pc + 4 * n,
    decreases n,
{
    if n > 0 {
        let isn = read_u32(mem, h.pc as int).unwrap();
        assert(mem.dom().contains(h.pc + 3));
        register_op_advances_pc(h, mem, isn);
        match execute(h, mem, isn) {
            Step::Retired { hart, mem: m } => {
                register_ops_advance_pc_exactly(hart, m, (n - 1) as nat);
            },
            _ => {},
        }
    }
}

/// A taken branch whose immediate is -4 goes back by one instruction.
pub proof fn branch_back_by_one(h: Hart, mem: Map<int, u8>, isn: u32)
    requires
        opcode(isn) == 0x63,
        imm_b(isn) == 0xffff_ffff_ffff_fffc,
        branch_taken(funct3(isn), h.regs[rs1(isn)], h.regs[rs2(isn)]) == Some(true),
        h.pc % 4 == 0,
    ensures
        execute(h, mem, isn) == (Step::Retired {
            hart: Hart { regs: h.regs, pc: wrap64(h.pc - 4) },
            mem,
        }),
{
    reveal(register_step);
}

/// ADDIW gives a negative 64-bit value exactly when bit 31 of the sum is set:
/// the upper half of the result is then all ones over the low 32 bits of the
/// sum.
pub proof fn addiw_sign_extends(isn: u32, a: u64)
    requires
        funct3(isn) == 0,
    ensures
        op_imm_32_value(isn, a) == Some(sign_extend(wrap64(a + imm_i(isn)), 0x1_0000_0000)),
        ({
            let low = wrap64(a + imm_i(isn)) % 0x1_0000_0000;
            let v = op_imm_32_value(isn, a).unwrap();
            if low >= 0x8000_0000 {
                v == low + 0xffff_ffff_0000_0000
            } else {
                v == low
            }
        }),
{
    reveal(op_imm_32_value);
}

} // verus!
