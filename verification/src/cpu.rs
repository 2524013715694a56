//! The hart: 32 registers and a program counter, and what one instruction
//! does to them and to memory.
//!
//! `step` is the mathematical definition of one fetch, decode and execute.
//! `Cpu::step` runs it on the concrete state and is proved to agree.

use crate::alu::{
    branch, branch_taken, op, op_32, op_32_value, op_imm, op_imm_32, op_imm_32_value,
    op_imm_value, op_value, wrap64,
};
use crate::bits::{byte_of, sign_extend, sign_extend_32, write_register_safe};
use crate::decode::{
    funct3, get_funct3, get_imm_b, get_imm_i, get_imm_j, get_imm_s, get_imm_u, get_opcode,
    get_rd, get_rs1, get_rs2, imm_b, imm_i, imm_j, imm_s, imm_u, lemma_field_bounds, opcode, rd,
    rs1, rs2,
};
use crate::mm::{
    backed, read_u16, read_u32, read_u64, read_u8, store, MemoryMap, ADDRESS_SPACE,
};
use vstd::prelude::*;

verus! {

/// Why an instruction could not be carried out. None of these reaches the
/// guest: each ends the run.
#[derive(Clone, Copy, Debug, PartialEq, Eq, Structural)]
pub enum Fault {
    /// The instruction word at the program counter is not backed.
    Fetch,
    /// The program counter, or the target of a jump or taken branch, is not
    /// a multiple of four.
    Misaligned,
    /// A load from an address that is not backed.
    Load,
    /// A store to an address that is not backed.
    Store,
    /// A major opcode that is not implemented.
    Opcode,
    /// A selector or immediate field that is reserved or not implemented
    /// within a known opcode.
    Encoding,
    /// EBREAK.
    Breakpoint,
    /// ECALL with a system call number that is not supported.
    Syscall,
}

/// What the host has to do after an instruction.
#[derive(Debug, PartialEq, Eq)]
pub enum Event {
    /// The instruction has retired; nothing to do.
    Retired,
    /// The guest asks for `data` to be written to file descriptor `fd`. The
    /// instruction retires when `Cpu::finish_write` is told the result.
    Write { fd: u64, data: Vec<u8> },
    /// The guest asks to exit with this status.
    Exit { status: u8 },
}

/// The registers and the program counter as mathematical values.
pub struct Hart {
    pub regs: Seq<u64>,
    pub pc: u64,
}

/// The outcome of one instruction as a mathematical value.
pub enum Step {
    /// The instruction retired and left this state.
    Retired { hart: Hart, mem: Map<int, u8> },
    /// ECALL `write`: state is as before, the host is to write `data`.
    Write { fd: u64, data: Seq<u8> },
    /// ECALL `exit`.
    Exit { status: u8 },
    /// The instruction could not be carried out; state is as before.
    Fault(Fault),
}

/// Number of the `write` system call.
pub const SYS_WRITE: u64 = 64;

/// Number of the `exit` system call.
pub const SYS_EXIT: u64 = 93;

/// There are 32 registers and register 0 holds zero.
pub open spec fn hart_wf(h: Hart) -> bool {
    h.regs.len() == 32 && h.regs[0] == 0
}

/// The hart before its first instruction: the program counter at `entry`,
/// the stack pointer one past the top of the stack region, every other
/// register zero.
pub open spec fn initial_hart(entry: u64) -> Hart {
    Hart { regs: Seq::new(32, |i: int| 0u64).update(2, ADDRESS_SPACE), pc: entry }
}

/// The register file after `v` is written to register `i`: register 0 does
/// not take the write.
pub open spec fn set_reg(regs: Seq<u64>, i: int, v: u64) -> Seq<u64> {
    if i == 0 {
        regs
    } else {
        regs.update(i, v)
    }
}

/// The hart after an instruction that writes `v` to `rd` and falls through.
pub open spec fn fall_through(h: Hart, rd: int, v: u64) -> Hart {
    Hart { regs: set_reg(h.regs, rd, v), pc: wrap64(h.pc + 4) }
}

/// The hart after a jump to `target` that links through `rd`, or the fault
/// where `target` is not a multiple of four.
pub open spec fn jump(h: Hart, rd: int, target: u64) -> Result<Hart, Fault> {
    if target % 4 != 0 {
        Err(Fault::Misaligned)
    } else {
        Ok(Hart { regs: set_reg(h.regs, rd, wrap64(h.pc + 4)), pc: target })
    }
}

/// A value the ALU computed goes to `rd`; a reserved encoding is a fault.
pub open spec fn write_back(h: Hart, rd: int, v: Option<u64>) -> Result<Hart, Fault> {
    match v {
        Some(x) => Ok(fall_through(h, rd, x)),
        None => Err(Fault::Encoding),
    }
}

/// JALR: jump to `rs1 + imm` with bit 0 cleared.
pub open spec fn jalr_step(h: Hart, isn: u32) -> Result<Hart, Fault> {
    if funct3(isn) != 0 {
        Err(Fault::Encoding)
    } else {
        jump(h, rd(isn), wrap64(h.regs[rs1(isn)] + imm_i(isn)) & 0xffff_ffff_ffff_fffe)
    }
}

/// BRANCH: compare `rs1` with `rs2` and go to `pc + imm` or fall through.
pub open spec fn branch_step(h: Hart, isn: u32) -> Result<Hart, Fault> {
    match branch_taken(funct3(isn), h.regs[rs1(isn)], h.regs[rs2(isn)]) {
        None => Err(Fault::Encoding),
        Some(false) => Ok(Hart { regs: h.regs, pc: wrap64(h.pc + 4) }),
        Some(true) => jump(h, 0, wrap64(h.pc + imm_b(isn))),
    }
}

/// What LOAD with selector `f3` reads at `ea`.
pub open spec fn load_value(mem: Map<int, u8>, f3: u32, ea: int) -> Result<u64, Fault> {
    if f3 == 0 {
        match read_u8(mem, ea) {
            Some(v) => Ok(sign_extend(v as u64, 0x100)),
            None => Err(Fault::Load),
        }
    } else if f3 == 1 {
        match read_u16(mem, ea) {
            Some(v) => Ok(sign_extend(v as u64, 0x1_0000)),
            None => Err(Fault::Load),
        }
    } else if f3 == 2 {
        match read_u32(mem, ea) {
            Some(v) => Ok(sign_extend(v as u64, 0x1_0000_0000)),
            None => Err(Fault::Load),
        }
    } else if f3 == 3 {
        match read_u64(mem, ea) {
            Some(v) => Ok(v),
            None => Err(Fault::Load),
        }
    } else if f3 == 4 {
        match read_u8(mem, ea) {
            Some(v) => Ok(v as u64),
            None => Err(Fault::Load),
        }
    } else if f3 == 5 {
        match read_u16(mem, ea) {
            Some(v) => Ok(v as u64),
            None => Err(Fault::Load),
        }
    } else if f3 == 6 {
        match read_u32(mem, ea) {
            Some(v) => Ok(v as u64),
            None => Err(Fault::Load),
        }
    } else {
        Err(Fault::Encoding)
    }
}

/// LOAD: read at `rs1 + imm` and write the value to `rd`.
pub open spec fn load_step(h: Hart, mem: Map<int, u8>, isn: u32) -> Result<Hart, Fault> {
    match load_value(mem, funct3(isn), wrap64(h.regs[rs1(isn)] + imm_i(isn)) as int) {
        Ok(v) => Ok(fall_through(h, rd(isn), v)),
        Err(f) => Err(f),
    }
}

/// Number of bytes that STORE with selector `f3` writes, if it is one.
pub open spec fn store_width(f3: u32) -> Option<int> {
    if f3 == 0 {
        Some(1)
    } else if f3 == 1 {
        Some(2)
    } else if f3 == 2 {
        Some(4)
    } else if f3 == 3 {
        Some(8)
    } else {
        None
    }
}

/// STORE: memory after the low bytes of `rs2` are written at `rs1 + imm`.
pub open spec fn store_step(h: Hart, mem: Map<int, u8>, isn: u32) -> Result<Map<int, u8>, Fault> {
    let ea = wrap64(h.regs[rs1(isn)] + imm_s(isn)) as int;
    match store_width(funct3(isn)) {
        None => Err(Fault::Encoding),
        Some(n) => if backed(mem, ea, n) {
            Ok(store(mem, ea, h.regs[rs2(isn)], n))
        } else {
            Err(Fault::Store)
        },
    }
}

/// ECALL: the request that the registers describe.
pub open spec fn ecall_step(h: Hart, mem: Map<int, u8>) -> Step {
    let number = h.regs[17];
    let buf = h.regs[11];
    let len = h.regs[12];
    if number == SYS_WRITE {
        if backed(mem, buf as int, len as int) {
            Step::Write { fd: h.regs[10], data: Seq::new(len as nat, |i: int| mem[buf + i]) }
        } else {
            Step::Fault(Fault::Load)
        }
    } else if number == SYS_EXIT {
        Step::Exit { status: (h.regs[10] & 0xff) as u8 }
    } else {
        Step::Fault(Fault::Syscall)
    }
}

/// SYSTEM: ECALL, EBREAK, or a fault.
pub open spec fn system_step(h: Hart, mem: Map<int, u8>, isn: u32) -> Step {
    if funct3(isn) != 0 {
        Step::Fault(Fault::Encoding)
    } else if isn >> 20 == 0 {
        ecall_step(h, mem)
    } else if isn >> 20 == 1 {
        Step::Fault(Fault::Breakpoint)
    } else {
        Step::Fault(Fault::Encoding)
    }
}

/// An instruction that touches registers and the program counter only.
pub open spec fn settle(r: Result<Hart, Fault>, mem: Map<int, u8>) -> Step {
    match r {
        Ok(hart) => Step::Retired { hart, mem },
        Err(f) => Step::Fault(f),
    }
}

/// What an instruction that touches only registers and the program counter
/// does: LUI, AUIPC, the jumps, the branches and the four ALU groups. Any
/// other opcode is not implemented.
#[verifier::opaque]
pub open spec fn register_step(h: Hart, isn: u32) -> Result<Hart, Fault> {
    let op = opcode(isn);
    let a = h.regs[rs1(isn)];
    let b = h.regs[rs2(isn)];
    if op == 0x37 {
        Ok(fall_through(h, rd(isn), imm_u(isn)))
    } else if op == 0x17 {
        Ok(fall_through(h, rd(isn), wrap64(h.pc + imm_u(isn))))
    } else if op == 0x6f {
        jump(h, rd(isn), wrap64(h.pc + imm_j(isn)))
    } else if op == 0x67 {
        jalr_step(h, isn)
    } else if op == 0x63 {
        branch_step(h, isn)
    } else if op == 0x13 {
        write_back(h, rd(isn), op_imm_value(isn, a))
    } else if op == 0x33 {
        write_back(h, rd(isn), op_value(isn, a, b))
    } else if op == 0x1b {
        write_back(h, rd(isn), op_imm_32_value(isn, a))
    } else if op == 0x3b {
        write_back(h, rd(isn), op_32_value(isn, a, b))
    } else {
        Err(Fault::Opcode)
    }
}

/// What the instruction word `isn` does in state `h`, `mem`.
pub open spec fn execute(h: Hart, mem: Map<int, u8>, isn: u32) -> Step {
    let op = opcode(isn);
    if op == 0x03 {
        settle(load_step(h, mem, isn), mem)
    } else if op == 0x23 {
        match store_step(h, mem, isn) {
            Ok(m) => Step::Retired { hart: Hart { regs: h.regs, pc: wrap64(h.pc + 4) }, mem: m },
            Err(f) => Step::Fault(f),
        }
    } else if op == 0x73 {
        system_step(h, mem, isn)
    } else {
        settle(register_step(h, isn), mem)
    }
}

/// One fetch, decode and execute.
pub open spec fn step(h: Hart, mem: Map<int, u8>) -> Step {
    if h.pc % 4 != 0 {
        Step::Fault(Fault::Misaligned)
    } else {
        match read_u32(mem, h.pc as int) {
            None => Step::Fault(Fault::Fetch),
            Some(isn) => execute(h, mem, isn),
        }
    }
}

/// The hart after the host has carried out a `write` with result `result`:
/// the result is in `a0` and the ECALL has retired.
pub open spec fn after_write(h: Hart, result: u64) -> Hart {
    fall_through(h, 10, result)
}

/// Where a run of at most `n` instructions ends: the state it reaches, and
/// the outcome of the instruction that did not retire, if there was one.
pub open spec fn run(h: Hart, mem: Map<int, u8>, n: nat) -> (Hart, Map<int, u8>, Option<Step>)
    decreases n,
{
    if n == 0 {
        (h, mem, None)
    } else {
        match step(h, mem) {
            Step::Retired { hart, mem: m } => run(hart, m, (n - 1) as nat),
            other => (h, mem, Some(other)),
        }
    }
}

/// The registers and the program counter.
pub struct Cpu {
    regs: [u64; 32],
    pc: u64,
}

/// Whether what `Cpu::step` returned and left behind is what `expected`
/// says, from the state `h0`, `m0`.
pub open spec fn agrees(
    expected: Step,
    h0: Hart,
    m0: Map<int, u8>,
    r: Result<Event, Fault>,
    h1: Hart,
    m1: Map<int, u8>,
) -> bool {
    match expected {
        Step::Retired { hart, mem } => r == Ok::<Event, Fault>(Event::Retired) && h1 == hart && m1
            == mem,
        Step::Write { fd, data } => h1 == h0 && m1 == m0 && (r matches Ok(
            Event::Write { fd: f, data: d },
        ) && f == fd && d@ == data),
        Step::Exit { status } => h1 == h0 && m1 == m0 && r == Ok::<Event, Fault>(
            Event::Exit { status },
        ),
        Step::Fault(f) => h1 == h0 && m1 == m0 && r == Err::<Event, Fault>(f),
    }
}

/// Narrowing a value keeps its low bytes.
proof fn lemma_low_bits(v: u64)
    by (bit_vector)
    ensures
        (v & 0xff) as u8 == v & 0xff,
        byte_of((v as u8) as u64, 0) == byte_of(v, 0),
        byte_of((v as u16) as u64, 0) == byte_of(v, 0),
        byte_of((v as u16) as u64, 1) == byte_of(v, 1),
        byte_of((v as u32) as u64, 0) == byte_of(v, 0),
        byte_of((v as u32) as u64, 1) == byte_of(v, 1),
        byte_of((v as u32) as u64, 2) == byte_of(v, 2),
        byte_of((v as u32) as u64, 3) == byte_of(v, 3),
        byte_of((v as u8) as u64, 0) == v as u8,
{
}

/// Adds within 64 bits.
fn add64(a: u64, b: u64) -> (r: u64)
    ensures
        r == wrap64(a + b),
{
    a.wrapping_add(b)
}

/// An instruction that retires leaves 32 registers, register 0 still zero.
pub proof fn lemma_execute_keeps_zero(h: Hart, mem: Map<int, u8>, isn: u32)
    requires
        hart_wf(h),
    ensures
        execute(h, mem, isn) matches Step::Retired { hart, .. } ==> hart_wf(hart),
{
    reveal(register_step);
    lemma_field_bounds(isn);
}

impl Cpu {
    /// The state as mathematical values.
    pub closed spec fn view(&self) -> Hart {
        Hart { regs: self.regs@, pc: self.pc }
    }

    /// Register 0 holds zero.
    pub open spec fn wf(&self) -> bool {
        hart_wf(self@)
    }

    /// A hart about to run from `entry`: the stack pointer is one past the
    /// top of the stack region, every other register is zero.
    pub fn new(entry: u64) -> (cpu: Cpu)
        ensures
            cpu.wf(),
            cpu@ == initial_hart(entry),
    {
        let mut regs: [u64; 32] = [0u64; 32];
        regs[2] = ADDRESS_SPACE;
        let cpu = Cpu { regs, pc: entry };
        assert(cpu@.regs =~= initial_hart(entry).regs);
        cpu
    }

    /// The program counter.
    pub fn pc(&self) -> (r: u64)
        ensures
            r == self@.pc,
    {
        self.pc
    }

    /// The value of register `i`.
    pub fn reg(&self, i: usize) -> (r: u64)
        requires
            i < 32,
        ensures
            r == self@.regs[i as int],
    {
        self.regs[i]
    }

    /// Writes `v` to register `i`; register 0 does not take the write.
    pub fn set_reg(&mut self, i: usize, v: u64)
        requires
            i < 32,
        ensures
            final(self)@ == (Hart { regs: set_reg(old(self)@.regs, i as int, v), pc: old(self)@.pc }),
    {
        write_register_safe(&mut self.regs, i, v);
    }

    /// Writes `v` to `rd` and moves on to the next instruction.
    fn retire(&mut self, rd: usize, v: u64)
        requires
            rd < 32,
        ensures
            final(self)@ == fall_through(old(self)@, rd as int, v),
    {
        write_register_safe(&mut self.regs, rd, v);
        self.pc = add64(self.pc, 4);
    }

    /// Jumps to `target`, leaving the address of the next instruction in
    /// `rd`.
    fn jump_to(&mut self, rd: usize, target: u64) -> (r: Result<Event, Fault>)
        requires
            rd < 32,
        ensures
            r is Ok ==> r == Ok::<Event, Fault>(Event::Retired),
            match jump(old(self)@, rd as int, target) {
                Ok(h) => r is Ok && final(self)@ == h,
                Err(f) => r == Err::<Event, Fault>(f) && final(self)@ == old(self)@,
            },
    {
        if target % 4 != 0 {
            return Err(Fault::Misaligned);
        }
        let link: u64 = add64(self.pc, 4);
        write_register_safe(&mut self.regs, rd, link);
        self.pc = target;
        Ok(Event::Retired)
    }

    /// Writes an ALU result to `rd`, or reports the reserved encoding.
    fn finish(&mut self, rd: usize, v: Option<u64>) -> (r: Result<Event, Fault>)
        requires
            rd < 32,
        ensures
            r is Ok ==> r == Ok::<Event, Fault>(Event::Retired),
            match write_back(old(self)@, rd as int, v) {
                Ok(h) => r is Ok && final(self)@ == h,
                Err(f) => r == Err::<Event, Fault>(f) && final(self)@ == old(self)@,
            },
    {
        match v {
            Some(x) => {
                self.retire(rd, x);
                Ok(Event::Retired)
            },
            None => Err(Fault::Encoding),
        }
    }

    /// JALR.
    fn exec_jalr(&mut self, isn: u32) -> (r: Result<Event, Fault>)
        ensures
            r is Ok ==> r == Ok::<Event, Fault>(Event::Retired),
            match jalr_step(old(self)@, isn) {
                Ok(h) => r is Ok && final(self)@ == h,
                Err(f) => r == Err::<Event, Fault>(f) && final(self)@ == old(self)@,
            },
    {
        if get_funct3(isn) != 0 {
            return Err(Fault::Encoding);
        }
        let base: u64 = self.regs[get_rs1(isn)];
        let target: u64 = add64(base, get_imm_i(isn)) & 0xffff_ffff_ffff_fffe;
        self.jump_to(get_rd(isn), target)
    }

    /// BRANCH.
    fn exec_branch(&mut self, isn: u32) -> (r: Result<Event, Fault>)
        ensures
            r is Ok ==> r == Ok::<Event, Fault>(Event::Retired),
            match branch_step(old(self)@, isn) {
                Ok(h) => r is Ok && final(self)@ == h,
                Err(f) => r == Err::<Event, Fault>(f) && final(self)@ == old(self)@,
            },
    {
        let a: u64 = self.regs[get_rs1(isn)];
        let b: u64 = self.regs[get_rs2(isn)];
        match branch(get_funct3(isn), a, b) {
            None => Err(Fault::Encoding),
            Some(false) => {
                self.pc = add64(self.pc, 4);
                Ok(Event::Retired)
            },
            Some(true) => {
                let target: u64 = add64(self.pc, get_imm_b(isn));
                self.jump_to(0, target)
            },
        }
    }

    /// Reads what LOAD with selector `f3` reads at `ea`.
    fn load(mem: &MemoryMap, f3: u32, ea: u64) -> (r: Result<u64, Fault>)
        requires
            mem.wf(),
        ensures
            r == load_value(mem@, f3, ea as int),
    {
        match f3 {
            0 => match mem.readbyte(ea) {
                Some(v) => Ok(
                    if v >= 0x80 {
                        v as u64 + 0xffff_ffff_ffff_ff00
                    } else {
                        v as u64
                    },
                ),
                None => Err(Fault::Load),
            },
            1 => match mem.readhword(ea) {
                Some(v) => Ok(
                    if v >= 0x8000 {
                        v as u64 + 0xffff_ffff_ffff_0000
                    } else {
                        v as u64
                    },
                ),
                None => Err(Fault::Load),
            },
            2 => match mem.readword(ea) {
                Some(v) => Ok(sign_extend_32(v as u64)),
                None => Err(Fault::Load),
            },
            3 => match mem.readdword(ea) {
                Some(v) => Ok(v),
                None => Err(Fault::Load),
            },
            4 => match mem.readbyte(ea) {
                Some(v) => Ok(v as u64),
                None => Err(Fault::Load),
            },
            5 => match mem.readhword(ea) {
                Some(v) => Ok(v as u64),
                None => Err(Fault::Load),
            },
            6 => match mem.readword(ea) {
                Some(v) => Ok(v as u64),
                None => Err(Fault::Load),
            },
            _ => Err(Fault::Encoding),
        }
    }

    /// LOAD.
    fn exec_load(&mut self, mem: &MemoryMap, isn: u32) -> (r: Result<Event, Fault>)
        requires
            mem.wf(),
        ensures
            r is Ok ==> r == Ok::<Event, Fault>(Event::Retired),
            match load_step(old(self)@, mem@, isn) {
                Ok(h) => r is Ok && final(self)@ == h,
                Err(f) => r == Err::<Event, Fault>(f) && final(self)@ == old(self)@,
            },
    {
        let ea: u64 = add64(self.regs[get_rs1(isn)], get_imm_i(isn));
        match Self::load(mem, get_funct3(isn), ea) {
            Ok(v) => {
                self.retire(get_rd(isn), v);
                Ok(Event::Retired)
            },
            Err(f) => Err(f),
        }
    }

    /// STORE.
    fn exec_store(&mut self, mem: &mut MemoryMap, isn: u32) -> (r: Result<Event, Fault>)
        requires
            old(mem).wf(),
        ensures
            final(mem).wf(),
            r is Ok ==> r == Ok::<Event, Fault>(Event::Retired),
            match store_step(old(self)@, old(mem)@, isn) {
                Ok(m) => r is Ok && final(mem)@ == m && final(self)@ == (Hart {
                    regs: old(self)@.regs,
                    pc: wrap64(old(self)@.pc + 4),
                }),
                Err(f) => r == Err::<Event, Fault>(f) && final(self)@ == old(self)@ && final(mem)@
                    == old(mem)@,
            },
    {
        let ea: u64 = add64(self.regs[get_rs1(isn)], get_imm_s(isn));
        let v: u64 = self.regs[get_rs2(isn)];
        proof {
            lemma_low_bits(v);
        }
        let ok: bool = match get_funct3(isn) {
            0 => {
                let ok: bool = mem.writebyte(ea, v as u8);
                proof {
                    if ok {
                        assert(mem@ =~= store(old(mem)@, ea as int, v, 1));
                    } else {
                        assert(!backed(old(mem)@, ea as int, 1));
                    }
                }
                ok
            },
            1 => {
                let ok: bool = mem.writehword(ea, v as u16);
                assert(ok ==> mem@ =~= store(old(mem)@, ea as int, v, 2));
                ok
            },
            2 => {
                let ok: bool = mem.writeword(ea, v as u32);
                assert(ok ==> mem@ =~= store(old(mem)@, ea as int, v, 4));
                ok
            },
            3 => mem.writedword(ea, v),
            _ => {
                return Err(Fault::Encoding);
            },
        };
        if !ok {
            return Err(Fault::Store);
        }
        self.pc = add64(self.pc, 4);
        Ok(Event::Retired)
    }

    /// SYSTEM: stages an ECALL request for the host; changes nothing.
    fn exec_system(&self, mem: &MemoryMap, isn: u32) -> (r: Result<Event, Fault>)
        requires
            mem.wf(),
        ensures
            agrees(system_step(self@, mem@, isn), self@, mem@, r, self@, mem@),
            !(system_step(self@, mem@, isn) is Retired),
    {
        if get_funct3(isn) != 0 {
            return Err(Fault::Encoding);
        }
        let imm: u32 = isn >> 20;
        if imm == 1 {
            return Err(Fault::Breakpoint);
        }
        if imm != 0 {
            return Err(Fault::Encoding);
        }
        let number: u64 = self.regs[17];
        if number == SYS_WRITE {
            match mem.read_bytes(self.regs[11], self.regs[12]) {
                Some(data) => {
                    assert(data@ =~= Seq::new(
                        self@.regs[12] as nat,
                        |i: int| mem@[self@.regs[11] + i],
                    ));
                    Ok(Event::Write { fd: self.regs[10], data })
                },
                None => Err(Fault::Load),
            }
        } else if number == SYS_EXIT {
            let status: u64 = self.regs[10] & 0xff;
            proof {
                lemma_low_bits(self.regs[10]);
            }
            Ok(Event::Exit { status: status as u8 })
        } else {
            Err(Fault::Syscall)
        }
    }

    /// The instructions that touch only registers and the program counter.
    fn exec_register(&mut self, isn: u32) -> (r: Result<Event, Fault>)
        ensures
            r is Ok ==> r == Ok::<Event, Fault>(Event::Retired),
            match register_step(old(self)@, isn) {
                Ok(h) => r is Ok && final(self)@ == h,
                Err(f) => r == Err::<Event, Fault>(f) && final(self)@ == old(self)@,
            },
    {
        proof {
            reveal(register_step);
        }
        let rd: usize = get_rd(isn);
        let a: u64 = self.regs[get_rs1(isn)];
        let b: u64 = self.regs[get_rs2(isn)];
        match get_opcode(isn) {
            0x37 => {
                self.retire(rd, get_imm_u(isn));
                Ok(Event::Retired)
            },
            0x17 => {
                let v: u64 = add64(self.pc, get_imm_u(isn));
                self.retire(rd, v);
                Ok(Event::Retired)
            },
            0x6f => {
                let target: u64 = add64(self.pc, get_imm_j(isn));
                self.jump_to(rd, target)
            },
            0x67 => self.exec_jalr(isn),
            0x63 => self.exec_branch(isn),
            0x13 => self.finish(rd, op_imm(isn, a)),
            0x33 => self.finish(rd, op(isn, a, b)),
            0x1b => self.finish(rd, op_imm_32(isn, a)),
            0x3b => self.finish(rd, op_32(isn, a, b)),
            _ => Err(Fault::Opcode),
        }
    }

    /// Carries out the instruction word `isn`.
    pub fn execute(&mut self, mem: &mut MemoryMap, isn: u32) -> (r: Result<Event, Fault>)
        requires
            old(self).wf(),
            old(mem).wf(),
        ensures
            final(self).wf(),
            final(mem).wf(),
            agrees(
                execute(old(self)@, old(mem)@, isn),
                old(self)@,
                old(mem)@,
                r,
                final(self)@,
                final(mem)@,
            ),
    {
        proof {
            lemma_execute_keeps_zero(self@, mem@, isn);
        }
        match get_opcode(isn) {
            0x03 => self.exec_load(mem, isn),
            0x23 => self.exec_store(mem, isn),
            0x73 => self.exec_system(mem, isn),
            _ => self.exec_register(isn),
        }
    }

    /// Fetches the instruction at the program counter and carries it out.
    /// On a fault, and on a request to the host, the state is as before.
    pub fn step(&mut self, mem: &mut MemoryMap) -> (r: Result<Event, Fault>)
        requires
            old(self).wf(),
            old(mem).wf(),
        ensures
            final(self).wf(),
            final(mem).wf(),
            agrees(
                step(old(self)@, old(mem)@),
                old(self)@,
                old(mem)@,
                r,
                final(self)@,
                final(mem)@,
            ),
    {
        if self.pc % 4 != 0 {
            return Err(Fault::Misaligned);
        }
        match mem.readword(self.pc) {
            None => Err(Fault::Fetch),
            Some(isn) => self.execute(mem, isn),
        }
    }

    /// Runs until an instruction asks something of the host or faults, but
    /// for `budget` instructions at most. `Event::Retired` says that the
    /// budget ran out: every instruction so far has retired.
    pub fn run(&mut self, mem: &mut MemoryMap, budget: u64) -> (r: Result<Event, Fault>)
        requires
            old(self).wf(),
            old(mem).wf(),
        ensures
            final(self).wf(),
            final(mem).wf(),
            final(self)@ == run(old(self)@, old(mem)@, budget as nat).0,
            final(mem)@ == run(old(self)@, old(mem)@, budget as nat).1,
            match run(old(self)@, old(mem)@, budget as nat).2 {
                None => r == Ok::<Event, Fault>(Event::Retired),
                Some(s) => !(s is Retired) && agrees(
                    s,
                    final(self)@,
                    final(mem)@,
                    r,
                    final(self)@,
                    final(mem)@,
                ),
            },
    {
        let mut left: u64 = budget;
        while left > 0
            invariant
                self.wf(),
                mem.wf(),
                run(self@, mem@, left as nat) == run(old(self)@, old(mem)@, budget as nat),
            decreases left,
        {
            match self.step(mem) {
                Ok(Event::Retired) => {},
                other => {
                    return other;
                },
            }
            left -= 1;
        }
        Ok(Event::Retired)
    }

    /// Tells the hart what the host's `write` returned: the result goes to
    /// `a0` and the ECALL retires.
    pub fn finish_write(&mut self, result: u64)
        requires
            old(self).wf(),
        ensures
            final(self).wf(),
            final(self)@ == after_write(old(self)@, result),
    {
        self.retire(10, result);
    }
}

} // verus!
