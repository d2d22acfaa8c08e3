//! The processor state machine: architectural state, the mathematical model
//! of one instruction step, and the executable `CPU` with its verified
//! `load_rom` / `exec_opcode` operations.
//!
//! The instruction word is 8 bits: the top 5 bits select the opcode, the low
//! 3 bits are the operand (a register index, RAM/port address, shift count,
//! or condition code, depending on the opcode). Instruction memory is 1024
//! bytes, organized as 32 pages of 32 words; the effective fetch address is
//! `pc + page * 32`.

use vstd::prelude::*;

verus! {

/// Mathematical model of the full architectural state.
///
/// `rom` always has 1024 entries, `ram` 32, and `regs` 7 (register address 0
/// is hard-wired to zero and has no backing slot). `console` is the buffer of
/// bytes written to port 7 and not yet flushed.
#[verifier::ext_equal]
pub struct State {
    pub rom: Seq<u8>,
    pub pc: u8,
    pub page: u8,
    pub ram: Seq<u8>,
    pub regs: Seq<u8>,
    pub acc: u8,
    pub zero: bool,
    pub msb: bool,
    pub carry: bool,
    pub halted: bool,
    pub console: Seq<u8>,
}

/// A fatal condition: the program image is corrupt and the simulation must
/// abort. There is no recovery path.
#[derive(Clone, Copy, Debug, PartialEq, Eq, Structural)]
pub enum Fault {
    /// An instruction word whose opcode (top 5 bits) is 26 through 30.
    /// Carries the raw word and the effective address it was fetched from.
    IllegalOpcode { word: u8, addr: u16 },
    /// A conditional instruction whose condition-code operand is 0.
    /// Carries the operand and the effective address of the instruction.
    IllegalCond { operand: u8, addr: u16 },
}

impl State {
    /// Shape of every reachable state: fixed memory sizes, and a program
    /// counter that is at most 32 (31 is the last word of a page; 32 is the
    /// transient value it reaches just before wrapping to the next page).
    pub open spec fn valid(self) -> bool {
        &&& self.rom.len() == 1024
        &&& self.ram.len() == 32
        &&& self.regs.len() == 7
        &&& self.pc <= 32
    }
}

/// A sequence of `n` zero bytes: every memory is all-zero at construction.
pub open spec fn zeroes(n: nat) -> Seq<u8> {
    Seq::new(n, |i: int| 0u8)
}

/// The state every processor starts in.
pub open spec fn initial_state() -> State {
    State {
        rom: zeroes(1024),
        pc: 0,
        page: 0,
        ram: zeroes(32),
        regs: zeroes(7),
        acc: 0,
        zero: false,
        msb: false,
        carry: false,
        halted: false,
        console: Seq::empty(),
    }
}

/// Reading the register file: address 0 always reads 0; addresses 1 through 7
/// read the corresponding slot.
pub open spec fn reg_val(regs: Seq<u8>, i: int) -> u8 {
    if i == 0 {
        0
    } else {
        regs[i - 1]
    }
}

/// Writing the register file: a write to address 0 is discarded.
pub open spec fn reg_store(regs: Seq<u8>, i: int, v: u8) -> Seq<u8> {
    if i == 0 {
        regs
    } else {
        regs.update(i - 1, v)
    }
}

/// 8-bit wrapping sum, i.e. `(x + y) mod 256`.
pub open spec fn wrap_add(x: u8, y: u8) -> u8 {
    if x + y < 256 {
        (x + y) as u8
    } else {
        (x + y - 256) as u8
    }
}

/// 8-bit wrapping difference, i.e. `(x - y) mod 256`.
pub open spec fn wrap_sub(x: u8, y: u8) -> u8 {
    if x - y >= 0 {
        (x - y) as u8
    } else {
        (x - y + 256) as u8
    }
}

/// The carry flag after an addition that stored `sum`: true iff the
/// unbounded sum of the operands differs from the stored 8-bit result.
pub open spec fn ovf_add(a: u8, b: u8, sum: u8) -> bool {
    a + b != sum
}

/// The carry flag after a subtraction that stored `diff`: true iff the
/// unbounded difference `a - b` differs from the stored 8-bit result. Note
/// that the SUB instruction hands the operands to this check in the opposite
/// order to the one its stored result uses; that asymmetry is part of the
/// instruction set and is preserved here.
pub open spec fn ovf_sub(a: u8, b: u8, diff: u8) -> bool {
    a - b != diff
}

/// The effective fetch address `pc + page * 32`, taken modulo the ROM size.
///
/// Architecturally meaningful addresses (page 0 through 31, pc 0 through 31)
/// are unaffected by the modulus. The instruction set leaves fetches beyond
/// that undefined (the page register is free to run past 31, and pc can
/// transiently reach 32); this model makes them wrap around the ROM so that
/// every step is total.
pub open spec fn fetch_addr(s: State) -> int {
    (s.pc + s.page * 32) % 1024
}

/// Linear control flow: pc advances by 1 and wraps to the next page one step
/// *after* leaving the valid range, so pc transiently holds 32. The page
/// register increments as a plain wrapping byte, with no range clamp.
pub open spec fn inc_pc_spec(s: State) -> State {
    if s.pc == 32 {
        State { pc: 0, page: wrap_add(s.page, 1), ..s }
    } else {
        State { pc: (s.pc + 1) as u8, ..s }
    }
}

/// Whether condition code `op` holds: 1 means `zero` set, 2 `zero` clear,
/// 3 `msb` set, 4 `msb` clear, 5 `carry` set, 6 `carry` clear, 7 always.
/// Meaningful only for codes 1 through 7; code 0 is a fault.
pub open spec fn cond_holds(s: State, op: u8) -> bool {
    if op == 1 {
        s.zero
    } else if op == 2 {
        !s.zero
    } else if op == 3 {
        s.msb
    } else if op == 4 {
        !s.msb
    } else if op == 5 {
        s.carry
    } else if op == 6 {
        !s.carry
    } else {
        true
    }
}

/// Condition codes accepted by ICS and BRC.
pub open spec fn cond_legal(op: u8) -> bool {
    1 <= op <= 7
}

/// Flag outcome of the add/subtract family: carry from the overflow check,
/// msb from bit 7 of the stored result, zero iff the result is 0.
pub open spec fn arith_flags(s: State, res: u8, ovf: bool) -> State {
    State { carry: ovf, msb: (res & 0x80) != 0, zero: res == 0, ..s }
}

/// Bitwise and shift instructions: the result goes to the accumulator, carry
/// is always cleared, msb and zero come from the result.
pub open spec fn logic_result(s: State, res: u8) -> State {
    State { acc: res, carry: false, msb: (res & 0x80) != 0, zero: res == 0, ..s }
}

/// A port write: only port 7 has an effect, appending the byte to the
/// console buffer; writes to every other port are discarded.
pub open spec fn port_write_spec(console: Seq<u8>, pos: int, val: u8) -> Seq<u8> {
    if pos == 7 {
        console.push(val)
    } else {
        console
    }
}

/// One instruction step: fetch the word at the effective address, advance
/// pc/page, then apply the opcode's effect. Returns the fault, if the word
/// decodes to one, together with the state the machine is left in (on a
/// fault, the state as it stood when the fault was detected).
pub open spec fn step_spec(s: State) -> (Option<Fault>, State) {
    let word = s.rom[fetch_addr(s)];
    let op = word >> 3;
    let x = (word & 7) as int;
    let here = fetch_addr(s) as u16;
    let s1 = inc_pc_spec(s);
    if op == 0 {  // NOP
        (None, s1)
    } else if op == 31 {  // HLT
        (None, State { halted: true, ..s1 })
    } else if op == 1 {  // ADD
        let a = reg_val(s1.regs, x);
        let res = wrap_add(a, s1.acc);
        (None, State { acc: res, ..arith_flags(s1, res, ovf_add(a, s1.acc, res)) })
    } else if op == 2 {  // SUB: result acc - reg, but the carry check runs reg - acc
        let a = reg_val(s1.regs, x);
        let res = wrap_sub(s1.acc, a);
        (None, State { acc: res, ..arith_flags(s1, res, ovf_sub(a, s1.acc, res)) })
    } else if op == 3 {  // BSUB
        let a = reg_val(s1.regs, x);
        let res = wrap_sub(a, s1.acc);
        (None, State { acc: res, ..arith_flags(s1, res, ovf_sub(a, s1.acc, res)) })
    } else if op == 4 {  // OR
        (None, logic_result(s1, s1.acc | reg_val(s1.regs, x)))
    } else if op == 5 {  // NOR
        (None, logic_result(s1, !(s1.acc | reg_val(s1.regs, x))))
    } else if op == 6 {  // AND
        (None, logic_result(s1, s1.acc & reg_val(s1.regs, x)))
    } else if op == 7 {  // NAND
        (None, logic_result(s1, !(s1.acc & reg_val(s1.regs, x))))
    } else if op == 8 {  // XOR
        (None, logic_result(s1, s1.acc ^ reg_val(s1.regs, x)))
    } else if op == 9 {  // XNOR
        (None, logic_result(s1, !(s1.acc ^ reg_val(s1.regs, x))))
    } else if op == 10 {  // LDI: the next word is the immediate
        let imm = s1.rom[fetch_addr(s1)];
        let s2 = inc_pc_spec(s1);
        (None, State { regs: reg_store(s2.regs, x, imm), ..s2 })
    } else if op == 11 {  // ADR: like ADD but stored to the register
        let a = reg_val(s1.regs, x);
        let res = wrap_add(a, s1.acc);
        (None, State { regs: reg_store(s1.regs, x, res), ..arith_flags(s1, res, ovf_add(a, s1.acc, res)) })
    } else if op == 12 {  // RLD
        (None, State { acc: reg_val(s1.regs, x), ..s1 })
    } else if op == 13 {  // RST
        (None, State { regs: reg_store(s1.regs, x, s1.acc), ..s1 })
    } else if op == 14 {  // MST
        (None, State { ram: s1.ram.update(x, s1.acc), ..s1 })
    } else if op == 15 {  // MLD
        (None, State { acc: s1.ram[x], ..s1 })
    } else if op == 16 {  // ICS: on the condition, the immediate's top 5 bits become the page
        if !cond_legal(word & 7) {
            (Some(Fault::IllegalCond { operand: word & 7, addr: here }), s1)
        } else if cond_holds(s1, word & 7) {
            let imm = s1.rom[fetch_addr(s1)];
            let s2 = inc_pc_spec(s1);
            (None, State { page: imm >> 3, ..s2 })
        } else {
            (None, inc_pc_spec(s1))  // discard the immediate
        }
    } else if op == 17 {  // JID
        (None, State { pc: reg_val(s1.regs, x) & 0x1f, ..s1 })
    } else if op == 18 {  // BRC: the immediate is masked to 5 bits before the shift,
        // so only its top 2 of those 5 bits survive
        if !cond_legal(word & 7) {
            (Some(Fault::IllegalCond { operand: word & 7, addr: here }), s1)
        } else if cond_holds(s1, word & 7) {
            let imm = s1.rom[fetch_addr(s1)];
            let s2 = inc_pc_spec(s1);
            (None, State { pc: (imm & 0x1f) >> 3, ..s2 })
        } else {
            (None, inc_pc_spec(s1))  // discard the immediate
        }
    } else if op == 19 {  // DEC
        let res = wrap_sub(s1.acc, 1);
        (None, State { acc: res, ..arith_flags(s1, res, ovf_sub(s1.acc, 1, res)) })
    } else if op == 20 {  // CMP: flags of BSUB, nothing stored
        let a = reg_val(s1.regs, x);
        let res = wrap_sub(a, s1.acc);
        (None, arith_flags(s1, res, ovf_sub(a, s1.acc, res)))
    } else if op == 21 {  // BSR
        (None, logic_result(s1, s1.acc >> (word & 7)))
    } else if op == 22 {  // BSL
        (None, logic_result(s1, s1.acc << (word & 7)))
    } else if op == 23 {  // PST
        (None, State { console: port_write_spec(s1.console, x, s1.acc), ..s1 })
    } else if op == 24 {  // PLD: no input ports exist, so every read is 0
        (None, State { acc: 0, ..s1 })
    } else if op == 25 {  // INC
        let res = wrap_add(s1.acc, 1);
        (None, State { acc: res, ..arith_flags(s1, res, ovf_add(s1.acc, 1, res)) })
    } else {  // opcodes 26 through 30 are not assigned
        (Some(Fault::IllegalOpcode { word, addr: here }), s1)
    }
}

/// The fault, if any, that stepping from `s` raises.
pub open spec fn step_fault(s: State) -> Option<Fault> {
    step_spec(s).0
}

/// The state one step from `s` leaves the machine in.
pub open spec fn step_state(s: State) -> State {
    step_spec(s).1
}

/// The seven mutable register slots; address 0 is handled in `read`/`write`
/// and has no slot here.
pub struct Regs {
    pub regs: Vec<u8>,
}

impl Regs {
    pub fn new() -> (r: Regs)
        ensures
            r.regs@ == zeroes(7),
    {
        let mut regs: Vec<u8> = Vec::new();
        let mut i: usize = 0;
        while i < 7
            invariant
                i <= 7,
                regs@ =~= zeroes(i as nat),
            decreases 7 - i,
        {
            regs.push(0);
            i = i + 1;
        }
        proof {
            assert(regs@ =~= zeroes(7));
        }
        Regs { regs }
    }

    pub fn read(&self, reg: usize) -> (r: u8)
        requires
            reg < 8,
            self.regs@.len() == 7,
        ensures
            r == reg_val(self.regs@, reg as int),
    {
        if reg == 0 {
            0
        } else {
            self.regs[reg - 1]
        }
    }

    pub fn write(&mut self, reg: usize, val: u8)
        requires
            reg < 8,
            old(self).regs@.len() == 7,
        ensures
            final(self).regs@ == reg_store(old(self).regs@, reg as int, val),
    {
        if reg != 0 {
            self.regs[reg - 1] = val;
        }
    }
}

/// The 8-slot I/O address space. Only port 7 does anything: writes to it
/// collect in `console_buf` until the buffer is flushed; reads from every
/// port return 0.
pub struct Ports {
    pub console_buf: Vec<u8>,
}

impl Ports {
    pub fn new() -> (r: Ports)
        ensures
            r.console_buf@ == Seq::<u8>::empty(),
    {
        Ports { console_buf: Vec::new() }
    }

    /// No input device is modeled, so a read from any port returns 0 and
    /// changes nothing.
    pub fn read(&mut self, _pos: usize) -> (r: u8)
        ensures
            r == 0,
            final(self).console_buf@ == old(self).console_buf@,
    {
        0
    }

    /// A write to port 7 appends the byte to the console buffer; a write to
    /// any other port is discarded.
    pub fn write(&mut self, pos: usize, val: u8)
        ensures
            final(self).console_buf@ == port_write_spec(old(self).console_buf@, pos as int, val),
    {
        if pos == 7 {
            self.console_buf.push(val);
        }
    }

    /// Drain the console buffer: the buffered bytes come out in the order
    /// they were written, and the buffer is left empty. Rendering them (one
    /// decimal value per line) is the caller's business.
    pub fn flush(&mut self) -> (out: Vec<u8>)
        ensures
            out@ == old(self).console_buf@,
            final(self).console_buf@ == Seq::<u8>::empty(),
    {
        let mut out: Vec<u8> = Vec::new();
        let mut i: usize = 0;
        while i < self.console_buf.len()
            invariant
                i <= self.console_buf.len(),
                self.console_buf@ == old(self).console_buf@,
                out@ =~= old(self).console_buf@.take(i as int),
            decreases self.console_buf.len() - i,
        {
            out.push(self.console_buf[i]);
            i = i + 1;
        }
        proof {
            assert(out@ =~= old(self).console_buf@);
        }
        self.console_buf = Vec::new();
        out
    }
}

/// The ASCII digit for `d` (0 through 9).
pub open spec fn ascii_digit(d: int) -> u8 {
    (48 + d) as u8
}

/// The shortest decimal rendering of a byte value as ASCII digits, no
/// leading zeroes.
pub open spec fn decimal_bytes(n: int) -> Seq<u8> {
    if n < 10 {
        seq![ascii_digit(n)]
    } else if n < 100 {
        seq![ascii_digit(n / 10), ascii_digit(n % 10)]
    } else {
        seq![ascii_digit(n / 100), ascii_digit((n / 10) % 10), ascii_digit(n % 10)]
    }
}

/// The console text a flushed buffer denotes: each value in decimal, one per
/// line (a newline byte after each).
pub open spec fn console_text_spec(vals: Seq<u8>) -> Seq<u8>
    decreases vals.len(),
{
    if vals.len() == 0 {
        Seq::empty()
    } else {
        decimal_bytes(vals[0] as int) + seq![10u8] + console_text_spec(vals.drop_first())
    }
}

/// Render drained console bytes as text, each value in decimal on a line of
/// its own — the exact bytes the driver is to put on the console.
pub fn console_text(vals: &Vec<u8>) -> (out: Vec<u8>)
    ensures
        out@ == console_text_spec(vals@),
{
    let mut out: Vec<u8> = Vec::new();
    let mut i: usize = 0;
    proof {
        assert(vals@.skip(0) =~= vals@);
        assert(out@ + console_text_spec(vals@) =~= console_text_spec(vals@));
    }
    while i < vals.len()
        invariant
            i <= vals@.len(),
            console_text_spec(vals@) == out@ + console_text_spec(vals@.skip(i as int)),
        decreases vals@.len() - i,
    {
        let n = vals[i];
        let ghost prev = out@;
        proof {
            assert(vals@.skip(i as int)[0] == n);
            assert(vals@.skip(i as int).drop_first() =~= vals@.skip(i as int + 1));
            assert(n / 10 < 26 && n / 100 < 3) by (nonlinear_arith)
                requires
                    n < 256,
            ;
        }
        if n < 10 {
            out.push(48 + n);
        } else if n < 100 {
            out.push(48 + n / 10);
            out.push(48 + n % 10);
        } else {
            out.push(48 + n / 100);
            out.push(48 + (n / 10) % 10);
            out.push(48 + n % 10);
        }
        out.push(10);
        proof {
            assert(out@ =~= prev + decimal_bytes(n as int) + seq![10u8]);
        }
        i = i + 1;
    }
    proof {
        assert(vals@.skip(vals@.len() as int) =~= Seq::<u8>::empty());
    }
    out
}

/// A step that fetches an ADD instruction whose register operand reads `a`,
/// with `b` in the accumulator, stores `(a + b) mod 256` in the accumulator
/// and sets carry exactly when `a + b` overflows the 8-bit range.
pub proof fn lemma_add_wraps(s: State, a: u8, b: u8)
    requires
        s.valid(),
        s.rom[fetch_addr(s)] >> 3 == 1,
        reg_val(s.regs, (s.rom[fetch_addr(s)] & 7) as int) == a,
        s.acc == b,
    ensures
        step_fault(s) is None,
        step_state(s).acc == (a + b) % 256,
        step_state(s).carry == (a + b >= 256),
{
    assert(wrap_add(a, b) == (a + b) % 256);
}

/// SUB stores `(b - a) mod 256` (accumulator minus register) and sets carry
/// exactly when the unbounded difference taken in the *opposite* order,
/// `a - b`, differs from the stored result — the operand-order asymmetry of
/// this instruction set.
pub proof fn lemma_sub_wraps(s: State, a: u8, b: u8)
    requires
        s.valid(),
        s.rom[fetch_addr(s)] >> 3 == 2,
        reg_val(s.regs, (s.rom[fetch_addr(s)] & 7) as int) == a,
        s.acc == b,
    ensures
        step_fault(s) is None,
        step_state(s).acc == (b - a) % 256,
        step_state(s).carry == (a - b != step_state(s).acc),
{
    assert(wrap_sub(b, a) == (b - a) % 256);
}

/// BSUB stores `(a - b) mod 256` (register minus accumulator) and sets carry
/// exactly when the unbounded `a - b` differs from the stored result, i.e.
/// on underflow.
pub proof fn lemma_bsub_wraps(s: State, a: u8, b: u8)
    requires
        s.valid(),
        s.rom[fetch_addr(s)] >> 3 == 3,
        reg_val(s.regs, (s.rom[fetch_addr(s)] & 7) as int) == a,
        s.acc == b,
    ensures
        step_fault(s) is None,
        step_state(s).acc == (a - b) % 256,
        step_state(s).carry == (a - b != step_state(s).acc),
{
    assert(wrap_sub(a, b) == (a - b) % 256);
}

/// CMP computes the flags of BSUB — carry iff the unbounded `a - b` differs
/// from `(a - b) mod 256` — and stores nothing: accumulator and registers
/// are left as they were.
pub proof fn lemma_cmp_wraps(s: State, a: u8, b: u8)
    requires
        s.valid(),
        s.rom[fetch_addr(s)] >> 3 == 20,
        reg_val(s.regs, (s.rom[fetch_addr(s)] & 7) as int) == a,
        s.acc == b,
    ensures
        step_fault(s) is None,
        step_state(s).acc == b,
        step_state(s).regs == s.regs,
        step_state(s).carry == (a - b != (a - b) % 256),
        step_state(s).zero == ((a - b) % 256 == 0),
{
    assert(wrap_sub(a, b) == (a - b) % 256);
}

/// DEC stores `(b - 1) mod 256` and sets carry exactly when the unbounded
/// `b - 1` differs from the stored result, i.e. when the accumulator was 0.
pub proof fn lemma_dec_wraps(s: State, b: u8)
    requires
        s.valid(),
        s.rom[fetch_addr(s)] >> 3 == 19,
        s.acc == b,
    ensures
        step_fault(s) is None,
        step_state(s).acc == (b - 1) % 256,
        step_state(s).carry == (b - 1 != step_state(s).acc),
        step_state(s).carry == (b == 0),
{
    assert(wrap_sub(b, 1) == (b - 1) % 256);
}

/// INC stores `(b + 1) mod 256` and sets carry exactly when `b + 1`
/// overflows the 8-bit range, i.e. when the accumulator was 255.
pub proof fn lemma_inc_wraps(s: State, b: u8)
    requires
        s.valid(),
        s.rom[fetch_addr(s)] >> 3 == 25,
        s.acc == b,
    ensures
        step_fault(s) is None,
        step_state(s).acc == (b + 1) % 256,
        step_state(s).carry == (b + 1 >= 256),
        step_state(s).carry == (b == 255),
{
    assert(wrap_add(b, 1) == (b + 1) % 256);
}

/// Register address 0 reads 0 whatever the file holds, and a write aimed at
/// it changes nothing — so it reads 0 regardless of prior writes.
pub proof fn lemma_zero_register(regs: Seq<u8>, v: u8)
    ensures
        reg_val(regs, 0) == 0,
        reg_store(regs, 0, v) == regs,
{
}

/// From the transient pc value 32, advancing wraps pc to 0 and increments
/// the page as a plain wrapping byte; from any other pc it just adds 1.
pub proof fn lemma_pc_wrap(s: State)
    requires
        s.pc <= 32,
    ensures
        s.pc == 32 ==> inc_pc_spec(s).pc == 0 && inc_pc_spec(s).page == (s.page + 1) % 256,
        s.pc != 32 ==> inc_pc_spec(s).pc == s.pc + 1 && inc_pc_spec(s).page == s.page,
{
    assert(s.pc == 32 ==> wrap_add(s.page, 1) == (s.page + 1) % 256);
}

/// Port writes land in the console buffer in write order: two successive
/// writes to port 7 append exactly those two bytes, oldest first. `flush`
/// then hands the buffer out unchanged and leaves it empty (its `ensures`).
pub proof fn lemma_console_order(console: Seq<u8>, a: u8, b: u8)
    ensures
        port_write_spec(port_write_spec(console, 7, a), 7, b) == console + seq![a, b],
{
    assert(port_write_spec(port_write_spec(console, 7, a), 7, b) =~= console + seq![a, b]);
}

/// A PST step aimed at port 7 appends exactly the accumulator byte to the
/// console buffer; aimed at any other port it changes the buffer not at all.
pub proof fn lemma_pst_appends(s: State)
    requires
        s.valid(),
        s.rom[fetch_addr(s)] >> 3 == 23,
    ensures
        step_fault(s) is None,
        s.rom[fetch_addr(s)] & 7 == 7 ==> step_state(s).console == s.console.push(s.acc),
        s.rom[fetch_addr(s)] & 7 != 7 ==> step_state(s).console == s.console,
{
}

/// PLD loads 0 into the accumulator from every port, and touches neither
/// the flags nor any memory.
pub proof fn lemma_pld_reads_zero(s: State)
    requires
        s.valid(),
        s.rom[fetch_addr(s)] >> 3 == 24,
    ensures
        step_fault(s) is None,
        step_state(s).acc == 0,
        step_state(s).zero == s.zero,
        step_state(s).msb == s.msb,
        step_state(s).carry == s.carry,
        step_state(s).ram == s.ram,
        step_state(s).regs == s.regs,
        step_state(s).console == s.console,
{
}

/// Opcodes 26 through 30 are fatal: the step reports an illegal-opcode
/// fault naming the raw word and its effective address, rather than acting
/// as a no-op.
pub proof fn lemma_illegal_opcode_faults(s: State)
    requires
        s.valid(),
        26 <= s.rom[fetch_addr(s)] >> 3 <= 30,
    ensures
        step_fault(s) == Some(Fault::IllegalOpcode {
            word: s.rom[fetch_addr(s)],
            addr: fetch_addr(s) as u16,
        }),
{
}

/// True iff the unbounded sum `a + b` differs from the stored result `sum`,
/// i.e. the addition overflowed the 8-bit range.
pub fn is_ovf_add(a: u8, b: u8, sum: u8) -> (r: bool)
    ensures
        r == ovf_add(a, b, sum),
{
    (a as u16) + (b as u16) != (sum as u16)
}

/// True iff the unbounded difference `a - b` differs from the stored result
/// `sum`, i.e. the subtraction left the 8-bit range.
pub fn is_ovf_sub(a: u8, b: u8, sum: u8) -> (r: bool)
    ensures
        r == ovf_sub(a, b, sum),
{
    (a as i16) - (b as i16) != (sum as i16)
}

/// The processor: all architectural state, mutated only through `load_rom`
/// and `exec_opcode`. `State` (reached as `self@`) is its mathematical view.
pub struct CPU {
    pub rom: Vec<u8>,
    pub pc: u8,
    pub page: u8,
    pub ram: Vec<u8>,
    pub regs: Regs,
    pub acc: u8,
    pub zero: bool,
    pub msb: bool,
    pub carry: bool,
    pub halted: bool,
    pub ports: Ports,
}

impl View for CPU {
    type V = State;

    open spec fn view(&self) -> State {
        State {
            rom: self.rom@,
            pc: self.pc,
            page: self.page,
            ram: self.ram@,
            regs: self.regs.regs@,
            acc: self.acc,
            zero: self.zero,
            msb: self.msb,
            carry: self.carry,
            halted: self.halted,
            console: self.ports.console_buf@,
        }
    }
}

fn zero_bytes(n: usize) -> (v: Vec<u8>)
    ensures
        v@ == zeroes(n as nat),
{
    let mut v: Vec<u8> = Vec::new();
    let mut i: usize = 0;
    while i < n
        invariant
            i <= n,
            v@ =~= zeroes(i as nat),
        decreases n - i,
    {
        v.push(0);
        i = i + 1;
    }
    proof {
        assert(v@ =~= zeroes(n as nat));
    }
    v
}

impl CPU {
    /// A processor with every memory, register and flag zeroed.
    pub fn new() -> (c: CPU)
        ensures
            c@ == initial_state(),
            c@.valid(),
    {
        let c = CPU {
            rom: zero_bytes(1024),
            pc: 0,
            page: 0,
            ram: zero_bytes(32),
            regs: Regs::new(),
            acc: 0,
            zero: false,
            msb: false,
            carry: false,
            halted: false,
            ports: Ports::new(),
        };
        proof {
            assert(c@ =~= initial_state());
        }
        c
    }

    /// Copy an image into ROM starting at offset 0; ROM bytes past the image
    /// keep their previous value. The image must fit in the 1024-byte ROM.
    pub fn load_rom(&mut self, rom: Vec<u8>)
        requires
            old(self)@.valid(),
            rom@.len() <= 1024,
        ensures
            final(self)@.valid(),
            final(self)@ == (State {
                rom: rom@ + old(self)@.rom.skip(rom@.len() as int),
                ..old(self)@
            }),
    {
        let mut pos: usize = 0;
        while pos < rom.len()
            invariant
                pos <= rom.len(),
                rom@.len() <= 1024,
                self.rom@.len() == 1024,
                forall|i: int| 0 <= i < pos ==> self.rom@[i] == rom@[i],
                forall|i: int| pos <= i < 1024 ==> self.rom@[i] == old(self)@.rom[i],
                self.pc == old(self).pc,
                self.page == old(self).page,
                self.ram@ == old(self)@.ram,
                self.regs.regs@ == old(self)@.regs,
                self.acc == old(self).acc,
                self.zero == old(self).zero,
                self.msb == old(self).msb,
                self.carry == old(self).carry,
                self.halted == old(self).halted,
                self.ports.console_buf@ == old(self)@.console,
            decreases rom.len() - pos,
        {
            self.rom[pos] = rom[pos];
            pos = pos + 1;
        }
        proof {
            assert(self.rom@ =~= rom@ + old(self)@.rom.skip(rom@.len() as int));
            assert(self@ =~= (State {
                rom: rom@ + old(self)@.rom.skip(rom@.len() as int),
                ..old(self)@
            }));
        }
    }

    /// Advance linear control flow by one word: see `inc_pc_spec`.
    fn inc_pc(&mut self)
        requires
            old(self)@.valid(),
        ensures
            final(self)@.valid(),
            final(self)@ == inc_pc_spec(old(self)@),
    {
        if self.pc == 32 {
            self.page = self.page.wrapping_add(1);
            self.pc = 0;
        } else {
            self.pc = self.pc + 1;
        }
        proof {
            assert(self@ =~= inc_pc_spec(old(self)@));
        }
    }

    /// Fetch the word at the current effective address and advance pc/page
    /// past it. Used for the immediate of LDI, ICS and BRC.
    fn get_imm(&mut self) -> (r: u8)
        requires
            old(self)@.valid(),
        ensures
            final(self)@.valid(),
            r == old(self)@.rom[fetch_addr(old(self)@)],
            final(self)@ == inc_pc_spec(old(self)@),
    {
        let addr: usize = ((self.pc as usize) + (self.page as usize) * 32) % 1024;
        let ret = self.rom[addr];
        self.inc_pc();
        ret
    }

    /// Whether condition code `operand` holds of the current flags.
    fn eval_cond(&self, operand: u8) -> (r: bool)
        requires
            cond_legal(operand),
        ensures
            r == cond_holds(self@, operand),
    {
        match operand {
            1 => self.zero,
            2 => !self.zero,
            3 => self.msb,
            4 => !self.msb,
            5 => self.carry,
            6 => !self.carry,
            _ => true,
        }
    }

    /// Execute exactly one instruction: fetch the word at the effective
    /// address, advance pc/page, then apply the opcode's effect, exactly as
    /// `step_spec` says. An illegal opcode (26 through 30) or an illegal
    /// condition-code operand (0) is a fatal condition and comes back as
    /// `Err`, with the machine left as it stood when the fault was detected.
    #[verifier::rlimit(100)]
    #[verifier::spinoff_prover]
    pub fn exec_opcode(&mut self) -> (r: Result<(), Fault>)
        requires
            old(self)@.valid(),
        ensures
            final(self)@.valid(),
            final(self)@ == step_state(old(self)@),
            (match r {
                Ok(()) => step_fault(old(self)@) is None,
                Err(f) => step_fault(old(self)@) == Some(f),
            }),
    {
        let addr: usize = ((self.pc as usize) + (self.page as usize) * 32) % 1024;
        let word = self.rom[addr];
        let opcode = word >> 3;
        let operand = word & 0b0000_0111;
        proof {
            assert(word & 7 < 8 && word >> 3 < 32) by (bit_vector);
            assert(addr == fetch_addr(self@));
        }
        self.inc_pc();
        match opcode {
            0 => (),
            0b11111 => {
                self.halted = true;
            },
            1 => {
                // ADD
                let a = self.regs.read(operand as usize);
                let res = a.wrapping_add(self.acc);
                let ovf = is_ovf_add(a, self.acc, res);
                self.set_flags(ovf, res & 0b1000_0000 != 0, res == 0);
                self.acc = res;
            },
            2 => {
                // SUB
                let a = self.regs.read(operand as usize);
                let res = self.acc.wrapping_sub(a);
                let ovf = is_ovf_sub(a, self.acc, res);
                self.set_flags(ovf, res & 0b1000_0000 != 0, res == 0);
                self.acc = res;
            },
            3 => {
                // BSUB
                let a = self.regs.read(operand as usize);
                let res = a.wrapping_sub(self.acc);
                let ovf = is_ovf_sub(a, self.acc, res);
                self.set_flags(ovf, res & 0b1000_0000 != 0, res == 0);
                self.acc = res;
            },
            4 => {
                // OR
                self.acc = self.acc | self.regs.read(operand as usize);
                let res = self.acc;
                self.set_flags(false, res & 0b1000_0000 != 0, res == 0);
            },
            5 => {
                // NOR
                self.acc = !(self.acc | self.regs.read(operand as usize));
                let res = self.acc;
                self.set_flags(false, res & 0b1000_0000 != 0, res == 0);
            },
            6 => {
                // AND
                self.acc = self.acc & self.regs.read(operand as usize);
                let res = self.acc;
                self.set_flags(false, res & 0b1000_0000 != 0, res == 0);
            },
            7 => {
                // NAND
                self.acc = !(self.acc & self.regs.read(operand as usize));
                let res = self.acc;
                self.set_flags(false, res & 0b1000_0000 != 0, res == 0);
            },
            8 => {
                // XOR
                self.acc = self.acc ^ self.regs.read(operand as usize);
                let res = self.acc;
                self.set_flags(false, res & 0b1000_0000 != 0, res == 0);
            },
            9 => {
                // XNOR
                self.acc = !(self.acc ^ self.regs.read(operand as usize));
                let res = self.acc;
                self.set_flags(false, res & 0b1000_0000 != 0, res == 0);
            },
            10 => {
                // LDI
                let imm = self.get_imm();
                self.regs.write(operand as usize, imm);
            },
            11 => {
                // ADR
                let a = self.regs.read(operand as usize);
                let res = a.wrapping_add(self.acc);
                let ovf = is_ovf_add(a, self.acc, res);
                self.set_flags(ovf, res & 0b1000_0000 != 0, res == 0);
                self.regs.write(operand as usize, res);
            },
            12 => {
                // RLD
                self.acc = self.regs.read(operand as usize);
            },
            13 => {
                // RST
                self.regs.write(operand as usize, self.acc);
            },
            14 => {
                // MST
                self.ram[operand as usize] = self.acc;
            },
            15 => {
                // MLD
                self.acc = self.ram[operand as usize];
            },
            16 => {
                // ICS
                if operand == 0 {
                    return Err(Fault::IllegalCond { operand, addr: addr as u16 });
                }
                if self.eval_cond(operand) {
                    let imm = self.get_imm();
                    self.page = imm >> 3;
                } else {
                    self.inc_pc();
                }
            },
            17 => {
                // JID
                let target = self.regs.read(operand as usize) & 0b11111;
                proof {
                    assert(forall|v: u8| #[trigger] (v & 0b11111u8) <= 32) by (bit_vector);
                }
                self.pc = target;
            },
            18 => {
                // BRC
                if operand == 0 {
                    return Err(Fault::IllegalCond { operand, addr: addr as u16 });
                }
                if self.eval_cond(operand) {
                    let imm = self.get_imm();
                    self.pc = (imm & 0b11111) >> 3;
                    proof {
                        assert((imm & 0b11111u8) >> 3u8 <= 32) by (bit_vector);
                    }
                } else {
                    self.inc_pc();
                }
            },
            19 => {
                // DEC
                let res = self.acc.wrapping_sub(1);
                let ovf = is_ovf_sub(self.acc, 1, res);
                self.set_flags(ovf, res & 0b1000_0000 != 0, res == 0);
                self.acc = res;
            },
            20 => {
                // CMP
                let a = self.regs.read(operand as usize);
                let res = a.wrapping_sub(self.acc);
                let ovf = is_ovf_sub(a, self.acc, res);
                self.set_flags(ovf, res & 0b1000_0000 != 0, res == 0);
            },
            21 => {
                // BSR
                self.acc = self.acc >> operand;
                let res = self.acc;
                self.set_flags(false, res & 0b1000_0000 != 0, res == 0);
            },
            22 => {
                // BSL
                self.acc = self.acc << operand;
                let res = self.acc;
                self.set_flags(false, res & 0b1000_0000 != 0, res == 0);
            },
            23 => {
                // PST
                self.ports.write(operand as usize, self.acc);
            },
            24 => {
                // PLD
                self.acc = self.ports.read(operand as usize);
            },
            25 => {
                // INC
                let res = self.acc.wrapping_add(1);
                let ovf = is_ovf_add(self.acc, 1, res);
                self.set_flags(ovf, res & 0b1000_0000 != 0, res == 0);
                self.acc = res;
            },
            _ => {
                return Err(Fault::IllegalOpcode { word, addr: addr as u16 });
            },
        }
        Ok(())
    }

    /// Set all three flags at once: carry, sign, zero.
    fn set_flags(&mut self, ovf: bool, sign: bool, zr: bool)
        ensures
            final(self)@ == (State { carry: ovf, msb: sign, zero: zr, ..old(self)@ }),
    {
        self.carry = ovf;
        self.msb = sign;
        self.zero = zr;
        proof {
            assert(self@ =~= (State { carry: ovf, msb: sign, zero: zr, ..old(self)@ }));
        }
    }
}

} // verus!
