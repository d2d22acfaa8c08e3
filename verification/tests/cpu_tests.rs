use minicpu::cpu::{Fault, CPU};

/// Instruction word: top 5 bits opcode, low 3 bits operand.
fn enc(op: u8, operand: u8) -> u8 {
    (op << 3) | operand
}

/// A fresh CPU with `image` loaded at ROM offset 0.
fn cpu_with_rom(image: Vec<u8>) -> CPU {
    let mut cpu = CPU::new();
    cpu.load_rom(image);
    cpu
}

#[test]
fn new_is_zeroed() {
    let cpu = CPU::new();
    assert_eq!(cpu.pc, 0);
    assert_eq!(cpu.page, 0);
    assert_eq!(cpu.acc, 0);
    assert!(!cpu.zero);
    assert!(!cpu.msb);
    assert!(!cpu.carry);
    assert!(!cpu.halted);
    assert_eq!(cpu.rom.len(), 1024);
    assert!(cpu.rom.iter().all(|&b| b == 0));
    assert_eq!(cpu.ram.len(), 32);
    assert!(cpu.ram.iter().all(|&b| b == 0));
    assert_eq!(cpu.regs.regs.len(), 7);
    assert!(cpu.regs.regs.iter().all(|&b| b == 0));
    assert!(cpu.ports.console_buf.is_empty());
}

#[test]
fn load_rom_overwrites_only_prefix() {
    let mut cpu = CPU::new();
    cpu.load_rom(vec![9, 9, 9, 9]);
    cpu.load_rom(vec![1, 2]);
    assert_eq!(cpu.rom[0], 1);
    assert_eq!(cpu.rom[1], 2);
    assert_eq!(cpu.rom[2], 9);
    assert_eq!(cpu.rom[3], 9);
    assert_eq!(cpu.rom[4], 0);
}

#[test]
fn add_wraps_and_sets_carry() {
    let mut cpu = cpu_with_rom(vec![enc(1, 1)]);
    cpu.regs.regs[0] = 200;
    cpu.acc = 100;
    assert_eq!(cpu.exec_opcode(), Ok(()));
    assert_eq!(cpu.acc, 44); // (200 + 100) mod 256
    assert!(cpu.carry);
    assert!(!cpu.zero);
    assert!(!cpu.msb);
    assert_eq!(cpu.pc, 1);
}

#[test]
fn add_no_carry() {
    let mut cpu = cpu_with_rom(vec![enc(1, 2)]);
    cpu.regs.regs[1] = 3;
    cpu.acc = 4;
    assert_eq!(cpu.exec_opcode(), Ok(()));
    assert_eq!(cpu.acc, 7);
    assert!(!cpu.carry);
}

#[test]
fn add_to_exactly_256_wraps_to_zero() {
    let mut cpu = cpu_with_rom(vec![enc(1, 1)]);
    cpu.regs.regs[0] = 200;
    cpu.acc = 56;
    assert_eq!(cpu.exec_opcode(), Ok(()));
    assert_eq!(cpu.acc, 0);
    assert!(cpu.carry);
    assert!(cpu.zero);
    assert!(!cpu.msb);
}

#[test]
fn sub_carry_uses_reversed_operand_order() {
    // SUB stores acc - reg, but checks reg - acc against the result: with
    // reg = 3 and acc = 5 the stored result is 2, and 3 - 5 != 2, so carry
    // is set even though acc - reg did not underflow.
    let mut cpu = cpu_with_rom(vec![enc(2, 1)]);
    cpu.regs.regs[0] = 3;
    cpu.acc = 5;
    assert_eq!(cpu.exec_opcode(), Ok(()));
    assert_eq!(cpu.acc, 2);
    assert!(cpu.carry);
}

#[test]
fn sub_carry_clear_when_difference_is_128() {
    // reg - acc = 128 is the one underflowing case whose reversed check
    // agrees with the stored result: 200 - 72 = 128 == (72 - 200) mod 256.
    let mut cpu = cpu_with_rom(vec![enc(2, 1)]);
    cpu.regs.regs[0] = 200;
    cpu.acc = 72;
    assert_eq!(cpu.exec_opcode(), Ok(()));
    assert_eq!(cpu.acc, 128);
    assert!(!cpu.carry);
    assert!(cpu.msb);
}

#[test]
fn sub_equal_operands_gives_zero_no_carry() {
    let mut cpu = cpu_with_rom(vec![enc(2, 1)]);
    cpu.regs.regs[0] = 7;
    cpu.acc = 7;
    assert_eq!(cpu.exec_opcode(), Ok(()));
    assert_eq!(cpu.acc, 0);
    assert!(!cpu.carry);
    assert!(cpu.zero);
}

#[test]
fn bsub_wraps_and_sets_carry_on_underflow() {
    let mut cpu = cpu_with_rom(vec![enc(3, 1)]);
    cpu.regs.regs[0] = 3;
    cpu.acc = 5;
    assert_eq!(cpu.exec_opcode(), Ok(()));
    assert_eq!(cpu.acc, 254); // (3 - 5) mod 256
    assert!(cpu.carry);
    assert!(cpu.msb);
    assert!(!cpu.zero);
}

#[test]
fn bsub_no_underflow_no_carry() {
    let mut cpu = cpu_with_rom(vec![enc(3, 1)]);
    cpu.regs.regs[0] = 5;
    cpu.acc = 3;
    assert_eq!(cpu.exec_opcode(), Ok(()));
    assert_eq!(cpu.acc, 2);
    assert!(!cpu.carry);
}

#[test]
fn cmp_sets_flags_and_stores_nothing() {
    let mut cpu = cpu_with_rom(vec![enc(20, 1)]);
    cpu.regs.regs[0] = 5;
    cpu.acc = 5;
    assert_eq!(cpu.exec_opcode(), Ok(()));
    assert_eq!(cpu.acc, 5);
    assert_eq!(cpu.regs.regs[0], 5);
    assert!(cpu.zero);
    assert!(!cpu.carry);
    assert!(!cpu.msb);
}

#[test]
fn cmp_underflow_sets_carry() {
    let mut cpu = cpu_with_rom(vec![enc(20, 1)]);
    cpu.regs.regs[0] = 1;
    cpu.acc = 2;
    assert_eq!(cpu.exec_opcode(), Ok(()));
    assert_eq!(cpu.acc, 2);
    assert!(cpu.carry); // 1 - 2 != 255
    assert!(cpu.msb); // result 255 has bit 7 set
}

#[test]
fn dec_wraps_at_zero() {
    let mut cpu = cpu_with_rom(vec![enc(19, 0)]);
    cpu.acc = 0;
    assert_eq!(cpu.exec_opcode(), Ok(()));
    assert_eq!(cpu.acc, 255);
    assert!(cpu.carry);
    assert!(cpu.msb);
    assert!(!cpu.zero);
}

#[test]
fn dec_plain() {
    let mut cpu = cpu_with_rom(vec![enc(19, 0)]);
    cpu.acc = 5;
    assert_eq!(cpu.exec_opcode(), Ok(()));
    assert_eq!(cpu.acc, 4);
    assert!(!cpu.carry);
}

#[test]
fn inc_wraps_at_255() {
    let mut cpu = cpu_with_rom(vec![enc(25, 0)]);
    cpu.acc = 255;
    assert_eq!(cpu.exec_opcode(), Ok(()));
    assert_eq!(cpu.acc, 0);
    assert!(cpu.carry);
    assert!(cpu.zero);
}

#[test]
fn inc_plain() {
    let mut cpu = cpu_with_rom(vec![enc(25, 0)]);
    cpu.acc = 5;
    assert_eq!(cpu.exec_opcode(), Ok(()));
    assert_eq!(cpu.acc, 6);
    assert!(!cpu.carry);
}

#[test]
fn logic_ops_set_flags_and_clear_carry() {
    // OR
    let mut cpu = cpu_with_rom(vec![enc(4, 1)]);
    cpu.regs.regs[0] = 0b1010_0000;
    cpu.acc = 0b0000_0101;
    cpu.carry = true;
    assert_eq!(cpu.exec_opcode(), Ok(()));
    assert_eq!(cpu.acc, 0b1010_0101);
    assert!(!cpu.carry);
    assert!(cpu.msb);
    assert!(!cpu.zero);

    // NOR
    let mut cpu = cpu_with_rom(vec![enc(5, 1)]);
    cpu.regs.regs[0] = 0b1010_0000;
    cpu.acc = 0b0000_0101;
    assert_eq!(cpu.exec_opcode(), Ok(()));
    assert_eq!(cpu.acc, 0b0101_1010);

    // AND
    let mut cpu = cpu_with_rom(vec![enc(6, 1)]);
    cpu.regs.regs[0] = 0b1100_1100;
    cpu.acc = 0b1010_1010;
    cpu.carry = true;
    assert_eq!(cpu.exec_opcode(), Ok(()));
    assert_eq!(cpu.acc, 0b1000_1000);
    assert!(!cpu.carry);

    // NAND
    let mut cpu = cpu_with_rom(vec![enc(7, 1)]);
    cpu.regs.regs[0] = 0b1100_1100;
    cpu.acc = 0b1010_1010;
    assert_eq!(cpu.exec_opcode(), Ok(()));
    assert_eq!(cpu.acc, 0b0111_0111);

    // XOR
    let mut cpu = cpu_with_rom(vec![enc(8, 1)]);
    cpu.regs.regs[0] = 0b1100_1100;
    cpu.acc = 0b1010_1010;
    assert_eq!(cpu.exec_opcode(), Ok(()));
    assert_eq!(cpu.acc, 0b0110_0110);

    // XNOR
    let mut cpu = cpu_with_rom(vec![enc(9, 1)]);
    cpu.regs.regs[0] = 0b1100_1100;
    cpu.acc = 0b1010_1010;
    assert_eq!(cpu.exec_opcode(), Ok(()));
    assert_eq!(cpu.acc, 0b1001_1001);
}

#[test]
fn xor_of_equal_values_sets_zero() {
    let mut cpu = cpu_with_rom(vec![enc(8, 1)]);
    cpu.regs.regs[0] = 0b0101_0101;
    cpu.acc = 0b0101_0101;
    assert_eq!(cpu.exec_opcode(), Ok(()));
    assert_eq!(cpu.acc, 0);
    assert!(cpu.zero);
}

#[test]
fn shifts_use_operand_as_count() {
    let mut cpu = cpu_with_rom(vec![enc(21, 2)]);
    cpu.acc = 0b1011_0100;
    cpu.carry = true;
    assert_eq!(cpu.exec_opcode(), Ok(()));
    assert_eq!(cpu.acc, 0b0010_1101);
    assert!(!cpu.carry);

    let mut cpu = cpu_with_rom(vec![enc(22, 3)]);
    cpu.acc = 0b1011_0100;
    assert_eq!(cpu.exec_opcode(), Ok(()));
    assert_eq!(cpu.acc, 0b1010_0000); // high bits fall off
    assert!(cpu.msb);
}

#[test]
fn bsl_to_zero_sets_zero_flag() {
    let mut cpu = cpu_with_rom(vec![enc(22, 7)]);
    cpu.acc = 0b0111_1110;
    assert_eq!(cpu.exec_opcode(), Ok(()));
    assert_eq!(cpu.acc, 0);
    assert!(cpu.zero);
}

#[test]
fn ldi_loads_next_word_and_skips_it() {
    let mut cpu = cpu_with_rom(vec![enc(10, 1), 42, enc(31, 0)]);
    cpu.zero = true;
    assert_eq!(cpu.exec_opcode(), Ok(()));
    assert_eq!(cpu.regs.regs[0], 42);
    assert_eq!(cpu.pc, 2); // the immediate was consumed
    assert!(cpu.zero); // flags unaffected
}

#[test]
fn adr_stores_to_register_and_keeps_acc() {
    let mut cpu = cpu_with_rom(vec![enc(11, 2)]);
    cpu.regs.regs[1] = 7;
    cpu.acc = 5;
    assert_eq!(cpu.exec_opcode(), Ok(()));
    assert_eq!(cpu.regs.regs[1], 12);
    assert_eq!(cpu.acc, 5);
    assert!(!cpu.carry);
}

#[test]
fn rld_and_rst_move_between_acc_and_register() {
    let mut cpu = cpu_with_rom(vec![enc(13, 3), enc(12, 3)]);
    cpu.acc = 99;
    assert_eq!(cpu.exec_opcode(), Ok(())); // RST r3
    assert_eq!(cpu.regs.regs[2], 99);
    cpu.acc = 0;
    assert_eq!(cpu.exec_opcode(), Ok(())); // RLD r3
    assert_eq!(cpu.acc, 99);
}

#[test]
fn zero_register_reads_zero_after_writes() {
    // RST to register 0, LDI into register 0, then RLD from register 0.
    let mut cpu = cpu_with_rom(vec![enc(13, 0), enc(10, 0), 99, enc(12, 0)]);
    cpu.acc = 77;
    assert_eq!(cpu.exec_opcode(), Ok(())); // RST r0: discarded
    assert_eq!(cpu.exec_opcode(), Ok(())); // LDI r0, 99: discarded
    assert_eq!(cpu.exec_opcode(), Ok(())); // RLD r0
    assert_eq!(cpu.acc, 0);
    assert!(cpu.regs.regs.iter().all(|&b| b == 0));
}

#[test]
fn add_through_zero_register_adds_nothing() {
    let mut cpu = cpu_with_rom(vec![enc(1, 0)]);
    cpu.acc = 5;
    assert_eq!(cpu.exec_opcode(), Ok(()));
    assert_eq!(cpu.acc, 5);
    assert!(!cpu.carry);
}

#[test]
fn mst_and_mld_use_ram() {
    let mut cpu = cpu_with_rom(vec![enc(14, 3), enc(15, 3)]);
    cpu.acc = 123;
    assert_eq!(cpu.exec_opcode(), Ok(())); // MST
    assert_eq!(cpu.ram[3], 123);
    cpu.acc = 0;
    assert_eq!(cpu.exec_opcode(), Ok(())); // MLD
    assert_eq!(cpu.acc, 123);
}

#[test]
fn pc_wraps_after_33_nops() {
    // A ROM of NOPs: pc runs 0..=31, transiently reaches 32, then wraps to 0
    // with the page incremented.
    let mut cpu = CPU::new();
    for _ in 0..32 {
        assert_eq!(cpu.exec_opcode(), Ok(()));
    }
    assert_eq!(cpu.pc, 32); // the documented transient out-of-range value
    assert_eq!(cpu.page, 0);
    assert_eq!(cpu.exec_opcode(), Ok(()));
    assert_eq!(cpu.pc, 0);
    assert_eq!(cpu.page, 1);
}

#[test]
fn jid_masks_register_to_five_bits() {
    let mut image = vec![0u8; 65];
    image[64] = enc(17, 1); // page 2, pc 0
    let mut cpu = cpu_with_rom(image);
    cpu.regs.regs[0] = 0xFF;
    cpu.page = 2;
    assert_eq!(cpu.exec_opcode(), Ok(()));
    assert_eq!(cpu.pc, 31);
    assert_eq!(cpu.page, 2); // page unchanged
}

#[test]
fn brc_taken_masks_then_shifts_target() {
    let mut cpu = cpu_with_rom(vec![enc(18, 7), 0b1111_1111]);
    assert_eq!(cpu.exec_opcode(), Ok(()));
    assert_eq!(cpu.pc, 3); // (imm & 0b11111) >> 3
    assert_eq!(cpu.page, 0);
}

#[test]
fn brc_not_taken_skips_immediate() {
    let mut cpu = cpu_with_rom(vec![enc(18, 1), 0b1111_1111]);
    // condition 1 wants the zero flag, which is clear
    assert_eq!(cpu.exec_opcode(), Ok(()));
    assert_eq!(cpu.pc, 2);
}

#[test]
fn ics_taken_sets_page_from_immediate_top_bits() {
    let mut cpu = cpu_with_rom(vec![enc(16, 7), 0b1010_0000]);
    assert_eq!(cpu.exec_opcode(), Ok(()));
    assert_eq!(cpu.page, 0b10100);
    assert_eq!(cpu.pc, 2); // pc advanced past the immediate, not reset
}

#[test]
fn ics_not_taken_skips_immediate() {
    let mut cpu = cpu_with_rom(vec![enc(16, 1), 0b1010_0000]);
    assert_eq!(cpu.exec_opcode(), Ok(()));
    assert_eq!(cpu.page, 0);
    assert_eq!(cpu.pc, 2);
}

#[test]
fn condition_codes_follow_flags() {
    // condition 5: carry set
    let mut cpu = cpu_with_rom(vec![enc(18, 5), 0b1111_1111]);
    cpu.carry = true;
    assert_eq!(cpu.exec_opcode(), Ok(()));
    assert_eq!(cpu.pc, 3);

    // condition 4: msb clear
    let mut cpu = cpu_with_rom(vec![enc(18, 4), 0b1111_1111]);
    cpu.msb = true;
    assert_eq!(cpu.exec_opcode(), Ok(()));
    assert_eq!(cpu.pc, 2); // not taken

    // condition 6: carry clear
    let mut cpu = cpu_with_rom(vec![enc(18, 6), 0b1111_1111]);
    assert_eq!(cpu.exec_opcode(), Ok(()));
    assert_eq!(cpu.pc, 3);
}

#[test]
fn illegal_condition_code_is_fatal() {
    let mut cpu = cpu_with_rom(vec![enc(16, 0), 0]);
    assert_eq!(
        cpu.exec_opcode(),
        Err(Fault::IllegalCond { operand: 0, addr: 0 })
    );

    let mut cpu = cpu_with_rom(vec![0, enc(18, 0), 0]);
    assert_eq!(cpu.exec_opcode(), Ok(()));
    assert_eq!(
        cpu.exec_opcode(),
        Err(Fault::IllegalCond { operand: 0, addr: 1 })
    );
}

#[test]
fn pst_to_port_7_buffers_and_flush_drains_in_order() {
    let mut cpu = cpu_with_rom(vec![enc(23, 7), enc(25, 0), enc(23, 7)]);
    cpu.acc = 10;
    assert_eq!(cpu.exec_opcode(), Ok(())); // PST 10
    assert_eq!(cpu.exec_opcode(), Ok(())); // INC
    assert_eq!(cpu.exec_opcode(), Ok(())); // PST 11
    assert_eq!(cpu.ports.console_buf, vec![10, 11]);
    let out = cpu.ports.flush();
    assert_eq!(out, vec![10, 11]);
    assert!(cpu.ports.console_buf.is_empty());
    let again = cpu.ports.flush();
    assert!(again.is_empty());
}

#[test]
fn pst_to_other_ports_is_discarded() {
    let mut cpu = cpu_with_rom(vec![enc(23, 3), enc(23, 0)]);
    cpu.acc = 10;
    assert_eq!(cpu.exec_opcode(), Ok(()));
    assert_eq!(cpu.exec_opcode(), Ok(()));
    assert!(cpu.ports.console_buf.is_empty());
}

#[test]
fn pld_reads_zero_from_every_port() {
    for port in 0..8 {
        let mut cpu = cpu_with_rom(vec![enc(24, port)]);
        cpu.acc = 9;
        cpu.zero = true;
        cpu.msb = true;
        cpu.carry = true;
        assert_eq!(cpu.exec_opcode(), Ok(()));
        assert_eq!(cpu.acc, 0);
        // flags unaffected
        assert!(cpu.zero);
        assert!(cpu.msb);
        assert!(cpu.carry);
    }
}

#[test]
fn ports_read_returns_zero() {
    let mut cpu = CPU::new();
    for port in 0..8 {
        assert_eq!(cpu.ports.read(port), 0);
    }
}

#[test]
fn hlt_sets_halted() {
    let mut cpu = cpu_with_rom(vec![enc(31, 0)]);
    assert!(!cpu.halted);
    assert_eq!(cpu.exec_opcode(), Ok(()));
    assert!(cpu.halted);
}

#[test]
fn loaded_nop_hlt_image_halts_after_two_steps() {
    // Every non-comment line is a NOP word followed by an HLT word.
    let src = String::from("00000000 11111000\n00000000 11111000\n");
    let image = minicpu::loader::load_bin_file(src);
    assert_eq!(image, vec![0, 0b1111_1000, 0, 0b1111_1000]);
    let mut cpu = cpu_with_rom(image);
    let mut steps = 0;
    while !cpu.halted {
        assert_eq!(cpu.exec_opcode(), Ok(()));
        steps += 1;
        assert!(steps <= 10, "program failed to halt");
    }
    assert_eq!(steps, 2);
}

#[test]
fn illegal_opcode_27_is_fatal() {
    let word = enc(27, 0);
    let mut cpu = cpu_with_rom(vec![word]);
    assert_eq!(
        cpu.exec_opcode(),
        Err(Fault::IllegalOpcode { word, addr: 0 })
    );
    assert_eq!(cpu.pc, 1); // the fault was detected after the advance
    assert!(!cpu.halted);
}

#[test]
fn all_unassigned_opcodes_are_fatal() {
    for op in 26..=30 {
        let word = enc(op, 5);
        let mut cpu = cpu_with_rom(vec![word]);
        assert_eq!(
            cpu.exec_opcode(),
            Err(Fault::IllegalOpcode { word, addr: 0 })
        );
    }
}

#[test]
fn fault_reports_effective_address() {
    let word = enc(27, 0);
    let mut cpu = CPU::new();
    let mut image = vec![0u8; 40];
    image[38] = word; // page 1, pc 6
    cpu.load_rom(image);
    cpu.page = 1;
    cpu.pc = 6;
    assert_eq!(
        cpu.exec_opcode(),
        Err(Fault::IllegalOpcode { word, addr: 38 })
    );
}

#[test]
fn console_text_renders_one_decimal_value_per_line() {
    let vals = vec![0, 7, 10, 42, 100, 255];
    let text = minicpu::cpu::console_text(&vals);
    assert_eq!(text, "0\n7\n10\n42\n100\n255\n".as_bytes().to_vec());
    let empty = minicpu::cpu::console_text(&Vec::new());
    assert!(empty.is_empty());
}

#[test]
fn is_ovf_helpers_match_unbounded_arithmetic() {
    assert!(!minicpu::cpu::is_ovf_add(1, 2, 3));
    assert!(minicpu::cpu::is_ovf_add(200, 100, 44));
    assert!(!minicpu::cpu::is_ovf_sub(5, 3, 2));
    assert!(minicpu::cpu::is_ovf_sub(3, 5, 254));
    assert!(!minicpu::cpu::is_ovf_sub(200, 72, 128));
}
