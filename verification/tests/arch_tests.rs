use lazers::arch::{
    activate_address_space, code_descriptor, data_descriptor, set_kernel_stack_top, trap_action, tss_descriptor, ArchState,
    InterruptGate, TrapAction, TrapFrame, TrapHandlers, TRAP_GENERAL_PROTECTION, TRAP_INVALID_OPCODE, TRAP_PAGE_FAULT,
    TRAP_SYSCALL,
};
use lazers::memory::types::AddressSpace;

fn frame(vector: u64, cs: u64) -> TrapFrame {
    TrapFrame {
        rax: 0, rbx: 0, rcx: 0, rdx: 0, rbp: 0, rdi: 0, rsi: 0, r8: 0, r9: 0, r10: 0, r11: 0, r12: 0, r13: 0, r14: 0,
        r15: 0, vector, error_code: 0, rip: 0, cs, rflags: 0, rsp: 0, ss: 0,
    }
}

#[test]
fn flat_segments_have_the_usual_encodings() {
    assert_eq!(code_descriptor(0), 0x002f_9a00_0000_ffff);
    assert_eq!(code_descriptor(3), 0x002f_fa00_0000_ffff);
    assert_eq!(data_descriptor(0), 0x000f_9200_0000_ffff);
    assert_eq!(data_descriptor(3), 0x000f_f200_0000_ffff);
}

#[test]
fn tss_descriptor_splits_base_and_limit() {
    let (low, high) = tss_descriptor(0xffff_8000_1234_5678, 103);
    assert_eq!(low & 0xffff, 103);
    assert_eq!((low >> 16) & 0xff_ffff, 0x34_5678);
    assert_eq!((low >> 40) & 0xff, 0x89);
    assert_eq!((low >> 56) & 0xff, 0x12);
    assert_eq!(high, 0xffff_8000);
}

#[test]
fn interrupt_gate_splits_handler() {
    let gate = InterruptGate::new(0x1122_3344_5566_7788, 0x08, 3);
    assert_eq!(gate.offset_low, 0x7788);
    assert_eq!(gate.offset_mid, 0x5566);
    assert_eq!(gate.offset_high, 0x1122_3344);
    assert_eq!(gate.selector, 0x08);
    assert_eq!(gate.type_attributes, 0xee);
    assert_eq!(InterruptGate::new(0, 0x08, 0).type_attributes, 0x8e);
}

#[test]
fn trap_frame_reports_user_mode_from_cs() {
    assert!(frame(0, 0x23).from_user_mode());
    assert!(!frame(0, 0x08).from_user_mode());
}

#[test]
fn traps_are_classified_by_vector_and_mode() {
    assert_eq!(trap_action(&frame(0x80, 0x23)), TrapAction::Syscall);
    assert_eq!(trap_action(&frame(14, 0x23)), TrapAction::ExitUserProcess);
    assert_eq!(trap_action(&frame(13, 0x08)), TrapAction::KernelFault);
    assert_eq!(trap_action(&frame(6, 0x08)), TrapAction::KernelFault);
    assert_eq!(trap_action(&frame(32, 0x23)), TrapAction::Unexpected);
    // only the low byte of the vector counts
    assert_eq!(trap_action(&frame(0x180, 0x08)), TrapAction::Syscall);
}

#[test]
fn descriptor_tables_are_filled() {
    let mut arch = ArchState::new();
    arch.setup_gdt(0x1000);
    assert_eq!(arch.gdt[0], 0);
    assert_eq!(arch.gdt[1], code_descriptor(0));
    assert_eq!(arch.gdt[2], data_descriptor(0));
    assert_eq!(arch.gdt[3], data_descriptor(3));
    assert_eq!(arch.gdt[4], code_descriptor(3));
    assert_eq!((arch.gdt[5], arch.gdt[6]), tss_descriptor(0x1000, 103));

    let handlers = TrapHandlers { invalid_opcode: 0x1000, general_protection: 0x2000, page_fault: 0x3000, syscall: 0x4000 };
    arch.setup_idt(handlers);
    assert_eq!(arch.idt[TRAP_INVALID_OPCODE as usize], InterruptGate::new(0x1000, 0x08, 0));
    assert_eq!(arch.idt[TRAP_GENERAL_PROTECTION as usize], InterruptGate::new(0x2000, 0x08, 0));
    assert_eq!(arch.idt[TRAP_PAGE_FAULT as usize], InterruptGate::new(0x3000, 0x08, 0));
    assert_eq!(arch.idt[TRAP_SYSCALL as usize], InterruptGate::new(0x4000, 0x08, 3));
    assert_eq!(arch.idt[0], InterruptGate::missing());
}

#[test]
fn activation_sets_the_ring0_stack_and_names_the_root() {
    let mut arch = ArchState::new();
    let root = activate_address_space(&mut arch, AddressSpace::new(0x5000), 0xffff_9000);
    assert_eq!(root, 0x5000);
    assert_eq!(arch.tss.rsp0, 0xffff_9000);
    set_kernel_stack_top(&mut arch, 0x42);
    assert_eq!(arch.tss.rsp0, 0x42);
}
