//! x86_64 processor structures: segment and interrupt descriptor encodings,
//! the trap frame, the descriptor tables and task-state segment the kernel
//! keeps, and the decision taken for each trap.
use vstd::prelude::*;

use crate::memory::types::AddressSpace;

verus! {

pub const KERNEL_CODE_SELECTOR: u16 = 0x08;
pub const KERNEL_DATA_SELECTOR: u16 = 0x10;
pub const USER_DATA_SELECTOR: u16 = 0x18;
pub const USER_CODE_SELECTOR: u16 = 0x20;
pub const TSS_SELECTOR: u16 = 0x28;

pub const TRAP_INVALID_OPCODE: u8 = 6;
pub const TRAP_GENERAL_PROTECTION: u8 = 13;
pub const TRAP_PAGE_FAULT: u8 = 14;
pub const TRAP_SYSCALL: u8 = 0x80;

/// Bytes of the task-state segment, less one: its descriptor's limit.
pub const TSS_LIMIT: u32 = 103;
/// Entries of the global descriptor table.
pub const GDT_ENTRIES: usize = 8;
/// Entries of the interrupt descriptor table.
pub const IDT_ENTRIES: usize = 256;

/// The limit field of a segment descriptor.
pub open spec fn descriptor_limit(d: u64) -> u64 {
    (d & 0xffff) | (((d >> 48u64) & 0xf) << 16u64)
}

/// The access byte of a segment descriptor.
pub open spec fn descriptor_access(d: u64) -> u64 {
    (d >> 40u64) & 0xff
}

/// The flags nibble of a segment descriptor.
pub open spec fn descriptor_flags(d: u64) -> u64 {
    (d >> 52u64) & 0xf
}

/// The base address of a 16-byte system descriptor.
pub open spec fn descriptor_base(low: u64, high: u64) -> u64 {
    ((low >> 16u64) & 0xff_ffff) | (((low >> 56u64) & 0xff) << 24u64) | (high << 32u64)
}

/// The access byte of a present segment of privilege `dpl` with type bits
/// `kind`.
pub open spec fn segment_access(kind: u64, dpl: u8) -> u64 {
    kind | (((dpl as u64) & 0x3) << 5u64)
}

/// A flat segment with the given access byte and flags: base 0, limit
/// 0xfffff.
pub open spec fn flat_segment(access: u64, flags: u64) -> u64 {
    0xffffu64 | (access << 40u64) | (flags << 52u64) | (0xfu64 << 48u64)
}

/// Decoding a flat segment gives back its fields.
proof fn lemma_flat_segment(access: u64, flags: u64)
    by (bit_vector)
    requires
        access < 256,
        flags < 16,
    ensures
        ((0xffffu64 | (access << 40u64) | (flags << 52u64) | (0xfu64 << 48u64)) & 0xffff)
            | ((((0xffffu64 | (access << 40u64) | (flags << 52u64) | (0xfu64 << 48u64)) >> 48u64) & 0xf) << 16u64) == 0xfffff,
        ((0xffffu64 | (access << 40u64) | (flags << 52u64) | (0xfu64 << 48u64)) >> 40u64) & 0xff == access,
        ((0xffffu64 | (access << 40u64) | (flags << 52u64) | (0xfu64 << 48u64)) >> 52u64) & 0xf == flags,
        ((0xffffu64 | (access << 40u64) | (flags << 52u64) | (0xfu64 << 48u64)) >> 16u64) & 0xff_ffff == 0,
        (0xffffu64 | (access << 40u64) | (flags << 52u64) | (0xfu64 << 48u64)) >> 56u64 == 0,
{
}

/// A flat 64-bit code segment of privilege `dpl`.
pub fn code_descriptor(dpl: u8) -> (r: u64)
    ensures
        r == flat_segment(segment_access(0x9a, dpl), 0x2),
        descriptor_limit(r) == 0xfffff,
        descriptor_access(r) == segment_access(0x9a, dpl),
        descriptor_flags(r) == 0x2,
        (r >> 16u64) & 0xff_ffff == 0 && r >> 56u64 == 0,
{
    let access: u64 = 0x9a | (((dpl as u64) & 0x3) << 5u64);
    assert(access < 256) by (bit_vector)
        requires
            access == 0x9au64 | (((dpl as u64) & 0x3) << 5u64),
    ;
    proof {
        lemma_flat_segment(access, 0x2);
    }
    0xffff | (access << 40u64) | (0x2u64 << 52u64) | (0xfu64 << 48u64)
}

/// A flat data segment of privilege `dpl`.
pub fn data_descriptor(dpl: u8) -> (r: u64)
    ensures
        r == flat_segment(segment_access(0x92, dpl), 0x0),
        descriptor_limit(r) == 0xfffff,
        descriptor_access(r) == segment_access(0x92, dpl),
        descriptor_flags(r) == 0x0,
        (r >> 16u64) & 0xff_ffff == 0 && r >> 56u64 == 0,
{
    let access: u64 = 0x92 | (((dpl as u64) & 0x3) << 5u64);
    assert(access < 256) by (bit_vector)
        requires
            access == 0x92u64 | (((dpl as u64) & 0x3) << 5u64),
    ;
    proof {
        lemma_flat_segment(access, 0x0);
    }
    0xffff | (access << 40u64) | (0x0u64 << 52u64) | (0xfu64 << 48u64)
}

/// The two words of an available 64-bit TSS descriptor for the segment at
/// `base` with limit `limit`.
pub fn tss_descriptor(base: u64, limit: u32) -> (r: (u64, u64))
    ensures
        descriptor_base(r.0, r.1) == base,
        descriptor_limit(r.0) == (limit as u64) & 0xf_ffff,
        descriptor_access(r.0) == 0x89,
        descriptor_flags(r.0) == 0,
{
    let l = limit as u64;
    let low = (l & 0xffff) | ((base & 0x00ff_ffff) << 16u64) | (0x89u64 << 40u64) | (((l >> 16u64) & 0xf) << 48u64)
        | (((base >> 24u64) & 0xff) << 56u64);
    let high = base >> 32u64;
    assert(descriptor_base(low, high) == base && descriptor_limit(low) == l & 0xf_ffff && descriptor_access(low) == 0x89
        && descriptor_flags(low) == 0) by (bit_vector)
        requires
            l < 0x1_0000_0000u64,
            low == (l & 0xffff) | ((base & 0x00ff_ffff) << 16u64) | (0x89u64 << 40u64) | (((l >> 16u64) & 0xf) << 48u64)
                | (((base >> 24u64) & 0xff) << 56u64),
            high == base >> 32u64,
    ;
    (low, high)
}

/// A 64-bit interrupt gate.
#[derive(Clone, Copy, Debug, PartialEq, Eq, Structural)]
pub struct InterruptGate {
    pub offset_low: u16,
    pub selector: u16,
    pub ist: u8,
    pub type_attributes: u8,
    pub offset_mid: u16,
    pub offset_high: u32,
    pub reserved: u32,
}

/// The handler address a gate jumps to.
pub open spec fn gate_offset(gate: InterruptGate) -> u64 {
    (gate.offset_low as u64) | ((gate.offset_mid as u64) << 16u64) | ((gate.offset_high as u64) << 32u64)
}

/// A present 64-bit interrupt gate of privilege `dpl`, as its type byte.
pub open spec fn gate_attributes(dpl: u8) -> u8 {
    (0x8e | ((dpl & 0x3) << 5u8)) as u8
}

impl InterruptGate {
    /// An absent gate: every field zero.
    pub fn missing() -> (r: Self)
        ensures
            r == (InterruptGate { offset_low: 0, selector: 0, ist: 0, type_attributes: 0, offset_mid: 0, offset_high: 0, reserved: 0 }),
    {
        InterruptGate { offset_low: 0, selector: 0, ist: 0, type_attributes: 0, offset_mid: 0, offset_high: 0, reserved: 0 }
    }

    /// A present interrupt gate to `handler` through code segment
    /// `selector`, callable from privilege `dpl`.
    pub fn new(handler: u64, selector: u16, dpl: u8) -> (r: Self)
        ensures
            gate_offset(r) == handler,
            r.selector == selector,
            r.ist == 0,
            r.type_attributes == gate_attributes(dpl),
            r.reserved == 0,
    {
        let offset_low = handler as u16;
        let offset_mid = (handler >> 16u64) as u16;
        let offset_high = (handler >> 32u64) as u32;
        assert(((offset_low as u64) | ((offset_mid as u64) << 16u64) | ((offset_high as u64) << 32u64)) == handler) by (bit_vector)
            requires
                offset_low == handler as u16,
                offset_mid == (handler >> 16u64) as u16,
                offset_high == (handler >> 32u64) as u32,
        ;
        InterruptGate {
            offset_low,
            selector,
            ist: 0,
            type_attributes: 0x8e | ((dpl & 0x3) << 5u8),
            offset_mid,
            offset_high,
            reserved: 0,
        }
    }
}

/// The register frame the trap entry code saves.
#[derive(Clone, Copy)]
pub struct TrapFrame {
    pub rax: u64,
    pub rbx: u64,
    pub rcx: u64,
    pub rdx: u64,
    pub rbp: u64,
    pub rdi: u64,
    pub rsi: u64,
    pub r8: u64,
    pub r9: u64,
    pub r10: u64,
    pub r11: u64,
    pub r12: u64,
    pub r13: u64,
    pub r14: u64,
    pub r15: u64,
    pub vector: u64,
    pub error_code: u64,
    pub rip: u64,
    pub cs: u64,
    pub rflags: u64,
    pub rsp: u64,
    pub ss: u64,
}

impl TrapFrame {
    /// Whether the trap came from ring 3.
    pub fn from_user_mode(&self) -> (r: bool)
        ensures
            r == (self.cs & 0x3 == 0x3),
    {
        (self.cs & 0x3) == 0x3
    }
}

/// What the kernel does with a trap.
#[derive(Clone, Copy, Debug, PartialEq, Eq, Structural)]
pub enum TrapAction {
    /// A system call: dispatch it.
    Syscall,
    /// A fault of a user program: report it and end the program with status 1.
    ExitUserProcess,
    /// A fault in the kernel itself: stop.
    KernelFault,
    /// A vector the kernel installs no handler for: stop.
    Unexpected,
}

/// The action for a trap with `vector`, from user mode or not.
pub open spec fn spec_trap_action(vector: u64, from_user: bool) -> TrapAction {
    let v = vector as u8;
    if v == TRAP_SYSCALL {
        TrapAction::Syscall
    } else if v == TRAP_INVALID_OPCODE || v == TRAP_GENERAL_PROTECTION || v == TRAP_PAGE_FAULT {
        if from_user { TrapAction::ExitUserProcess } else { TrapAction::KernelFault }
    } else {
        TrapAction::Unexpected
    }
}

/// Decides what to do with the trap `frame` describes; the vector is read
/// as its low byte.
pub fn trap_action(frame: &TrapFrame) -> (r: TrapAction)
    ensures
        r == spec_trap_action(frame.vector, frame.cs & 0x3 == 0x3),
{
    let vector = frame.vector as u8;
    if vector == TRAP_SYSCALL {
        TrapAction::Syscall
    } else if vector == TRAP_INVALID_OPCODE || vector == TRAP_GENERAL_PROTECTION || vector == TRAP_PAGE_FAULT {
        if frame.from_user_mode() { TrapAction::ExitUserProcess } else { TrapAction::KernelFault }
    } else {
        TrapAction::Unexpected
    }
}

/// The 64-bit task-state segment; only the stack fields matter here.
#[derive(Clone, Copy)]
pub struct TaskStateSegment {
    pub rsp0: u64,
    pub rsp1: u64,
    pub rsp2: u64,
    pub io_map_base: u16,
}

/// Trap entry points, by address.
#[derive(Clone, Copy)]
pub struct TrapHandlers {
    pub invalid_opcode: u64,
    pub general_protection: u64,
    pub page_fault: u64,
    pub syscall: u64,
}

/// The descriptor tables and task-state segment of the processor.
pub struct ArchState {
    pub gdt: Vec<u64>,
    pub tss: TaskStateSegment,
    pub idt: Vec<InterruptGate>,
}

impl ArchState {
    pub open spec fn wf(&self) -> bool {
        self.gdt@.len() == GDT_ENTRIES && self.idt@.len() == IDT_ENTRIES
    }

    /// Empty tables and a task-state segment with no stacks.
    pub fn new() -> (r: Self)
        ensures
            r.wf(),
            forall|i: int| 0 <= i < GDT_ENTRIES ==> #[trigger] r.gdt@[i] == 0,
            forall|i: int| 0 <= i < IDT_ENTRIES ==> #[trigger] r.idt@[i] == InterruptGate::spec_missing(),
            r.tss.rsp0 == 0 && r.tss.rsp1 == 0 && r.tss.rsp2 == 0,
            r.tss.io_map_base == 104,
    {
        let mut gdt: Vec<u64> = Vec::new();
        while gdt.len() < GDT_ENTRIES
            invariant
                gdt@.len() <= GDT_ENTRIES,
                forall|i: int| 0 <= i < gdt@.len() ==> #[trigger] gdt@[i] == 0,
            decreases GDT_ENTRIES - gdt@.len(),
        {
            gdt.push(0);
        }
        let mut idt: Vec<InterruptGate> = Vec::new();
        while idt.len() < IDT_ENTRIES
            invariant
                idt@.len() <= IDT_ENTRIES,
                forall|i: int| 0 <= i < idt@.len() ==> #[trigger] idt@[i] == InterruptGate::spec_missing(),
            decreases IDT_ENTRIES - idt@.len(),
        {
            idt.push(InterruptGate::missing());
        }
        ArchState { gdt, tss: TaskStateSegment { rsp0: 0, rsp1: 0, rsp2: 0, io_map_base: 104 }, idt }
    }

    /// Fills the descriptor table: null, kernel code and data, user data
    /// and code, then the task-state segment at `tss_base`.
    pub fn setup_gdt(&mut self, tss_base: u64)
        requires
            old(self).wf(),
        ensures
            final(self).wf(),
            final(self).gdt@[0] == 0,
            final(self).gdt@[1] == flat_segment(segment_access(0x9a, 0), 0x2),
            final(self).gdt@[2] == flat_segment(segment_access(0x92, 0), 0x0),
            final(self).gdt@[3] == flat_segment(segment_access(0x92, 3), 0x0),
            final(self).gdt@[4] == flat_segment(segment_access(0x9a, 3), 0x2),
            descriptor_base(final(self).gdt@[5], final(self).gdt@[6]) == tss_base,
            descriptor_limit(final(self).gdt@[5]) == TSS_LIMIT as u64,
            descriptor_access(final(self).gdt@[5]) == 0x89,
            final(self).gdt@[7] == old(self).gdt@[7],
            final(self).tss == old(self).tss,
            final(self).idt@ == old(self).idt@,
    {
        self.gdt.set(0, 0);
        self.gdt.set(1, code_descriptor(0));
        self.gdt.set(2, data_descriptor(0));
        self.gdt.set(3, data_descriptor(3));
        self.gdt.set(4, code_descriptor(3));
        let (low, high) = tss_descriptor(tss_base, TSS_LIMIT);
        self.gdt.set(5, low);
        self.gdt.set(6, high);
        assert((TSS_LIMIT as u64) & 0xf_ffff == 103) by (bit_vector);
    }

    /// Installs the trap gates: the faults for the kernel only, the system
    /// call open to user mode.
    pub fn setup_idt(&mut self, handlers: TrapHandlers)
        requires
            old(self).wf(),
        ensures
            final(self).wf(),
            gate_offset(final(self).idt@[TRAP_INVALID_OPCODE as int]) == handlers.invalid_opcode,
            gate_offset(final(self).idt@[TRAP_GENERAL_PROTECTION as int]) == handlers.general_protection,
            gate_offset(final(self).idt@[TRAP_PAGE_FAULT as int]) == handlers.page_fault,
            gate_offset(final(self).idt@[TRAP_SYSCALL as int]) == handlers.syscall,
            final(self).idt@[TRAP_INVALID_OPCODE as int].type_attributes == gate_attributes(0),
            final(self).idt@[TRAP_GENERAL_PROTECTION as int].type_attributes == gate_attributes(0),
            final(self).idt@[TRAP_PAGE_FAULT as int].type_attributes == gate_attributes(0),
            final(self).idt@[TRAP_SYSCALL as int].type_attributes == gate_attributes(3),
            forall|i: int| 0 <= i < IDT_ENTRIES ==> (#[trigger] final(self).idt@[i]).selector == KERNEL_CODE_SELECTOR
                || (i != TRAP_INVALID_OPCODE && i != TRAP_GENERAL_PROTECTION && i != TRAP_PAGE_FAULT && i != TRAP_SYSCALL),
            forall|i: int| 0 <= i < IDT_ENTRIES && i != TRAP_INVALID_OPCODE && i != TRAP_GENERAL_PROTECTION
                && i != TRAP_PAGE_FAULT && i != TRAP_SYSCALL ==> #[trigger] final(self).idt@[i] == old(self).idt@[i],
            final(self).gdt@ == old(self).gdt@,
            final(self).tss == old(self).tss,
    {
        self.idt.set(TRAP_INVALID_OPCODE as usize, InterruptGate::new(handlers.invalid_opcode, KERNEL_CODE_SELECTOR, 0));
        self.idt.set(TRAP_GENERAL_PROTECTION as usize, InterruptGate::new(handlers.general_protection, KERNEL_CODE_SELECTOR, 0));
        self.idt.set(TRAP_PAGE_FAULT as usize, InterruptGate::new(handlers.page_fault, KERNEL_CODE_SELECTOR, 0));
        self.idt.set(TRAP_SYSCALL as usize, InterruptGate::new(handlers.syscall, KERNEL_CODE_SELECTOR, 3));
    }
}

impl InterruptGate {
    pub open spec fn spec_missing() -> Self {
        InterruptGate { offset_low: 0, selector: 0, ist: 0, type_attributes: 0, offset_mid: 0, offset_high: 0, reserved: 0 }
    }
}

/// Sets the ring-0 stack the processor switches to on a trap from user
/// mode.
pub fn set_kernel_stack_top(arch: &mut ArchState, stack_top: u64)
    ensures
        final(arch).tss.rsp0 == stack_top,
        final(arch).tss.rsp1 == old(arch).tss.rsp1,
        final(arch).tss.rsp2 == old(arch).tss.rsp2,
        final(arch).tss.io_map_base == old(arch).tss.io_map_base,
        final(arch).gdt@ == old(arch).gdt@,
        final(arch).idt@ == old(arch).idt@,
{
    arch.tss.rsp0 = stack_top;
}

/// Activates `space` and the kernel stack `kernel_stack_top` for the next
/// thread: the stack goes into the task-state segment, and the root table to
/// load into CR3 is returned.
pub fn activate_address_space(arch: &mut ArchState, space: AddressSpace, kernel_stack_top: u64) -> (r: u64)
    ensures
        r == space.spec_root(),
        final(arch).tss.rsp0 == kernel_stack_top,
        final(arch).gdt@ == old(arch).gdt@,
        final(arch).idt@ == old(arch).idt@,
{
    set_kernel_stack_top(arch, kernel_stack_top);
    space.root_paddr()
}

} // verus!
