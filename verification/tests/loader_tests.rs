use lazers::memory::loader::prepare_startup_layout;
use lazers::memory::types::{MemoryError, ProgramStartup, USER_IMAGE_BASE, USER_STACK_PAGES, USER_STACK_TOP};
use lazers::memory::user::validate_user_buffer;
use lazers::memory::paging::{pd_index, pdpt_index, pml4_index, pt_index};

#[test]
fn startup_layout_accepts_valid_arguments() {
    let startup = ProgramStartup {
        argv0: "/system/bin/lash",
        argv_tail: b"-c\0echo\0",
    };

    let layout = prepare_startup_layout(&startup).unwrap();
    assert_eq!(layout.argc, 3);
    assert!(layout.stack_start < USER_STACK_TOP);
    assert!(layout.strings_start < USER_STACK_TOP);
}

#[test]
fn startup_layout_rejects_non_utf8_arguments() {
    let startup = ProgramStartup {
        argv0: "/system/bin/lash",
        argv_tail: b"\xff\0",
    };

    assert!(matches!(
        prepare_startup_layout(&startup),
        Err(MemoryError::InvalidStartupArguments)
    ));
}

#[test]
fn startup_layout_rejects_missing_terminator() {
    let startup = ProgramStartup {
        argv0: "/system/bin/lash",
        argv_tail: b"unterminated",
    };

    assert!(matches!(
        prepare_startup_layout(&startup),
        Err(MemoryError::InvalidStartupArguments)
    ));
}

#[test]
fn startup_layout_places_strings_pointers_and_count() {
    let startup = ProgramStartup { argv0: "/bin/a", argv_tail: b"xy\0" };
    let layout = prepare_startup_layout(&startup).unwrap();
    // "/bin/a\0" (7) + "xy\0" (3) below the stack top
    assert_eq!(layout.strings_start, USER_STACK_TOP - 10);
    // three pointers (two arguments and the terminating null) 8-aligned, then the count, 16-aligned
    let pointers_start = (layout.strings_start - 24) & !7;
    assert_eq!(layout.stack_start, (pointers_start - 8) & !15);
    assert_eq!(layout.args[1], b"xy".to_vec());
}

#[test]
fn startup_layout_rejects_too_many_arguments() {
    let mut tail = Vec::new();
    for _ in 0..32 {
        tail.extend_from_slice(b"a\0");
    }
    let startup = ProgramStartup { argv0: "/bin/a", argv_tail: &tail };
    assert!(matches!(
        prepare_startup_layout(&startup),
        Err(MemoryError::StartupArgumentsTooLarge)
    ));
}

#[test]
fn table_index_helpers_extract_expected_bits() {
    let address = 0x1234_5678_9abc_u64;
    assert_eq!(pml4_index(address), 36);
    assert_eq!(pdpt_index(address), 209);
    assert_eq!(pd_index(address), 179);
    assert_eq!(pt_index(address), 393);
}

#[test]
fn accepts_zero_length_ranges() {
    assert!(validate_user_buffer(0, 0));
}

#[test]
fn accepts_ranges_within_user_image() {
    assert!(validate_user_buffer(USER_IMAGE_BASE, 64));
}

#[test]
fn rejects_overflowing_ranges() {
    assert!(!validate_user_buffer(u64::MAX - 4, 8));
}

#[test]
fn rejects_ranges_that_cross_into_stack_gap() {
    let user_stack_base = USER_STACK_TOP - ((USER_STACK_PAGES as u64) * 4096);
    assert!(!validate_user_buffer(user_stack_base - 16, 32));
}

#[test]
fn accepts_ranges_entirely_within_stack() {
    let user_stack_base = USER_STACK_TOP - ((USER_STACK_PAGES as u64) * 4096);
    assert!(validate_user_buffer(user_stack_base, 64));
}
