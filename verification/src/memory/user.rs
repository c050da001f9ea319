//! Checks on user-supplied virtual address ranges.
use vstd::prelude::*;

use crate::memory::types::{USER_IMAGE_BASE, USER_STACK_BASE, USER_STACK_TOP};

verus! {

/// Whether `[address, address + len)` lies in the user image or the user
/// stack without straddling the gap below the stack.
pub open spec fn spec_valid_user_buffer(address: u64, len: usize) -> bool {
    len == 0 || {
        let end = address + len;
        &&& end <= u64::MAX
        &&& address >= USER_IMAGE_BASE
        &&& end <= USER_STACK_TOP
        &&& !(end > USER_STACK_BASE && address < USER_STACK_BASE)
    }
}

/// Validates that a user buffer lies entirely within the supported user
/// virtual address ranges; empty buffers are always valid.
pub fn validate_user_buffer(address: u64, len: usize) -> (r: bool)
    ensures
        r == spec_valid_user_buffer(address, len),
{
    if len == 0 {
        return true;
    }
    let end = match address.checked_add(len as u64) {
        Some(end) => end,
        None => return false,
    };
    address >= USER_IMAGE_BASE && end <= USER_STACK_TOP && !(end > USER_STACK_BASE && address < USER_STACK_BASE)
}

/// Whether `address` lies in the user image or stack range.
pub open spec fn spec_contains_user_address(address: u64) -> bool {
    USER_IMAGE_BASE <= address < USER_STACK_TOP
}

pub fn contains_user_address(address: u64) -> (r: bool)
    ensures
        r == spec_contains_user_address(address),
{
    address >= USER_IMAGE_BASE && address < USER_STACK_TOP
}

} // verus!
