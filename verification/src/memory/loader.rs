//! User program loading: argument layout on the initial user stack, the
//! virtual-to-physical page map of a new image, and the loader itself.
use vstd::prelude::*;
use vstd::string::StringSliceAdditionalSpecFns;

use crate::elf::{spec_parse_elf, spec_program_header, ElfImage, ElfError, ProgramHeader, PF_W, PT_LOAD};
use crate::memory::kernel::{
    builder_ready, context_tables, in_pages, kernel_flags, kernel_view_kept, lemma_kernel_kept, same_layout, tables_apart,
    window_mapped, MemoryState,
};
use crate::memory::paging::{
    changed_within, huge_on_path, in_tables, lemma_distinct_4k_slots, lemma_kept_and_free_apart, lemma_new_free_trans,
    lemma_owned_grew_refl, lemma_owned_grew_trans, lemma_taken_earlier, lemma_taken_later, lemma_touched_from_changed, lemma_touched_trans,
    lemma_tree_after_take, lemma_changed_within_trans, levels_grow, new_tables_were_free, owned_grew, same_4k_slot,
    take_page, taken_page, touched_only, translate_4k, translate_2m, tree_ok, usable_table, AddressSpaceBuilder, ADDRESS_MASK,
    IDENTITY_LIMIT, in_page_list, taken_within, lemma_taken_within_none, lemma_taken_within_trans, walk_pt,
};
use crate::memory::allocator::{lemma_dry_keeps_nothing_usable, no_free_page, region_fits, usable_free, PhysicalAllocator};
use crate::memory::phys::PhysicalMemory;
use crate::memory::types::{
    AddressSpace, LoadedUserProgram, MemoryError, OwnedPages, MAX_OWNED_PAGES, MAX_SEGMENT_PAGES, MAX_STARTUP_ARGS,
    LARGE_PAGE_SIZE, PAGE_HUGE, PAGE_PRESENT, PAGE_SIZE, PAGE_USER, PAGE_WRITABLE, PHYS_WINDOW_START, ProgramStartup, USER_IMAGE_BASE, USER_STACK_BASE, USER_STACK_TOP,
};
use crate::util::{utf8_str, align_down, align_up, le_u64_to_bytes, spec_align_down, spec_align_up, spec_le_u64};

verus! {

/// `e` is the position of the first NUL byte of `s`.
pub open spec fn is_first_nul(s: Seq<u8>, e: int) -> bool {
    &&& 0 <= e < s.len()
    &&& s[e] == 0
    &&& forall|k: int| 0 <= k < e ==> #[trigger] s[k] != 0
}

/// Splits NUL-terminated arguments off `tail`; `count` arguments precede
/// them. Every argument must be non-empty UTF-8 and terminated, and at most
/// `MAX_STARTUP_ARGS` arguments fit in all.
pub open spec fn parse_tail(tail: Seq<u8>, count: int) -> Result<Seq<Seq<u8>>, MemoryError>
    decreases tail.len(),
{
    if tail.len() == 0 {
        Ok(Seq::empty())
    } else if !(exists|e: int| is_first_nul(tail, e)) {
        Err(MemoryError::InvalidStartupArguments)
    } else {
        let e = choose|e: int| is_first_nul(tail, e);
        let arg = tail.take(e);
        if arg.len() == 0 || !vstd::utf8::valid_utf8(arg) {
            Err(MemoryError::InvalidStartupArguments)
        } else if count >= MAX_STARTUP_ARGS {
            Err(MemoryError::StartupArgumentsTooLarge)
        } else {
            match parse_tail(tail.skip(e + 1), count + 1) {
                Ok(rest) => Ok(seq![arg] + rest),
                Err(error) => Err(error),
            }
        }
    }
}

/// Reading the argument block fails only for malformed or too many
/// arguments.
proof fn lemma_tail_errors(tail: Seq<u8>, count: int)
    ensures
        parse_tail(tail, count) matches Err(e) ==> e == MemoryError::InvalidStartupArguments
            || e == MemoryError::StartupArgumentsTooLarge,
    decreases tail.len(),
{
    if tail.len() > 0 && exists|e: int| is_first_nul(tail, e) {
        let e = choose|e: int| is_first_nul(tail, e);
        if is_first_nul(tail, e) && e + 1 <= tail.len() {
            lemma_tail_errors(tail.skip(e + 1), count + 1);
        }
    }
}

/// Bytes the argument strings take with their terminators.
pub open spec fn strings_size(args: Seq<Seq<u8>>) -> int
    decreases args.len(),
{
    if args.len() == 0 { 0 } else { strings_size(args.drop_last()) + args.last().len() + 1 }
}

/// `value` rounded down to a multiple of `align`.
pub open spec fn round_down(value: int, align: int) -> int {
    value - value % align
}

/// Arguments, start of the argument strings and initial stack pointer of a
/// new program: the strings sit just below the stack top, the NULL-ended
/// pointer array below them (8-aligned), and the argument count below that
/// (16-aligned), which is where the stack pointer starts.
pub open spec fn startup_layout(argv0: Seq<u8>, tail: Seq<u8>) -> Result<(Seq<Seq<u8>>, int, int), MemoryError> {
    if argv0.contains(0u8) || !vstd::utf8::valid_utf8(argv0) {
        Err(MemoryError::InvalidStartupArguments)
    } else {
        match parse_tail(tail, 1) {
            Err(error) => Err(error),
            Ok(rest) => {
                let args = seq![argv0] + rest;
                let strings_start = USER_STACK_TOP - strings_size(args);
                let pointers_start = round_down(strings_start - (args.len() + 1) * 8, 8);
                let stack_start = round_down(pointers_start - 8, 16);
                if strings_start < 0 || strings_start - (args.len() + 1) * 8 < 0 || pointers_start - 8 < 0
                    || stack_start < USER_STACK_BASE {
                    Err(MemoryError::StartupArgumentsTooLarge)
                } else {
                    Ok((args, strings_start, stack_start))
                }
            },
        }
    }
}

/// Where the startup arguments go on the initial user stack.
pub struct StartupLayout {
    pub args: Vec<Vec<u8>>,
    pub argc: usize,
    pub strings_start: u64,
    pub stack_start: u64,
}

impl StartupLayout {
    pub open spec fn spec_args(&self) -> Seq<Seq<u8>> {
        Seq::new(self.args@.len(), |i: int| self.args@[i]@)
    }
}

/// The first NUL at or after `from`, as an index into `bytes`.
fn find_nul(bytes: &[u8], from: usize) -> (r: Option<usize>)
    requires
        from <= bytes@.len(),
    ensures
        match r {
            Some(e) => from <= e && is_first_nul(bytes@.skip(from as int), e - from),
            None => forall|k: int| from <= k < bytes@.len() ==> #[trigger] bytes@[k] != 0,
        },
{
    let mut index = from;
    while index < bytes.len()
        invariant
            from <= index <= bytes@.len(),
            forall|k: int| from <= k < index ==> #[trigger] bytes@[k] != 0,
        decreases bytes@.len() - index,
    {
        if bytes[index] == 0 {
            proof {
                let s = bytes@.skip(from as int);
                assert forall|k: int| 0 <= k < index - from implies #[trigger] s[k] != 0 by {
                    assert(s[k] == bytes@[from + k]);
                }
            }
            return Some(index);
        }
        index += 1;
    }
    None
}

fn copy_range(bytes: &[u8], start: usize, end: usize) -> (r: Vec<u8>)
    requires
        start <= end <= bytes@.len(),
    ensures
        r@ == bytes@.subrange(start as int, end as int),
{
    let mut out: Vec<u8> = Vec::new();
    let mut index = start;
    while index < end
        invariant
            start <= index <= end <= bytes@.len(),
            out@ == bytes@.subrange(start as int, index as int),
        decreases end - index,
    {
        out.push(bytes[index]);
        index += 1;
        assert(out@ =~= bytes@.subrange(start as int, index as int));
    }
    out
}

/// The first NUL of a sequence is unique.
proof fn lemma_first_nul_unique(s: Seq<u8>, a: int, b: int)
    requires
        is_first_nul(s, a),
        is_first_nul(s, b),
    ensures
        a == b,
{
    if a < b {
        assert(s[a] != 0);
    } else if b < a {
        assert(s[b] != 0);
    }
}

/// Validates the startup arguments and computes their stack layout.
pub fn prepare_startup_layout(startup: &ProgramStartup) -> (r: Result<StartupLayout, MemoryError>)
    ensures
        match startup_layout(startup.argv0.spec_bytes(), startup.argv_tail@) {
            Ok((args, strings_start, stack_start)) => r is Ok && r.unwrap().spec_args() == args
                && r.unwrap().argc == args.len() && r.unwrap().strings_start == strings_start
                && r.unwrap().stack_start == stack_start,
            Err(error) => r == Err::<StartupLayout, MemoryError>(error),
        },
{
    let argv0 = startup.argv0.as_bytes();
    let tail = startup.argv_tail;
    match find_nul(argv0, 0) {
        Some(e) => {
            proof {
                assert(argv0@.skip(0) =~= argv0@);
                assert(argv0@[e as int] == 0);
            }
            return Err(MemoryError::InvalidStartupArguments);
        },
        None => {},
    }
    if utf8_str(argv0).is_none() {
        return Err(MemoryError::InvalidStartupArguments);
    }
    proof {
        assert(!argv0@.contains(0u8));
    }
    let mut args: Vec<Vec<u8>> = Vec::new();
    args.push(copy_range(argv0, 0, argv0.len()));
    proof {
        assert(argv0@.subrange(0, argv0@.len() as int) =~= argv0@);
    }
    let mut argc: usize = 1;
    let mut cursor: usize = 0;
    proof {
        assert(tail@.skip(0) =~= tail@);
        match parse_tail(tail@, 1) {
            Ok(rest) => {
                assert(Seq::new(0nat, |i: int| args@[i + 1]@) + rest =~= rest);
            },
            Err(_) => {},
        }
    }
    while cursor < tail.len()
        invariant
            cursor <= tail@.len(),
            1 <= argc <= MAX_STARTUP_ARGS,
            argc == args@.len(),
            args@[0]@ == argv0@,
            argv0@ == startup.argv0.spec_bytes(),
            !argv0@.contains(0u8),
            vstd::utf8::valid_utf8(argv0@),
            tail@ == startup.argv_tail@,
            parse_tail(tail@, 1) == match parse_tail(tail@.skip(cursor as int), argc as int) {
                Ok(rest) => Ok(Seq::new((argc - 1) as nat, |i: int| args@[i + 1]@) + rest),
                Err(error) => Err::<Seq<Seq<u8>>, MemoryError>(error),
            },
        decreases tail@.len() - cursor,
    {
        let ghost s = tail@.skip(cursor as int);
        let end = match find_nul(tail, cursor) {
            Some(end) => end,
            None => {
                proof {
                    assert forall|e: int| !is_first_nul(s, e) by {
                        if 0 <= e < s.len() {
                            assert(s[e] == tail@[cursor + e]);
                        }
                    }
                }
                return Err(MemoryError::InvalidStartupArguments);
            },
        };
        proof {
            let w = choose|e: int| is_first_nul(s, e);
            lemma_first_nul_unique(s, w, end - cursor);
            assert(s.take(end - cursor) =~= tail@.subrange(cursor as int, end as int));
            assert(s.skip(end - cursor + 1) =~= tail@.skip(end + 1));
        }
        let arg = copy_range(tail, cursor, end);
        if arg.len() == 0 || utf8_str(arg.as_slice()).is_none() {
            return Err(MemoryError::InvalidStartupArguments);
        }
        if argc >= MAX_STARTUP_ARGS {
            return Err(MemoryError::StartupArgumentsTooLarge);
        }
        let ghost before = args@;
        args.push(arg);
        proof {
            let old_prefix = Seq::new((argc - 1) as nat, |i: int| before[i + 1]@);
            let new_prefix = Seq::new(argc as nat, |i: int| args@[i + 1]@);
            assert(new_prefix =~= old_prefix + seq![tail@.subrange(cursor as int, end as int)]);
            match parse_tail(tail@.skip(end + 1), argc + 1) {
                Ok(rest) => {
                    assert(old_prefix + (seq![tail@.subrange(cursor as int, end as int)] + rest) =~= new_prefix + rest);
                },
                Err(_) => {},
            }
        }
        argc += 1;
        cursor = end + 1;
    }
    proof {
        assert(tail@.skip(cursor as int).len() == 0);
        let rest = Seq::new((argc - 1) as nat, |i: int| args@[i + 1]@);
        let all = Seq::new(args@.len(), |i: int| args@[i]@);
        assert(all =~= seq![argv0@] + rest);
        assert(rest + Seq::<Seq<u8>>::empty() =~= rest);
        assert(parse_tail(tail@, 1) == Ok::<Seq<Seq<u8>>, MemoryError>(rest));
    }
    layout_from_args(args, argc)
}

fn layout_from_args(args: Vec<Vec<u8>>, argc: usize) -> (r: Result<StartupLayout, MemoryError>)
    requires
        1 <= argc <= MAX_STARTUP_ARGS,
        argc == args@.len(),
    ensures
        ({
            let a = Seq::new(args@.len(), |i: int| args@[i]@);
            let strings_start = USER_STACK_TOP - strings_size(a);
            let pointers_start = round_down(strings_start - (a.len() + 1) * 8, 8);
            let stack_start = round_down(pointers_start - 8, 16);
            if strings_start < 0 || strings_start - (a.len() + 1) * 8 < 0 || pointers_start - 8 < 0
                || stack_start < USER_STACK_BASE {
                r == Err::<StartupLayout, MemoryError>(MemoryError::StartupArgumentsTooLarge)
            } else {
                r is Ok && r.unwrap().spec_args() == a && r.unwrap().argc == argc
                    && r.unwrap().strings_start == strings_start && r.unwrap().stack_start == stack_start
            }
        }),
{
    let ghost a = Seq::new(args@.len(), |i: int| args@[i]@);
    let mut strings_size_total: u64 = 0;
    let mut index: usize = 0;
    let mut too_large = false;
    while index < argc
        invariant
            argc == args@.len(),
            index <= argc,
            a == Seq::new(args@.len(), |i: int| args@[i]@),
            !too_large ==> strings_size_total == strings_size(a.take(index as int)),
            !too_large ==> strings_size_total <= USER_STACK_TOP,
            too_large ==> strings_size(a) > USER_STACK_TOP,
        decreases argc - index,
    {
        proof {
            assert(a.take(index + 1).drop_last() =~= a.take(index as int));
            lemma_strings_size_prefix(a, index + 1);
        }
        if !too_large {
            let len = args[index].len() as u64;
            if len >= USER_STACK_TOP || strings_size_total + len + 1 > USER_STACK_TOP {
                too_large = true;
            } else {
                strings_size_total = strings_size_total + len + 1;
            }
        }
        index += 1;
    }
    proof {
        assert(a.take(argc as int) =~= a);
    }
    if too_large {
        return Err(MemoryError::StartupArgumentsTooLarge);
    }
    let strings_start = USER_STACK_TOP - strings_size_total;
    let pointers_len = (argc as u64 + 1) * 8;
    if strings_start < pointers_len {
        return Err(MemoryError::StartupArgumentsTooLarge);
    }
    let below_pointers = strings_start - pointers_len;
    let pointers_start = below_pointers - below_pointers % 8;
    if pointers_start < 8 {
        return Err(MemoryError::StartupArgumentsTooLarge);
    }
    let below_count = pointers_start - 8;
    let stack_start = below_count - below_count % 16;
    if stack_start < USER_STACK_BASE {
        return Err(MemoryError::StartupArgumentsTooLarge);
    }
    Ok(StartupLayout { args, argc, strings_start, stack_start })
}

/// The strings of a prefix never take more room than all of them.
proof fn lemma_strings_size_prefix(a: Seq<Seq<u8>>, n: int)
    requires
        0 <= n <= a.len(),
    ensures
        strings_size(a.take(n)) <= strings_size(a),
        strings_size(a.take(n)) >= 0,
    decreases a.len() - n,
{
    if n < a.len() {
        lemma_strings_size_prefix(a, n + 1);
        assert(a.take(n + 1).drop_last() =~= a.take(n));
    } else {
        assert(a.take(n) =~= a);
    }
    lemma_strings_size_nonneg(a.take(n));
}

proof fn lemma_strings_size_nonneg(a: Seq<Seq<u8>>)
    ensures
        strings_size(a) >= 0,
    decreases a.len(),
{
    if a.len() > 0 {
        lemma_strings_size_nonneg(a.drop_last());
    }
}

/// One user page and the frame behind it.
#[derive(Clone, Copy, Debug, PartialEq, Eq, Structural)]
pub struct UserPage {
    pub virt_page: u64,
    pub phys_page: u64,
}

/// The start of the 4 KiB page that holds `a`.
pub open spec fn page_of(a: int) -> int {
    a - a % PAGE_SIZE as int
}

/// The frame that `pages` gives to the user page `virt`, if any.
pub open spec fn lookup_page(pages: Seq<UserPage>, virt: int) -> Option<u64> {
    if exists|i: int| 0 <= i < pages.len() && (#[trigger] pages[i]).virt_page == virt {
        let i = choose|i: int| 0 <= i < pages.len() && (#[trigger] pages[i]).virt_page == virt;
        Some(pages[i].phys_page)
    } else {
        None
    }
}

/// The physical address that holds user address `a`.
pub open spec fn user_addr(pages: Seq<UserPage>, a: int) -> int {
    lookup_page(pages, page_of(a)).unwrap() + a % PAGE_SIZE as int
}

/// Distinct, page-aligned user pages on distinct page-aligned frames of
/// `memory`.
pub open spec fn pages_wf(pages: Seq<UserPage>, memory: PhysicalMemory) -> bool {
    &&& pages.len() <= MAX_SEGMENT_PAGES
    &&& forall|i: int| 0 <= i < pages.len() ==> {
        let p = #[trigger] pages[i];
        &&& p.virt_page as int % PAGE_SIZE as int == 0
        &&& p.phys_page as int % PAGE_SIZE as int == 0
        &&& memory.covers(p.phys_page as int, p.phys_page + PAGE_SIZE)
    }
    &&& forall|i: int, j: int| 0 <= i < pages.len() && 0 <= j < pages.len() && i != j
        ==> (#[trigger] pages[i]).virt_page != (#[trigger] pages[j]).virt_page
            && pages[i].phys_page != pages[j].phys_page
}

/// Address `x` lies in one of the frames.
pub open spec fn in_frames(pages: Seq<UserPage>, x: int) -> bool {
    exists|i: int| 0 <= i < pages.len() && (#[trigger] pages[i]).phys_page <= x < pages[i].phys_page + PAGE_SIZE
}

/// The user pages of a new image and their frames.
pub struct UserPageMap {
    pages: Vec<UserPage>,
}

impl View for UserPageMap {
    type V = Seq<UserPage>;

    closed spec fn view(&self) -> Seq<UserPage> {
        self.pages@
    }
}

impl UserPageMap {
    pub fn new() -> (r: Self)
        ensures
            r@ == Seq::<UserPage>::empty(),
    {
        UserPageMap { pages: Vec::new() }
    }

    /// The entry for user page `virt_page`, if any.
    pub fn find(&self, virt_page: u64) -> (r: Option<UserPage>)
        requires
            forall|i: int, j: int| 0 <= i < self@.len() && 0 <= j < self@.len() && i != j
                ==> (#[trigger] self@[i]).virt_page != (#[trigger] self@[j]).virt_page,
        ensures
            match r {
                Some(page) => page.virt_page == virt_page && lookup_page(self@, virt_page as int) == Some(page.phys_page)
                    && exists|i: int| 0 <= i < self@.len() && self@[i] == page,
                None => lookup_page(self@, virt_page as int) is None,
            },
    {
        let mut index: usize = 0;
        while index < self.pages.len()
            invariant
                index <= self@.len(),
                self@ == self.pages@,
                forall|i: int| 0 <= i < index ==> (#[trigger] self@[i]).virt_page != virt_page,
                forall|i: int, j: int| 0 <= i < self@.len() && 0 <= j < self@.len() && i != j
                    ==> (#[trigger] self@[i]).virt_page != (#[trigger] self@[j]).virt_page,
            decreases self@.len() - index,
        {
            let page = self.pages[index];
            if page.virt_page == virt_page {
                proof {
                    let i = choose|i: int| 0 <= i < self@.len() && (#[trigger] self@[i]).virt_page == virt_page;
                    if i != index {
                        assert(self@[i].virt_page != self@[index as int].virt_page);
                    }
                }
                return Some(page);
            }
            index += 1;
        }
        None
    }

    /// Whether user page `virt_page` has a frame.
    pub fn contains(&self, virt_page: u64) -> (r: bool)
        requires
            forall|i: int, j: int| 0 <= i < self@.len() && 0 <= j < self@.len() && i != j
                ==> (#[trigger] self@[i]).virt_page != (#[trigger] self@[j]).virt_page,
        ensures
            r == lookup_page(self@, virt_page as int) is Some,
    {
        self.find(virt_page).is_some()
    }

    /// Records that user page `virt_page` lives in frame `phys_page`; fails
    /// once the map is full.
    pub fn insert(&mut self, virt_page: u64, phys_page: u64) -> (r: Result<(), MemoryError>)
        ensures
            old(self)@.len() < MAX_SEGMENT_PAGES ==> r is Ok
                && final(self)@ == old(self)@.push(UserPage { virt_page, phys_page }),
            old(self)@.len() >= MAX_SEGMENT_PAGES ==> r == Err::<(), MemoryError>(MemoryError::SegmentOverlapCapacityExceeded)
                && final(self)@ == old(self)@,
    {
        if self.pages.len() >= MAX_SEGMENT_PAGES {
            return Err(MemoryError::SegmentOverlapCapacityExceeded);
        }
        self.pages.push(UserPage { virt_page, phys_page });
        Ok(())
    }

    /// Copies `bytes` to the user addresses from `start_address` on, through
    /// the frames of the map; fails, having copied what came before, at the
    /// first page that has no frame.
    pub fn copy_into(&self, mem: &mut PhysicalMemory, start_address: u64, bytes: &[u8]) -> (r: Result<(), MemoryError>)
        requires
            pages_wf(self@, *old(mem)),
            start_address + bytes@.len() <= u64::MAX,
        ensures
            final(mem).wf() == old(mem).wf(),
            final(mem).spec_base() == old(mem).spec_base(),
            final(mem).spec_size() == old(mem).spec_size(),
            r is Ok <==> forall|a: int| start_address <= a < start_address + bytes@.len()
                ==> #[trigger] lookup_page(self@, page_of(a)) is Some,
            r is Err ==> r == Err::<(), MemoryError>(MemoryError::UserImageOutOfRange),
            r is Ok ==> forall|a: int| start_address <= a < start_address + bytes@.len()
                ==> #[trigger] final(mem).byte(user_addr(self@, a)) == bytes@[a - start_address],
            forall|x: int| final(mem).covers(x, x + 1) && (forall|a: int| start_address <= a < start_address + bytes@.len()
                && lookup_page(self@, page_of(a)) is Some ==> #[trigger] user_addr(self@, a) != x)
                ==> #[trigger] final(mem).byte(x) == old(mem).byte(x),
            forall|x: int| final(mem).covers(x, x + 1) && !in_frames(self@, x) ==> #[trigger] final(mem).byte(x) == old(mem).byte(x),
    {
        let mut offset: usize = 0;
        while offset < bytes.len()
            invariant
                pages_wf(self@, *mem),
                start_address + bytes@.len() <= u64::MAX,
                offset <= bytes@.len(),
                mem.wf() == old(mem).wf(),
                mem.spec_base() == old(mem).spec_base(),
                mem.spec_size() == old(mem).spec_size(),
                forall|a: int| start_address <= a < start_address + offset ==> #[trigger] lookup_page(self@, page_of(a)) is Some,
                forall|a: int| start_address <= a < start_address + offset
                    ==> #[trigger] mem.byte(user_addr(self@, a)) == bytes@[a - start_address],
                forall|x: int| mem.covers(x, x + 1) && (forall|a: int| start_address <= a < start_address + offset
                    && lookup_page(self@, page_of(a)) is Some ==> #[trigger] user_addr(self@, a) != x)
                    ==> #[trigger] mem.byte(x) == old(mem).byte(x),
            decreases bytes@.len() - offset,
        {
            let address = start_address + offset as u64;
            let virt_page = align_down(address, PAGE_SIZE as u64);
            let page = match self.find(virt_page) {
                Some(page) => page,
                None => {
                    proof {
                        assert(page_of(address as int) == virt_page);
                    }
                    return Err(MemoryError::UserImageOutOfRange);
                },
            };
            let page_offset = address - virt_page;
            let room = (PAGE_SIZE as u64 - page_offset) as usize;
            let remaining = bytes.len() - offset;
            let length = if remaining < room { remaining } else { room };
            let chunk = vstd::slice::slice_subrange(bytes, offset, offset + length);
            let ghost before = *mem;
            proof {
                let i = choose|i: int| 0 <= i < self@.len() && self@[i] == page;
                assert(mem.covers(page.phys_page as int, page.phys_page + PAGE_SIZE));
            }
            mem.write_bytes(page.phys_page + page_offset, chunk);
            proof {
                lemma_copy_step(self@, before, *mem, start_address as int, bytes@, offset as int, length as int,
                    virt_page as int, page.phys_page);
            }
            offset = offset + length;
        }
        Ok(())
    }
}

/// One chunk of `copy_into`: the bytes of the chunk land in the frame of
/// its page, and the bytes copied earlier and everything else stay.
proof fn lemma_copy_step(
    pages: Seq<UserPage>,
    before: PhysicalMemory,
    after: PhysicalMemory,
    start: int,
    bytes: Seq<u8>,
    offset: int,
    length: int,
    virt_page: int,
    phys_page: u64,
)
    requires
        pages_wf(pages, before),
        0 <= offset,
        0 < length,
        offset + length <= bytes.len(),
        virt_page % PAGE_SIZE as int == 0,
        virt_page <= start + offset,
        start + offset + length <= virt_page + PAGE_SIZE,
        lookup_page(pages, virt_page) == Some(phys_page),
        after.bytes_at(phys_page + (start + offset - virt_page), length) == bytes.subrange(offset, offset + length),
        after.same_outside(&before, phys_page + (start + offset - virt_page), phys_page + (start + offset - virt_page) + length),
        forall|a: int| start <= a < start + offset ==> #[trigger] lookup_page(pages, page_of(a)) is Some,
        forall|a: int| start <= a < start + offset ==> #[trigger] before.byte(user_addr(pages, a)) == bytes[a - start],
    ensures
        forall|a: int| start <= a < start + offset + length ==> #[trigger] lookup_page(pages, page_of(a)) is Some,
        forall|a: int| start <= a < start + offset + length ==> #[trigger] after.byte(user_addr(pages, a)) == bytes[a - start],
        forall|x: int| after.covers(x, x + 1) && (forall|a: int| start + offset <= a < start + offset + length
            ==> #[trigger] user_addr(pages, a) != x) ==> #[trigger] after.byte(x) == before.byte(x),
{
    let lo = phys_page + (start + offset - virt_page);
    let hi = lo + length;
    assert forall|a: int| start + offset <= a < start + offset + length implies page_of(a) == virt_page
        && a % PAGE_SIZE as int == a - virt_page by {
        lemma_page_of_within(a, virt_page);
    }
    assert forall|a: int| start <= a < start + offset + length implies #[trigger] lookup_page(pages, page_of(a)) is Some by {
        if a >= start + offset {
            assert(page_of(a) == virt_page);
        }
    }
    let k = choose|i: int| 0 <= i < pages.len() && (#[trigger] pages[i]).virt_page == virt_page;
    assert(pages[k].phys_page == phys_page);
    assert forall|a: int| start <= a < start + offset + length implies #[trigger] after.byte(user_addr(pages, a)) == bytes[a - start] by {
        if a >= start + offset {
            assert(user_addr(pages, a) == lo + (a - start - offset));
            assert(after.bytes_at(lo, length)[a - start - offset] == after.byte(lo + (a - start - offset)));
        } else {
            let p = page_of(a);
            assert(lookup_page(pages, p) is Some);
            let i = choose|i: int| 0 <= i < pages.len() && (#[trigger] pages[i]).virt_page == p;
            lemma_page_of_bounds(a);
            if p == virt_page {
                assert(user_addr(pages, a) == phys_page + (a - virt_page));
            } else {
                assert(i != k);
                lemma_frames_apart(pages[i].phys_page as int, phys_page as int);
            }
            assert(before.covers(user_addr(pages, a), user_addr(pages, a) + 1));
        }
    }
    assert forall|x: int| after.covers(x, x + 1) && (forall|a: int| start + offset <= a < start + offset + length
        ==> #[trigger] user_addr(pages, a) != x) implies #[trigger] after.byte(x) == before.byte(x) by {
        if lo <= x < hi {
            let a = virt_page + (x - phys_page);
            assert(user_addr(pages, a) == lo + (a - start - offset));
        }
    }
}

/// The argument strings, each followed by its NUL, one after another.
pub open spec fn packed_strings(args: Seq<Seq<u8>>) -> Seq<u8>
    decreases args.len(),
{
    if args.len() == 0 { Seq::empty() } else { packed_strings(args.drop_last()) + args.last() + seq![0u8] }
}

/// The user address where argument `k` starts.
pub open spec fn arg_address(args: Seq<Seq<u8>>, strings_start: int, k: int) -> int {
    strings_start + strings_size(args.take(k))
}

/// Slot `k` of the argv array: the address of argument `k`, and NULL after
/// the last one.
pub open spec fn argv_pointer(args: Seq<Seq<u8>>, strings_start: int, k: int) -> int {
    if k < args.len() { arg_address(args, strings_start, k) } else { 0 }
}

/// The bytes that the user addresses `[a, a + len)` hold.
pub open spec fn user_bytes(mem: PhysicalMemory, pages: Seq<UserPage>, a: int, len: int) -> Seq<u8> {
    Seq::new(len as nat, |i: int| mem.byte(user_addr(pages, a + i)))
}

/// The initial user stack: the argument count at `stack_start`, the argv
/// array right above it, and the strings from `strings_start` to the top.
pub open spec fn startup_written(mem: PhysicalMemory, pages: Seq<UserPage>, args: Seq<Seq<u8>>, strings_start: int, stack_start: int) -> bool {
    &&& spec_le_u64(user_bytes(mem, pages, stack_start, 8)) == args.len()
    &&& forall|k: int| 0 <= k <= args.len()
        ==> spec_le_u64(#[trigger] user_bytes(mem, pages, stack_start + 8 + 8 * k, 8)) == argv_pointer(args, strings_start, k)
    &&& user_bytes(mem, pages, strings_start, USER_STACK_TOP - strings_start) == packed_strings(args)
}

/// Every user address of `[lo, hi)` has a frame.
pub open spec fn range_mapped(pages: Seq<UserPage>, lo: int, hi: int) -> bool {
    forall|a: int| lo <= a < hi ==> #[trigger] lookup_page(pages, page_of(a)) is Some
}

/// Distinct mapped user addresses sit at distinct physical addresses.
proof fn lemma_user_addr_injective(pages: Seq<UserPage>, mem: PhysicalMemory, a: int, b: int)
    requires
        pages_wf(pages, mem),
        lookup_page(pages, page_of(a)) is Some,
        lookup_page(pages, page_of(b)) is Some,
        a != b,
    ensures
        user_addr(pages, a) != user_addr(pages, b),
        mem.covers(user_addr(pages, a), user_addr(pages, a) + 1),
{
    lemma_page_of_bounds(a);
    lemma_page_of_bounds(b);
    let i = choose|i: int| 0 <= i < pages.len() && (#[trigger] pages[i]).virt_page == page_of(a);
    let j = choose|j: int| 0 <= j < pages.len() && (#[trigger] pages[j]).virt_page == page_of(b);
    if page_of(a) != page_of(b) {
        assert(i != j);
        lemma_frames_apart(pages[i].phys_page as int, pages[j].phys_page as int);
    }
}

/// `bytes` sit at the user addresses from `start` on, and no other byte of
/// memory changed.
#[verifier::opaque]
pub open spec fn copied(new: PhysicalMemory, old: PhysicalMemory, pages: Seq<UserPage>, start: int, bytes: Seq<u8>) -> bool {
    &&& new.spec_base() == old.spec_base()
    &&& new.spec_size() == old.spec_size()
    &&& forall|a: int| start <= a < start + bytes.len() ==> #[trigger] new.byte(user_addr(pages, a)) == bytes[a - start]
    &&& forall|x: int| new.covers(x, x + 1) && (forall|b: int| start <= b < start + bytes.len()
        && lookup_page(pages, page_of(b)) is Some ==> #[trigger] user_addr(pages, b) != x)
        ==> #[trigger] new.byte(x) == old.byte(x)
}

/// Copies `bytes` to user addresses that all have frames.
fn copy_mapped(pages: &UserPageMap, mem: &mut PhysicalMemory, start: u64, bytes: &[u8])
    requires
        pages_wf(pages@, *old(mem)),
        start + bytes@.len() <= u64::MAX,
        range_mapped(pages@, start as int, start + bytes@.len()),
    ensures
        final(mem).wf() == old(mem).wf(),
        pages_wf(pages@, *final(mem)),
        copied(*final(mem), *old(mem), pages@, start as int, bytes@),
{
    let _ = pages.copy_into(mem, start, bytes);
    proof {
        reveal(copied);
    }
}

/// A mapped user address outside a copy keeps its byte.
proof fn lemma_copy_keeps(pages: Seq<UserPage>, before: PhysicalMemory, after: PhysicalMemory, start: int, bytes: Seq<u8>, a: int)
    requires
        pages_wf(pages, before),
        copied(after, before, pages, start, bytes),
        lookup_page(pages, page_of(a)) is Some,
        !(start <= a < start + bytes.len()),
    ensures
        after.byte(user_addr(pages, a)) == before.byte(user_addr(pages, a)),
{
    reveal(copied);
    let x = user_addr(pages, a);
    assert forall|b: int| start <= b < start + bytes.len() && lookup_page(pages, page_of(b)) is Some
        implies #[trigger] user_addr(pages, b) != x by {
        lemma_user_addr_injective(pages, before, a, b);
    }
    lemma_page_of_bounds(a);
    let i = choose|i: int| 0 <= i < pages.len() && (#[trigger] pages[i]).virt_page == page_of(a);
    assert(before.covers(x, x + 1));
}

/// A copied user address holds its byte of the copy.
proof fn lemma_copy_holds(pages: Seq<UserPage>, before: PhysicalMemory, after: PhysicalMemory, start: int, bytes: Seq<u8>, a: int)
    requires
        copied(after, before, pages, start, bytes),
        start <= a < start + bytes.len(),
    ensures
        after.byte(user_addr(pages, a)) == bytes[a - start],
{
    reveal(copied);
}

/// Only user addresses of `[lo, hi)` may hold new bytes.
pub open spec fn written_only(new: PhysicalMemory, old: PhysicalMemory, pages: Seq<UserPage>, lo: int, hi: int) -> bool {
    &&& new.spec_base() == old.spec_base()
    &&& new.spec_size() == old.spec_size()
    &&& forall|x: int| new.covers(x, x + 1) && (forall|a: int| lo <= a < hi ==> #[trigger] user_addr(pages, a) != x)
        ==> #[trigger] new.byte(x) == old.byte(x)
}

/// A copy into a subrange writes only inside the range.
proof fn lemma_copy_written_only(pages: Seq<UserPage>, before: PhysicalMemory, after: PhysicalMemory, start: int, bytes: Seq<u8>, lo: int, hi: int)
    requires
        lo <= start,
        start + bytes.len() <= hi,
        copied(after, before, pages, start, bytes),
    ensures
        written_only(after, before, pages, lo, hi),
{
    reveal(copied);
    assert forall|x: int| after.covers(x, x + 1) && (forall|a: int| lo <= a < hi ==> #[trigger] user_addr(pages, a) != x)
        implies #[trigger] after.byte(x) == before.byte(x) by {
        assert forall|b: int| start <= b < start + bytes.len() && lookup_page(pages, page_of(b)) is Some
            implies #[trigger] user_addr(pages, b) != x by {
            assert(lo <= b < hi);
        }
    }
}

/// Writes in one range after writes in another compose.
proof fn lemma_written_only_trans(m0: PhysicalMemory, m1: PhysicalMemory, m2: PhysicalMemory, pages: Seq<UserPage>, lo: int, hi: int)
    requires
        written_only(m1, m0, pages, lo, hi),
        written_only(m2, m1, pages, lo, hi),
    ensures
        written_only(m2, m0, pages, lo, hi),
{
}

/// Writes within a range are writes within any range that contains it.
proof fn lemma_widen_written(pages: Seq<UserPage>, before: PhysicalMemory, after: PhysicalMemory, lo: int, wide_lo: int, hi: int)
    requires
        wide_lo <= lo,
        written_only(after, before, pages, lo, hi),
    ensures
        written_only(after, before, pages, wide_lo, hi),
{
    assert forall|x: int| after.covers(x, x + 1) && (forall|a: int| wide_lo <= a < hi ==> #[trigger] user_addr(pages, a) != x)
        implies #[trigger] after.byte(x) == before.byte(x) by {
        assert forall|a: int| lo <= a < hi implies #[trigger] user_addr(pages, a) != x by {
            assert(wide_lo <= a);
        }
    }
}

/// Copies every argument string, each with its NUL, upward from
/// `strings_start`, and returns where each one starts.
fn write_strings(pages: &UserPageMap, mem: &mut PhysicalMemory, layout: &StartupLayout) -> (r: Vec<u64>)
    requires
        pages_wf(pages@, *old(mem)),
        range_mapped(pages@, USER_STACK_BASE as int, USER_STACK_TOP as int),
        layout.argc == layout.args@.len(),
        USER_STACK_BASE <= layout.strings_start,
        layout.strings_start + strings_size(layout.spec_args()) == USER_STACK_TOP,
    ensures
        final(mem).wf() == old(mem).wf(),
        pages_wf(pages@, *final(mem)),
        r@ == Seq::new(layout.argc as nat, |k: int| arg_address(layout.spec_args(), layout.strings_start as int, k) as u64),
        user_bytes(*final(mem), pages@, layout.strings_start as int, USER_STACK_TOP - layout.strings_start)
            == packed_strings(layout.spec_args()),
        written_only(*final(mem), *old(mem), pages@, layout.strings_start as int, USER_STACK_TOP as int),
{
    let ghost args = layout.spec_args();
    let ghost ss = layout.strings_start as int;
    let mut pointers: Vec<u64> = Vec::new();
    let mut cursor: u64 = layout.strings_start;
    let mut nul: Vec<u8> = Vec::new();
    nul.push(0u8);
    let mut index: usize = 0;
    proof {
        assert(args.take(0) =~= Seq::<Seq<u8>>::empty());
        assert(user_bytes(*mem, pages@, ss, 0) =~= packed_strings(args.take(0)));
    }
    while index < layout.argc
        invariant
            pages_wf(pages@, *mem),
            range_mapped(pages@, USER_STACK_BASE as int, USER_STACK_TOP as int),
            args == layout.spec_args(),
            ss == layout.strings_start,
            layout.argc == args.len(),
            USER_STACK_BASE <= ss,
            ss + strings_size(args) == USER_STACK_TOP,
            nul@ == seq![0u8],
            index <= layout.argc,
            cursor == ss + strings_size(args.take(index as int)),
            pointers@ == Seq::new(index as nat, |k: int| arg_address(args, ss, k) as u64),
            user_bytes(*mem, pages@, ss, cursor - ss) == packed_strings(args.take(index as int)),
            mem.wf() == old(mem).wf(),
            written_only(*mem, *old(mem), pages@, ss, USER_STACK_TOP as int),
        decreases layout.argc - index,
    {
        let ghost before = *mem;
        proof {
            lemma_strings_take_step(args, index as int);
            lemma_strings_size_prefix(args, index + 1);
            lemma_strings_size_prefix(args, index as int);
        }
        pointers.push(cursor);
        let arg = layout.args[index].as_slice();
        copy_mapped(pages, mem, cursor, arg);
        let ghost middle = *mem;
        let next = cursor + arg.len() as u64;
        copy_mapped(pages, mem, next, nul.as_slice());
        proof {
            lemma_string_appended(pages@, before, middle, *mem, ss, cursor as int, arg@, args.take(index as int));
            assert(pointers@ =~= Seq::new((index + 1) as nat, |k: int| arg_address(args, ss, k) as u64));
            lemma_copy_written_only(pages@, before, middle, cursor as int, arg@, ss, USER_STACK_TOP as int);
            lemma_copy_written_only(pages@, middle, *mem, next as int, nul@, ss, USER_STACK_TOP as int);
        }
        cursor = next + 1;
        index += 1;
    }
    proof {
        assert(args.take(args.len() as int) =~= args);
    }
    pointers
}

/// The argv array as bytes: each pointer in eight little-endian bytes.
fn encode_pointers(pointers: &Vec<u64>) -> (r: Vec<u8>)
    requires
        pointers@.len() * 8 <= usize::MAX,
    ensures
        r@.len() == 8 * pointers@.len(),
        forall|k: int| 0 <= k < pointers@.len() ==> spec_le_u64(#[trigger] r@.subrange(8 * k, 8 * k + 8)) == pointers@[k],
{
    let mut pointer_bytes: Vec<u8> = Vec::new();
    let mut slot: usize = 0;
    while slot < pointers.len()
        invariant
            slot <= pointers@.len(),
            pointer_bytes@.len() == 8 * slot,
            forall|k: int| 0 <= k < slot ==> spec_le_u64(#[trigger] pointer_bytes@.subrange(8 * k, 8 * k + 8)) == pointers@[k],
        decreases pointers@.len() - slot,
    {
        let encoded = le_u64_to_bytes(pointers[slot]);
        let ghost prior = pointer_bytes@;
        let mut b: usize = 0;
        while b < 8
            invariant
                b <= 8,
                encoded@.len() == 8,
                pointer_bytes@ == prior + encoded@.take(b as int),
            decreases 8 - b,
        {
            pointer_bytes.push(encoded[b]);
            b += 1;
            assert(pointer_bytes@ =~= prior + encoded@.take(b as int));
        }
        proof {
            assert(encoded@.take(8) =~= encoded@);
            assert forall|k: int| 0 <= k < slot + 1 implies spec_le_u64(#[trigger] pointer_bytes@.subrange(8 * k, 8 * k + 8))
                == pointers@[k] by {
                if k < slot {
                    assert(pointer_bytes@.subrange(8 * k, 8 * k + 8) =~= prior.subrange(8 * k, 8 * k + 8));
                } else {
                    assert(pointer_bytes@.subrange(8 * k, 8 * k + 8) =~= encoded@);
                }
            }
        }
        slot += 1;
    }
    pointer_bytes
}

/// Writes the strings, the argument count and the argv array of `layout`
/// onto the initial user stack.
fn write_stack(pages: &UserPageMap, mem: &mut PhysicalMemory, layout: &StartupLayout)
    requires
        pages_wf(pages@, *old(mem)),
        range_mapped(pages@, USER_STACK_BASE as int, USER_STACK_TOP as int),
        layout.argc == layout.args@.len(),
        USER_STACK_BASE <= layout.stack_start,
        layout.stack_start + 8 + 8 * (layout.argc + 1) <= layout.strings_start,
        layout.strings_start + strings_size(layout.spec_args()) == USER_STACK_TOP,
    ensures
        final(mem).wf() == old(mem).wf(),
        pages_wf(pages@, *final(mem)),
        written_only(*final(mem), *old(mem), pages@, USER_STACK_BASE as int, USER_STACK_TOP as int),
        startup_written(*final(mem), pages@, layout.spec_args(), layout.strings_start as int, layout.stack_start as int),
{
    let ghost args = layout.spec_args();
    let ghost ss = layout.strings_start as int;
    let ghost st = layout.stack_start as int;
    proof {
        lemma_strings_size_nonneg(args);
    }
    let mut pointers = write_strings(pages, mem, layout);
    pointers.push(0);
    let ghost after_strings = *mem;
    let argc_bytes = le_u64_to_bytes(layout.argc as u64);
    copy_mapped(pages, mem, layout.stack_start, argc_bytes.as_slice());
    let ghost after_count = *mem;
    let pointer_bytes = encode_pointers(&pointers);
    copy_mapped(pages, mem, layout.stack_start + 8, pointer_bytes.as_slice());
    proof {
        lemma_copy_written_only(pages@, after_strings, after_count, st, argc_bytes@, USER_STACK_BASE as int, USER_STACK_TOP as int);
        lemma_copy_written_only(pages@, after_count, *mem, st + 8, pointer_bytes@, USER_STACK_BASE as int, USER_STACK_TOP as int);
        lemma_widen_written(pages@, *old(mem), after_strings, ss, USER_STACK_BASE as int, USER_STACK_TOP as int);
        lemma_written_only_trans(*old(mem), after_strings, after_count, pages@, USER_STACK_BASE as int, USER_STACK_TOP as int);
        lemma_written_only_trans(*old(mem), after_count, *mem, pages@, USER_STACK_BASE as int, USER_STACK_TOP as int);
        lemma_count_written(pages@, after_strings, after_count, *mem, st, argc_bytes@, pointer_bytes@);
        lemma_pointers_written(pages@, after_count, *mem, args, ss, st, pointer_bytes@, pointers@);
        lemma_strings_kept(pages@, after_strings, after_count, *mem, args, ss, st, argc_bytes@, pointer_bytes@);
    }
}

/// Writes the startup arguments onto the initial user stack through the
/// frames of `pages` and returns the initial stack pointer.
fn write_startup_arguments(pages: &UserPageMap, mem: &mut PhysicalMemory, startup: &ProgramStartup) -> (r: Result<u64, MemoryError>)
    requires
        pages_wf(pages@, *old(mem)),
        range_mapped(pages@, USER_STACK_BASE as int, USER_STACK_TOP as int),
    ensures
        final(mem).wf() == old(mem).wf(),
        pages_wf(pages@, *final(mem)),
        written_only(*final(mem), *old(mem), pages@, USER_STACK_BASE as int, USER_STACK_TOP as int),
        match startup_layout(startup.argv0.spec_bytes(), startup.argv_tail@) {
            Ok((args, strings_start, stack_start)) => r == Ok::<u64, MemoryError>(stack_start as u64)
                && startup_written(*final(mem), pages@, args, strings_start, stack_start),
            Err(error) => r == Err::<u64, MemoryError>(error) && *final(mem) == *old(mem),
        },
{
    let layout = match prepare_startup_layout(startup) {
        Ok(layout) => layout,
        Err(error) => return Err(error),
    };
    proof {
        let args = layout.spec_args();
        let ss = layout.strings_start as int;
        let pointers_start = round_down(ss - (args.len() + 1) * 8, 8);
        assert(layout.stack_start <= pointers_start - 8);
        assert(pointers_start <= ss - (args.len() + 1) * 8);
    }
    write_stack(pages, mem, &layout);
    Ok(layout.stack_start)
}

/// The argument count copied at `st` survives the copy of the argv array
/// right above it.
proof fn lemma_count_written(
    pages: Seq<UserPage>,
    after_strings: PhysicalMemory,
    after_count: PhysicalMemory,
    last: PhysicalMemory,
    st: int,
    argc_bytes: Seq<u8>,
    pointer_bytes: Seq<u8>,
)
    requires
        pages_wf(pages, after_count),
        range_mapped(pages, st, st + 8),
        argc_bytes.len() == 8,
        copied(after_count, after_strings, pages, st, argc_bytes),
        copied(last, after_count, pages, st + 8, pointer_bytes),
    ensures
        user_bytes(last, pages, st, 8) == argc_bytes,
{
    assert forall|i: int| 0 <= i < 8 implies #[trigger] user_bytes(last, pages, st, 8)[i] == argc_bytes[i] by {
        let a = st + i;
        assert(lookup_page(pages, page_of(a)) is Some);
        lemma_copy_keeps(pages, after_count, last, st + 8, pointer_bytes, a);
        lemma_copy_holds(pages, after_strings, after_count, st, argc_bytes, a);
    }
    assert(user_bytes(last, pages, st, 8) =~= argc_bytes);
}

/// The argv array copied at `st + 8` holds every pointer.
proof fn lemma_pointers_written(
    pages: Seq<UserPage>,
    before: PhysicalMemory,
    last: PhysicalMemory,
    args: Seq<Seq<u8>>,
    ss: int,
    st: int,
    pointer_bytes: Seq<u8>,
    pointers: Seq<u64>,
)
    requires
        0 <= ss,
        ss + strings_size(args) == USER_STACK_TOP,
        pointer_bytes.len() == 8 * (args.len() + 1),
        pointers.len() == args.len() + 1,
        forall|k: int| 0 <= k < args.len() + 1 ==> spec_le_u64(#[trigger] pointer_bytes.subrange(8 * k, 8 * k + 8)) == pointers[k],
        forall|k: int| 0 <= k < args.len() ==> #[trigger] pointers[k] == arg_address(args, ss, k) as u64,
        pointers[args.len() as int] == 0,
        copied(last, before, pages, st + 8, pointer_bytes),
    ensures
        forall|k: int| 0 <= k <= args.len()
            ==> spec_le_u64(#[trigger] user_bytes(last, pages, st + 8 + 8 * k, 8)) == argv_pointer(args, ss, k),
{
    assert forall|k: int| 0 <= k <= args.len() implies spec_le_u64(#[trigger] user_bytes(last, pages, st + 8 + 8 * k, 8))
        == argv_pointer(args, ss, k) by {
        lemma_slot_bytes(pages, before, last, st, pointer_bytes, k);
        lemma_slot_value(args, ss, pointers, k);
        assert(spec_le_u64(pointer_bytes.subrange(8 * k, 8 * k + 8)) == pointers[k]);
    }
}

/// Slot `k` of the pointer array is the argv pointer of slot `k`.
proof fn lemma_slot_value(args: Seq<Seq<u8>>, ss: int, pointers: Seq<u64>, k: int)
    requires
        0 <= k <= args.len(),
        0 <= ss,
        ss + strings_size(args) == USER_STACK_TOP,
        pointers.len() == args.len() + 1,
        forall|j: int| 0 <= j < args.len() ==> #[trigger] pointers[j] == arg_address(args, ss, j) as u64,
        pointers[args.len() as int] == 0,
    ensures
        pointers[k] == argv_pointer(args, ss, k),
{
    if k < args.len() {
        lemma_strings_size_prefix(args, k);
        assert(pointers[k] == arg_address(args, ss, k) as u64);
    }
}

/// Slot `k` of the copied argv array reads back as its eight bytes.
proof fn lemma_slot_bytes(pages: Seq<UserPage>, before: PhysicalMemory, last: PhysicalMemory, st: int, pointer_bytes: Seq<u8>, k: int)
    requires
        0 <= k,
        8 * k + 8 <= pointer_bytes.len(),
        copied(last, before, pages, st + 8, pointer_bytes),
    ensures
        user_bytes(last, pages, st + 8 + 8 * k, 8) == pointer_bytes.subrange(8 * k, 8 * k + 8),
{
    assert forall|i: int| 0 <= i < 8 implies #[trigger] user_bytes(last, pages, st + 8 + 8 * k, 8)[i]
        == pointer_bytes.subrange(8 * k, 8 * k + 8)[i] by {
        let a = st + 8 + 8 * k + i;
        lemma_copy_holds(pages, before, last, st + 8, pointer_bytes, a);
    }
    assert(user_bytes(last, pages, st + 8 + 8 * k, 8) =~= pointer_bytes.subrange(8 * k, 8 * k + 8));
}

/// The strings survive the two copies below them.
proof fn lemma_strings_kept(
    pages: Seq<UserPage>,
    after_strings: PhysicalMemory,
    after_count: PhysicalMemory,
    last: PhysicalMemory,
    args: Seq<Seq<u8>>,
    ss: int,
    st: int,
    argc_bytes: Seq<u8>,
    pointer_bytes: Seq<u8>,
)
    requires
        pages_wf(pages, after_strings),
        pages_wf(pages, after_count),
        range_mapped(pages, ss, USER_STACK_TOP as int),
        ss <= USER_STACK_TOP,
        argc_bytes.len() == 8,
        st + 8 + pointer_bytes.len() <= ss,
        user_bytes(after_strings, pages, ss, USER_STACK_TOP - ss) == packed_strings(args),
        copied(after_count, after_strings, pages, st, argc_bytes),
        copied(last, after_count, pages, st + 8, pointer_bytes),
    ensures
        user_bytes(last, pages, ss, USER_STACK_TOP - ss) == packed_strings(args),
{
    assert forall|i: int| 0 <= i < USER_STACK_TOP - ss implies #[trigger] user_bytes(last, pages, ss, USER_STACK_TOP - ss)[i]
        == packed_strings(args)[i] by {
        let a = ss + i;
        assert(lookup_page(pages, page_of(a)) is Some);
        lemma_copy_keeps(pages, after_strings, after_count, st, argc_bytes, a);
        lemma_copy_keeps(pages, after_count, last, st + 8, pointer_bytes, a);
        assert(user_bytes(after_strings, pages, ss, USER_STACK_TOP - ss)[i] == after_strings.byte(user_addr(pages, a)));
    }
    assert(user_bytes(last, pages, ss, USER_STACK_TOP - ss) =~= packed_strings(args));
}

/// Taking one more argument appends it and its NUL to the packed strings.
proof fn lemma_strings_take_step(args: Seq<Seq<u8>>, k: int)
    requires
        0 <= k < args.len(),
    ensures
        packed_strings(args.take(k + 1)) == packed_strings(args.take(k)) + args[k] + seq![0u8],
        strings_size(args.take(k + 1)) == strings_size(args.take(k)) + args[k].len() + 1,
{
    assert(args.take(k + 1).drop_last() =~= args.take(k));
    assert(args.take(k + 1).last() == args[k]);
}

/// One argument and its NUL copied at `cursor` extend the strings written
/// from `ss`.
proof fn lemma_string_appended(
    pages: Seq<UserPage>,
    before: PhysicalMemory,
    middle: PhysicalMemory,
    after: PhysicalMemory,
    ss: int,
    cursor: int,
    arg: Seq<u8>,
    done: Seq<Seq<u8>>,
)
    requires
        pages_wf(pages, before),
        pages_wf(pages, middle),
        range_mapped(pages, ss, cursor + arg.len() + 1),
        ss <= cursor,
        user_bytes(before, pages, ss, cursor - ss) == packed_strings(done),
        copied(middle, before, pages, cursor, arg),
        copied(after, middle, pages, cursor + arg.len(), seq![0u8]),
    ensures
        user_bytes(after, pages, ss, cursor + arg.len() + 1 - ss) == packed_strings(done) + arg + seq![0u8],
{
    let n = arg.len() as int;
    let expected = packed_strings(done) + arg + seq![0u8];
    let got = user_bytes(after, pages, ss, cursor + n + 1 - ss);
    assert forall|i: int| 0 <= i < cursor + n + 1 - ss implies got[i] == expected[i] by {
        let a = ss + i;
        assert(lookup_page(pages, page_of(a)) is Some);
        if a < cursor {
            lemma_copy_keeps(pages, before, middle, cursor, arg, a);
            lemma_copy_keeps(pages, middle, after, cursor + n, seq![0u8], a);
            assert(user_bytes(before, pages, ss, cursor - ss)[i] == before.byte(user_addr(pages, a)));
        } else if a < cursor + n {
            lemma_copy_holds(pages, before, middle, cursor, arg, a);
            lemma_copy_keeps(pages, middle, after, cursor + n, seq![0u8], a);
        } else {
            lemma_copy_holds(pages, middle, after, cursor + n, seq![0u8], a);
        }
    }
    assert(got =~= expected);
}

/// `v` is mapped for the user to the frame `phys`, read-only or writable.
pub open spec fn user_mapped(mem: PhysicalMemory, root: u64, v: u64, phys: u64) -> bool {
    translate_4k(mem, root, v) == Some(phys | (PAGE_PRESENT | PAGE_USER))
        || translate_4k(mem, root, v) == Some(phys | (PAGE_PRESENT | PAGE_USER | PAGE_WRITABLE))
}

/// One of `pages` lies in the 2 MiB slot `slot` of user memory.
pub open spec fn slot_used(pages: Seq<UserPage>, slot: int) -> bool {
    exists|i: int| 0 <= i < pages.len() && (#[trigger] pages[i]).virt_page as int / LARGE_PAGE_SIZE as int == slot
}

/// At most how many page tables the user pages of `pages` need: three for
/// each of the two 2 MiB slots of user memory that they use.
pub open spec fn user_tables(pages: Seq<UserPage>) -> int {
    (if slot_used(pages, USER_IMAGE_BASE as int / LARGE_PAGE_SIZE as int) { 3int } else { 0int })
        + (if slot_used(pages, (USER_STACK_TOP - 1) as int / LARGE_PAGE_SIZE as int) { 3int } else { 0int })
}

/// At most how many pages building an image from `s` takes: the root, the
/// tables shared with the kernel, the user frames and the tables over user
/// memory.
pub open spec fn owned_ceiling(s: MemoryState) -> int {
    1 + context_tables(s) + MAX_SEGMENT_PAGES + 6
}

/// The pages an image may take all fit the list of pages a program owns.
pub open spec fn tables_fit(s: MemoryState) -> bool {
    owned_ceiling(s) < MAX_OWNED_PAGES
}

/// What stays true, whatever happens while a new image is built: the kernel
/// side is untouched, free memory only shrinks, and every owned page was
/// free at the start.
pub open spec fn image_abandoned(s: MemoryState, s0: MemoryState, owned: Seq<u64>) -> bool {
    &&& s.wf()
    &&& s0.wf()
    &&& same_layout(s, s0)
    &&& kernel_view_kept(s, s0)
    &&& forall|a: int| #[trigger] s.allocator.is_free(a) ==> s0.allocator.is_free(a)
    &&& owned.len() <= MAX_OWNED_PAGES
    &&& owned.len() <= owned_ceiling(s0)
    &&& owned_grew(owned, Seq::empty(), s0.allocator, s.allocator)
}

/// A new image under construction: its tables form a tree apart from the
/// kernel's, each frame is taken memory mapped for the user at its page and
/// lies apart from every table, and no 2 MiB mapping covers the user range.
pub open spec fn image_building(
    s: MemoryState,
    s0: MemoryState,
    builder: AddressSpaceBuilder,
    owned: Seq<u64>,
    pages: Seq<UserPage>,
) -> bool {
    &&& image_abandoned(s, s0, owned)
    &&& owned.len() <= 1 + context_tables(s0) + pages.len() + user_tables(pages)
    &&& taken_within(s0.allocator, s.allocator, owned)
    &&& owned.len() >= 1 && owned[0] == builder.root_paddr
    &&& builder.track_owned
    &&& builder_ready(s, builder)
    &&& pages_wf(pages, s.memory)
    &&& forall|i: int| 0 <= i < pages.len() ==> taken_page((#[trigger] pages[i]).phys_page, s0.allocator, s.allocator)
    &&& forall|i: int| 0 <= i < pages.len() ==> USER_IMAGE_BASE <= (#[trigger] pages[i]).virt_page < USER_STACK_TOP
    &&& forall|i: int, t: u64| 0 <= i < pages.len() && #[trigger] builder.levels@.dom().contains(t)
        ==> (#[trigger] pages[i]).phys_page + PAGE_SIZE <= t || t + PAGE_SIZE <= pages[i].phys_page
    &&& forall|i: int| 0 <= i < pages.len()
        ==> user_mapped(s.memory, builder.root_paddr, (#[trigger] pages[i]).virt_page, pages[i].phys_page)
    &&& forall|v: u64| USER_IMAGE_BASE <= v < USER_STACK_TOP ==> !#[trigger] huge_on_path(s.memory, builder.root_paddr, v)
    &&& window_mapped(s.memory, builder.root_paddr, s.phys_window_end as int)
}

/// Every address of the identity window sits under a 2 MiB mapping.
proof fn lemma_window_huge(mem: PhysicalMemory, root: u64, window_end: int, v: u64)
    requires
        window_mapped(mem, root, window_end),
        PHYS_WINDOW_START <= v < window_end,
    ensures
        huge_on_path(mem, root, v),
{
    let x = (v - v % LARGE_PAGE_SIZE) as u64;
    assert(translate_2m(mem, root, v) == Some(x | kernel_flags(true) | PAGE_HUGE));
    let e = x | kernel_flags(true) | PAGE_HUGE;
    assert(e & 1 != 0 && e & 0x80 != 0) by (bit_vector)
        requires
            e == x | (1u64 | 2u64) | 0x80u64,
    ;
}

/// The window stays mapped across a step that keeps every 2 MiB
/// translation of a huge path.
proof fn lemma_window_kept(m0: PhysicalMemory, m1: PhysicalMemory, root: u64, window_end: int)
    requires
        window_mapped(m0, root, window_end),
        forall|v: u64| #[trigger] huge_on_path(m0, root, v) ==> translate_2m(m1, root, v) == translate_2m(m0, root, v),
    ensures
        window_mapped(m1, root, window_end),
{
    assert forall|a: u64| PHYS_WINDOW_START <= a < window_end implies #[trigger] translate_2m(m1, root, a)
        == Some(((a - a % LARGE_PAGE_SIZE) as u64) | kernel_flags(true) | PAGE_HUGE) by {
        lemma_window_huge(m0, root, window_end, a);
    }
}

/// A page that was free before a step that took it, in memory that only
/// shrinks from the start, is taken from the start on.
proof fn lemma_taken_fresh(p: u64, a0: PhysicalAllocator, a1: PhysicalAllocator, a2: PhysicalAllocator, a3: PhysicalAllocator)
    requires
        forall|a: int| #[trigger] a1.is_free(a) ==> a0.is_free(a),
        forall|a: int| #[trigger] a3.is_free(a) ==> a2.is_free(a),
        taken_page(p, a1, a2),
    ensures
        taken_page(p, a0, a3),
{
    lemma_taken_earlier(p, a0, a1, a2);
    lemma_taken_later(p, a0, a2, a3);
}

/// Appending a taken page keeps the owned pages grown from the start.
proof fn lemma_owned_push(o: Seq<u64>, p: u64, a0: PhysicalAllocator, a1: PhysicalAllocator)
    requires
        owned_grew(o, Seq::empty(), a0, a1),
        taken_page(p, a0, a1),
        p as int % PAGE_SIZE as int == 0,
    ensures
        owned_grew(o.push(p), Seq::empty(), a0, a1),
{
    let n = o.push(p);
    assert(n.subrange(0, 0) =~= Seq::<u64>::empty());
    assert forall|i: int| 0 <= i < n.len() implies (#[trigger] n[i]) as int % PAGE_SIZE as int == 0
        && taken_page(n[i], a0, a1) by {
        if i < o.len() {
            assert(n[i] == o[i]);
        }
    }
}

/// An abandoned image stays abandoned across a later step that keeps the
/// kernel and takes only free memory, and owned pages that only grew.
proof fn lemma_abandoned_step(s0: MemoryState, s1: MemoryState, s2: MemoryState, o1: Seq<u64>, o2: Seq<u64>)
    requires
        image_abandoned(s1, s0, o1),
        s2.wf(),
        same_layout(s2, s1),
        kernel_view_kept(s2, s1),
        forall|a: int| #[trigger] s2.allocator.is_free(a) ==> s1.allocator.is_free(a),
        o2.len() <= MAX_OWNED_PAGES,
        o2.len() <= owned_ceiling(s0),
        owned_grew(o2, o1, s1.allocator, s2.allocator),
    ensures
        image_abandoned(s2, s0, o2),
{
    lemma_owned_grew_trans(Seq::empty(), o1, o2, s0.allocator, s1.allocator, s2.allocator);
}

/// Every address of `alloc` in a free range able to supply a page lies in
/// one of at most `n` pages: the free memory is no more than `n` pages.
pub open spec fn memory_short(alloc: PhysicalAllocator, n: int) -> bool {
    exists|used: Seq<u64>| used.len() <= n
        && forall|a: int| #[trigger] usable_free(alloc, a) ==> in_page_list(used, a)
}

/// A build from `s0` ran out of memory at `s`: no free range can supply a
/// page, and every page taken since `s0` is one of `owned` or one more page
/// the build was about to record.
pub open spec fn ran_dry(s0: MemoryState, s: MemoryState, owned: Seq<u64>) -> bool {
    &&& no_free_page(s.allocator)
    &&& exists|f: u64| #[trigger] taken_within(s0.allocator, s.allocator, owned.push(f))
}

/// Takes accounted for by a list are accounted for by a longer one.
proof fn lemma_taken_within_push(a0: PhysicalAllocator, a1: PhysicalAllocator, o: Seq<u64>, f: u64)
    requires
        taken_within(a0, a1, o),
    ensures
        taken_within(a0, a1, o.push(f)),
{
    assert forall|a: int| #![trigger a1.is_free(a)] a0.is_free(a) && !a1.is_free(a) implies in_page_list(o.push(f), a) by {
        let i = choose|i: int| 0 <= i < o.len() && #[trigger] o[i] <= a < o[i] + PAGE_SIZE;
        assert(o.push(f)[i] == o[i]);
    }
}

/// Takes a zeroed frame for the user page `virt` and maps it there with
/// `flags`.
#[verifier::spinoff_prover]
fn map_new_page(
    state: &mut MemoryState,
    builder: &mut AddressSpaceBuilder,
    owned: &mut OwnedPages,
    pages: &mut UserPageMap,
    virt: u64,
    flags: u64,
    s0: Ghost<MemoryState>,
) -> (r: Result<(), MemoryError>)
    requires
        image_building(*old(state), s0@, *old(builder), old(owned)@, old(pages)@),
        virt as int % PAGE_SIZE as int == 0,
        USER_IMAGE_BASE <= virt < USER_STACK_TOP,
        lookup_page(old(pages)@, virt as int) is None,
        flags == PAGE_PRESENT | PAGE_USER || flags == PAGE_PRESENT | PAGE_USER | PAGE_WRITABLE,
    ensures
        final(builder).root_paddr == old(builder).root_paddr,
        image_abandoned(*final(state), s0@, final(owned)@),
        r is Ok ==> {
            &&& image_building(*final(state), s0@, *final(builder), final(owned)@, final(pages)@)
            &&& final(pages)@.len() == old(pages)@.len() + 1
            &&& final(pages)@.drop_last() == old(pages)@
            &&& final(pages)@.last().virt_page == virt
            &&& translate_4k(final(state).memory, final(builder).root_paddr, virt) == Some(final(pages)@.last().phys_page | flags)
            &&& forall|x: int| #[trigger] in_frames(old(pages)@, x) ==> final(state).memory.byte(x) == old(state).memory.byte(x)
            &&& forall|i: int| 0 <= i < old(pages)@.len() ==> translate_4k(final(state).memory, final(builder).root_paddr,
                (#[trigger] old(pages)@[i]).virt_page) == translate_4k(old(state).memory, old(builder).root_paddr, old(pages)@[i].virt_page)
            &&& forall|x: int| final(pages)@.last().phys_page <= x < final(pages)@.last().phys_page + PAGE_SIZE
                ==> #[trigger] final(state).memory.byte(x) == 0
        },
        r is Err ==> r->Err_0 == MemoryError::AllocatorExhausted || r->Err_0 == MemoryError::OwnedPageCapacityExceeded
            || r->Err_0 == MemoryError::SegmentOverlapCapacityExceeded,
        r == Err::<(), MemoryError>(MemoryError::AllocatorExhausted) ==> ran_dry(s0@, *final(state), final(owned)@),
        r == Err::<(), MemoryError>(MemoryError::OwnedPageCapacityExceeded) ==> final(owned)@.len() == MAX_OWNED_PAGES,
        r == Err::<(), MemoryError>(MemoryError::SegmentOverlapCapacityExceeded)
            ==> final(pages)@ == old(pages)@ && old(pages)@.len() >= MAX_SEGMENT_PAGES,
{
    let ghost before = *state;
    let ghost levels0 = builder.levels@;
    let ghost owned0 = owned@;
    let ghost pages0 = pages@;
    let ghost root = builder.root_paddr;
    let phys = match take_page(&mut state.allocator, &mut state.memory) {
        Ok(page) => page,
        Err(error) => {
            proof {
                assert(state.allocator.spec_regions() == before.allocator.spec_regions());
                crate::memory::paging::lemma_tree_frame(before.memory, state.memory, before.allocator, state.allocator,
                    root, levels0);
                lemma_owned_grew_refl(owned@, before.allocator, state.allocator);
                lemma_touched_from_changed(state.memory, before.memory, levels0, before.allocator);
                lemma_kernel_kept(before, *state, levels0, levels0);
                lemma_abandoned_step(s0@, before, *state, owned0, owned@);
                let ext = owned@.push(0u64);
                assert forall|a: int| #![trigger state.allocator.is_free(a)] s0@.allocator.is_free(a) && !state.allocator.is_free(a)
                    implies in_page_list(ext, a) by {
                    assert(!before.allocator.is_free(a));
                    let i = choose|i: int| 0 <= i < owned@.len() && #[trigger] owned@[i] <= a < owned@[i] + PAGE_SIZE;
                    assert(ext[i] == owned@[i]);
                }
                assert(taken_within(s0@.allocator, state.allocator, ext));
            }
            return Err(error);
        },
    };
    let ghost after_take = *state;
    proof {
        lemma_tree_after_take(before.memory, state.memory, before.allocator, state.allocator, root, levels0,
            phys as int, phys + PAGE_SIZE);
        assert(touched_only(state.memory, before.memory, levels0, before.allocator));
        lemma_kernel_kept(before, *state, levels0, levels0);
        lemma_owned_grew_refl(owned@, before.allocator, state.allocator);
        lemma_abandoned_step(s0@, before, *state, owned0, owned@);
        let slot = virt as int / LARGE_PAGE_SIZE as int;
        if slot_used(pages0, slot) {
            let i = choose|i: int| 0 <= i < pages0.len() && (#[trigger] pages0[i]).virt_page as int / LARGE_PAGE_SIZE as int == slot;
            let w = pages0[i].virt_page;
            assert(user_mapped(before.memory, root, w, pages0[i].phys_page));
            assert(translate_4k(state.memory, root, w) == translate_4k(before.memory, root, w));
            crate::memory::paging::lemma_same_page_table(state.memory, root, w, virt);
            assert(walk_pt(state.memory, root, virt) is Some);
        }
    }
    let mapped = builder.map_4k(&mut state.allocator, &mut state.memory, owned, virt, phys, flags);
    proof {
        let slot = virt as int / LARGE_PAGE_SIZE as int;
        assert(slot == USER_IMAGE_BASE as int / LARGE_PAGE_SIZE as int
            || slot == (USER_STACK_TOP - 1) as int / LARGE_PAGE_SIZE as int);
        if slot_used(pages0, slot) {
            assert(owned@ == owned0);
        } else {
            assert(user_tables(pages0) <= 3);
        }
        assert(owned@.len() <= owned_ceiling(s0@));
    }
    let ghost after_map = *state;
    let ghost levels1 = builder.levels@;
    proof {
        lemma_new_free_trans(levels0, levels0, levels1, before.allocator, after_take.allocator);
        lemma_touched_trans(before.memory, after_take.memory, state.memory, levels0, levels1, before.allocator,
            after_take.allocator);
        lemma_kernel_kept(before, *state, levels0, levels1);
        lemma_abandoned_step(s0@, after_take, *state, owned0, owned@);
    }
    match mapped {
        Ok(()) => {},
        Err(error) => {
            proof {
                if error == MemoryError::AllocatorExhausted {
                    let ext = owned@.push(phys);
                    assert forall|a: int| #![trigger state.allocator.is_free(a)] s0@.allocator.is_free(a) && !state.allocator.is_free(a)
                        implies in_page_list(ext, a) by {
                        if !before.allocator.is_free(a) {
                            let i = choose|i: int| 0 <= i < owned0.len() && #[trigger] owned0[i] <= a < owned0[i] + PAGE_SIZE;
                            assert(owned@.subrange(0, owned0.len() as int)[i] == owned@[i]);
                            assert(ext[i] == owned@[i]);
                        } else if !after_take.allocator.is_free(a) {
                            assert(phys <= a < phys + PAGE_SIZE);
                            assert(ext[ext.len() - 1] == phys);
                        } else {
                            assert(after_take.allocator.is_free(a));
                            let i = choose|i: int| 0 <= i < owned@.len() && #[trigger] owned@[i] <= a < owned@[i] + PAGE_SIZE;
                            assert(ext[i] == owned@[i]);
                        }
                    }
                    assert(taken_within(s0@.allocator, state.allocator, ext));
                }
            }
            return Err(error);
        },
    }
    match pages.insert(virt, phys) {
        Ok(()) => {},
        Err(error) => return Err(error),
    }
    let ghost owned1 = owned@;
    match owned.push(phys) {
        Ok(()) => {},
        Err(error) => return Err(error),
    }
    proof {
        let kernel = before.kernel_levels@;
        let page = UserPage { virt_page: virt, phys_page: phys };
        assert(pages@ == pages0.push(page));
        assert(owned@ == owned1.push(phys));
        // the new frame came from memory free at the start and is taken now
        lemma_taken_fresh(phys, s0@.allocator, before.allocator, after_take.allocator, state.allocator);
        lemma_owned_push(owned1, phys, s0@.allocator, state.allocator);
        assert(taken_within(s0@.allocator, state.allocator, owned@)) by {
            assert forall|a: int| #![trigger state.allocator.is_free(a)] s0@.allocator.is_free(a) && !state.allocator.is_free(a)
                implies in_page_list(owned@, a) by {
                if !before.allocator.is_free(a) {
                    let i = choose|i: int| 0 <= i < owned0.len() && #[trigger] owned0[i] <= a < owned0[i] + PAGE_SIZE;
                    assert(owned1.subrange(0, owned0.len() as int)[i] == owned1[i]);
                    assert(owned@[i] == owned1[i]);
                } else if !after_take.allocator.is_free(a) {
                    assert(phys <= a < phys + PAGE_SIZE);
                    assert(owned@[owned@.len() - 1] == phys);
                } else {
                    assert(after_take.allocator.is_free(a));
                    let i = choose|i: int| 0 <= i < owned1.len() && #[trigger] owned1[i] <= a < owned1[i] + PAGE_SIZE;
                    assert(owned@[i] == owned1[i]);
                }
            }
        }
        // old frames: still taken, apart from the new frame and from every table
        assert forall|i: int| 0 <= i < pages0.len() implies taken_page((#[trigger] pages0[i]).phys_page, s0@.allocator, state.allocator) by {
            lemma_taken_later(pages0[i].phys_page, s0@.allocator, before.allocator, state.allocator);
        }
        assert forall|i: int| 0 <= i < pages0.len() implies (#[trigger] pages0[i]).phys_page != phys by {
            assert(taken_page(pages0[i].phys_page, s0@.allocator, before.allocator));
            if pages0[i].phys_page == phys {
                assert(before.allocator.is_free(phys as int));
                assert(!before.allocator.is_free(phys as int));
            }
        }
        assert forall|i: int, t: u64| 0 <= i < pages@.len() && #[trigger] levels1.dom().contains(t)
            implies (#[trigger] pages@[i]).phys_page + PAGE_SIZE <= t || t + PAGE_SIZE <= pages@[i].phys_page by {
            let f = pages@[i].phys_page;
            if i < pages0.len() {
                assert(pages@[i] == pages0[i]);
                if !levels0.dom().contains(t) {
                    assert(taken_page(f, s0@.allocator, before.allocator));
                    assert forall|x: int| f <= x < f + PAGE_SIZE implies !#[trigger] after_take.allocator.is_free(x) by {
                        assert(!before.allocator.is_free(x));
                    }
                    assert forall|x: int| t <= x < t + PAGE_SIZE implies #[trigger] after_take.allocator.is_free(x) by {}
                    lemma_kept_and_free_apart(after_take.allocator, f, t);
                }
            } else {
                assert(f == phys);
                if levels0.dom().contains(t) {
                    assert(usable_table(before.memory, before.allocator, t));
                    assert forall|x: int| phys <= x < phys + PAGE_SIZE implies #[trigger] before.allocator.is_free(x) by {}
                    lemma_kept_and_free_apart(before.allocator, t, phys);
                } else {
                    assert forall|x: int| phys <= x < phys + PAGE_SIZE implies !#[trigger] after_take.allocator.is_free(x) by {}
                    assert forall|x: int| t <= x < t + PAGE_SIZE implies #[trigger] after_take.allocator.is_free(x) by {}
                    lemma_kept_and_free_apart(after_take.allocator, phys, t);
                }
            }
        }
        // bytes of frames: the old ones are untouched, the new one is zero
        assert forall|x: int| #[trigger] in_frames(pages0, x) implies state.memory.byte(x) == before.memory.byte(x) by {
            let i = choose|i: int| 0 <= i < pages0.len() && (#[trigger] pages0[i]).phys_page <= x < pages0[i].phys_page + PAGE_SIZE;
            assert(pages@[i] == pages0[i]);
            assert(taken_page(pages0[i].phys_page, s0@.allocator, before.allocator));
            assert(!before.allocator.is_free(x));
            assert(!(phys <= x < phys + PAGE_SIZE));
            assert(before.memory.covers(x, x + 1));
            if in_tables(levels1, x) {
                let t = choose|t: u64| #[trigger] levels1.dom().contains(t) && t <= x < t + PAGE_SIZE;
                assert(pages@[i].phys_page + PAGE_SIZE <= t || t + PAGE_SIZE <= pages@[i].phys_page);
            }
        }
        assert forall|x: int| phys <= x < phys + PAGE_SIZE implies #[trigger] state.memory.byte(x) == 0 by {
            assert(before.allocator.is_free(x));
            assert(after_take.memory.byte(x) == 0);
            if in_tables(levels1, x) {
                let t = choose|t: u64| #[trigger] levels1.dom().contains(t) && t <= x < t + PAGE_SIZE;
                assert(pages@[pages0.len() as int].phys_page == phys);
                assert(phys + PAGE_SIZE <= t || t + PAGE_SIZE <= phys);
            }
            assert(after_take.memory.covers(x, x + 1));
        }
        // translations of the old pages stay
        assert forall|i: int| 0 <= i < pages0.len() implies translate_4k(state.memory, root, (#[trigger] pages0[i]).virt_page)
            == translate_4k(before.memory, root, pages0[i].virt_page) by {
            let v = pages0[i].virt_page;
            assert(user_mapped(before.memory, root, v, pages0[i].phys_page));
            assert(translate_4k(after_take.memory, root, v) == translate_4k(before.memory, root, v));
            assert(pages@[i] == pages0[i]);
            assert(v != virt);
            if v < virt {
                lemma_distinct_4k_slots(v, virt);
            } else {
                lemma_distinct_4k_slots(virt, v);
            }
        }
        assert forall|i: int| 0 <= i < pages@.len()
            implies user_mapped(state.memory, root, (#[trigger] pages@[i]).virt_page, pages@[i].phys_page) by {
            if i < pages0.len() {
                assert(pages@[i] == pages0[i]);
                let v = pages0[i].virt_page;
                assert(user_mapped(before.memory, root, v, pages0[i].phys_page));
                assert(translate_4k(after_take.memory, root, v) == translate_4k(before.memory, root, v));
                assert(v != virt);
                if v < virt {
                    lemma_distinct_4k_slots(v, virt);
                } else {
                    lemma_distinct_4k_slots(virt, v);
                }
            }
        }
        lemma_window_kept(after_take.memory, state.memory, root, state.phys_window_end as int);
        assert forall|v: u64| USER_IMAGE_BASE <= v < USER_STACK_TOP implies !#[trigger] huge_on_path(state.memory, root, v) by {
            if huge_on_path(state.memory, root, v) {
                assert(huge_on_path(after_take.memory, root, v));
            }
        }
        assert(pages@.drop_last() =~= pages0);
    }
    Ok(())
}

/// User page `v` is one of the page-aligned pages that `[start, end)`
/// touches; an empty range at an unaligned address touches its page.
pub open spec fn span_page(start: int, end: int, v: int) -> bool {
    &&& v % PAGE_SIZE as int == 0
    &&& page_of(start) <= v < end
}

/// User page `v` is one that header `j` of `image`, a loadable segment,
/// maps.
pub open spec fn segment_page(image: ElfImage, bytes: Seq<u8>, j: int, v: int) -> bool {
    match spec_program_header(image, bytes, j) {
        Ok(h) => h.kind == PT_LOAD && span_page(h.virtual_address as int, h.virtual_address + h.memory_size, v),
        Err(_) => false,
    }
}

/// User page `v` is one that loading `image` maps: a page of one of its
/// loadable segments or of the stack.
pub open spec fn image_page(image: ElfImage, bytes: Seq<u8>, v: int) -> bool {
    ||| exists|j: int| 0 <= j < image.program_header_count && #[trigger] segment_page(image, bytes, j, v)
    ||| span_page(USER_STACK_BASE as int, USER_STACK_TOP as int, v)
}

/// Loading `image` maps more distinct user pages than the page map holds.
pub open spec fn user_pages_over(image: ElfImage, bytes: Seq<u8>) -> bool {
    exists|vs: Seq<int>| {
        &&& vs.len() == MAX_SEGMENT_PAGES + 1
        &&& vs.no_duplicates()
        &&& forall|i: int| 0 <= i < vs.len() ==> image_page(image, bytes, #[trigger] vs[i])
    }
}

/// Every page of `pages` is one that loading `image` maps.
pub open spec fn all_needed(pages: Seq<UserPage>, image: ElfImage, bytes: Seq<u8>) -> bool {
    forall|i: int| 0 <= i < pages.len() ==> image_page(image, bytes, (#[trigger] pages[i]).virt_page as int)
}

/// The page map is full, of distinct pages, and lacks user page `v`.
pub open spec fn full_without(pages: Seq<UserPage>, v: int) -> bool {
    &&& pages.len() >= MAX_SEGMENT_PAGES
    &&& lookup_page(pages, v) is None
    &&& forall|i: int, j: int| 0 <= i < pages.len() && 0 <= j < pages.len() && i != j
        ==> (#[trigger] pages[i]).virt_page != (#[trigger] pages[j]).virt_page
}

/// A full map of pages the image needs, lacking one more it needs: the
/// image needs more pages than the map holds.
proof fn lemma_over_from_full(image: ElfImage, bytes: Seq<u8>, pages: Seq<UserPage>, v: int)
    requires
        full_without(pages, v),
        image_page(image, bytes, v),
        all_needed(pages, image, bytes),
    ensures
        user_pages_over(image, bytes),
{
    let n = MAX_SEGMENT_PAGES as int;
    let vs = Seq::new(n as nat, |i: int| pages[i].virt_page as int).push(v);
    assert forall|i: int| 0 <= i < vs.len() implies image_page(image, bytes, #[trigger] vs[i]) by {
        if i < n {
            assert(vs[i] == pages[i].virt_page as int);
        }
    }
    assert forall|i: int, j: int| 0 <= i < vs.len() && 0 <= j < vs.len() && i != j implies vs[i] != vs[j] by {
        if i < n && j < n {
            assert(vs[i] == pages[i].virt_page as int && vs[j] == pages[j].virt_page as int);
        } else if i < n {
            assert(vs[i] == pages[i].virt_page as int);
            if vs[i] == v {
                assert(exists|k: int| 0 <= k < pages.len() && (#[trigger] pages[k]).virt_page == v);
            }
        } else {
            assert(vs[j] == pages[j].virt_page as int);
            if vs[j] == v {
                assert(exists|k: int| 0 <= k < pages.len() && (#[trigger] pages[k]).virt_page == v);
            }
        }
    }
    assert(vs.no_duplicates());
}

/// Extending needed pages by pages of a range that the image needs keeps
/// every page needed.
proof fn lemma_needed_extend(image: ElfImage, bytes: Seq<u8>, before: Seq<UserPage>, after: Seq<UserPage>, lo: int, hi: int)
    requires
        all_needed(before, image, bytes),
        before.len() <= after.len(),
        after.subrange(0, before.len() as int) == before,
        forall|i: int| before.len() <= i < after.len() ==> span_page(lo, hi, (#[trigger] after[i]).virt_page as int),
        forall|v: int| span_page(lo, hi, v) ==> #[trigger] image_page(image, bytes, v),
    ensures
        all_needed(after, image, bytes),
{
    assert forall|i: int| 0 <= i < after.len() implies image_page(image, bytes, (#[trigger] after[i]).virt_page as int) by {
        if i < before.len() {
            assert(after[i] == after.subrange(0, before.len() as int)[i]);
        } else {
            assert(span_page(lo, hi, after[i].virt_page as int));
        }
    }
}

/// One of the errors that running out of memory or of room in a table
/// gives while an image is built.
pub open spec fn out_of_room(error: MemoryError) -> bool {
    ||| error == MemoryError::AllocatorExhausted
    ||| error == MemoryError::OwnedPageCapacityExceeded
    ||| error == MemoryError::SegmentOverlapCapacityExceeded
}

/// A frame of `prefix` is a frame of every map that extends it.
proof fn lemma_in_frames_prefix(prefix: Seq<UserPage>, pages: Seq<UserPage>, x: int)
    requires
        prefix.len() <= pages.len(),
        pages.subrange(0, prefix.len() as int) == prefix,
        in_frames(prefix, x),
    ensures
        in_frames(pages, x),
{
    let i = choose|i: int| 0 <= i < prefix.len() && (#[trigger] prefix[i]).phys_page <= x < prefix[i].phys_page + PAGE_SIZE;
    assert(pages[i] == prefix[i]);
}

/// A user page of `prefix` keeps its frame in every map that extends it.
proof fn lemma_lookup_prefix(prefix: Seq<UserPage>, pages: Seq<UserPage>, mem: PhysicalMemory, v: int)
    requires
        prefix.len() <= pages.len(),
        pages.subrange(0, prefix.len() as int) == prefix,
        pages_wf(pages, mem),
        lookup_page(prefix, v) is Some,
    ensures
        lookup_page(pages, v) == lookup_page(prefix, v),
{
    let i = choose|i: int| 0 <= i < prefix.len() && (#[trigger] prefix[i]).virt_page == v;
    assert(pages[i] == prefix[i]);
    let j = choose|j: int| 0 <= j < pages.len() && (#[trigger] pages[j]).virt_page == v;
    if i != j {
        assert(pages[i].virt_page != pages[j].virt_page);
    }
}

/// Maps, each to a new zeroed frame, the pages that `[start, end)` touches
/// and that have no frame yet.
#[verifier::spinoff_prover]
fn map_segment_pages(
    state: &mut MemoryState,
    builder: &mut AddressSpaceBuilder,
    owned: &mut OwnedPages,
    pages: &mut UserPageMap,
    start: u64,
    end: u64,
    flags: u64,
    s0: Ghost<MemoryState>,
) -> (r: Result<(), MemoryError>)
    requires
        image_building(*old(state), s0@, *old(builder), old(owned)@, old(pages)@),
        USER_IMAGE_BASE <= start <= end <= USER_STACK_BASE,
        flags == PAGE_PRESENT | PAGE_USER || flags == PAGE_PRESENT | PAGE_USER | PAGE_WRITABLE,
    ensures
        final(builder).root_paddr == old(builder).root_paddr,
        image_abandoned(*final(state), s0@, final(owned)@),
        r == Err::<(), MemoryError>(MemoryError::AllocatorExhausted) ==> ran_dry(s0@, *final(state), final(owned)@),
        r is Err ==> out_of_room(r->Err_0),
        r == Err::<(), MemoryError>(MemoryError::OwnedPageCapacityExceeded) ==> final(owned)@.len() == MAX_OWNED_PAGES,
        r is Ok || r == Err::<(), MemoryError>(MemoryError::SegmentOverlapCapacityExceeded) ==> {
            &&& old(pages)@.len() <= final(pages)@.len()
            &&& final(pages)@.subrange(0, old(pages)@.len() as int) == old(pages)@
            &&& forall|i: int| old(pages)@.len() <= i < final(pages)@.len()
                ==> span_page(start as int, end as int, (#[trigger] final(pages)@[i]).virt_page as int)
        },
        r == Err::<(), MemoryError>(MemoryError::SegmentOverlapCapacityExceeded)
            ==> exists|v: int| span_page(start as int, end as int, v) && full_without(final(pages)@, v),
        r is Ok ==> {
            &&& image_building(*final(state), s0@, *final(builder), final(owned)@, final(pages)@)
            &&& old(pages)@.len() <= final(pages)@.len()
            &&& final(pages)@.subrange(0, old(pages)@.len() as int) == old(pages)@
            &&& range_mapped(final(pages)@, start as int, end as int)
            &&& forall|i: int| old(pages)@.len() <= i < final(pages)@.len()
                ==> (#[trigger] final(pages)@[i]).virt_page < USER_STACK_BASE
            &&& forall|i: int, off: int| old(pages)@.len() <= i < final(pages)@.len() && 0 <= off < PAGE_SIZE
                ==> #[trigger] final(state).memory.byte(final(pages)@[i].phys_page + off) == 0
            &&& forall|x: int| #[trigger] in_frames(old(pages)@, x) ==> final(state).memory.byte(x) == old(state).memory.byte(x)
        },
{
    let ghost state0 = *state;
    let ghost pages0 = pages@;
    let ghost root = builder.root_paddr;
    let mut virt = align_down(start, PAGE_SIZE as u64);
    let page_end = align_up(end, PAGE_SIZE as u64);
    assert(page_end <= USER_STACK_BASE) by {
        assert(USER_STACK_BASE as int % PAGE_SIZE as int == 0);
    }
    while virt < page_end
        invariant
            image_building(*state, s0@, *builder, owned@, pages@),
            builder.root_paddr == root,
            root == old(builder).root_paddr,
            spec_align_down(start, PAGE_SIZE as u64) <= virt <= page_end <= USER_STACK_BASE,
            page_end == spec_align_up(end, PAGE_SIZE as u64),
            start <= end <= USER_STACK_BASE,
            USER_IMAGE_BASE <= start,
            virt as int % PAGE_SIZE as int == 0,
            flags == PAGE_PRESENT | PAGE_USER || flags == PAGE_PRESENT | PAGE_USER | PAGE_WRITABLE,
            pages0.len() <= pages@.len(),
            pages@.subrange(0, pages0.len() as int) == pages0,
            forall|a: int| start <= a < virt && a < end ==> #[trigger] lookup_page(pages@, page_of(a)) is Some,
            forall|i: int| pages0.len() <= i < pages@.len() ==> (#[trigger] pages@[i]).virt_page < virt,
            forall|i: int, off: int| pages0.len() <= i < pages@.len() && 0 <= off < PAGE_SIZE
                ==> #[trigger] state.memory.byte(pages@[i].phys_page + off) == 0,
            forall|x: int| #[trigger] in_frames(pages0, x) ==> state.memory.byte(x) == state0.memory.byte(x),
            forall|i: int| pages0.len() <= i < pages@.len()
                ==> span_page(start as int, end as int, (#[trigger] pages@[i]).virt_page as int),
            pages0 == old(pages)@,
        decreases page_end - virt,
    {
        let ghost before = *state;
        let ghost prior = pages@;
        if !pages.contains(virt) {
            proof {
                assert(span_page(start as int, end as int, virt as int)) by {
                    if end as int % PAGE_SIZE as int != 0 {
                        assert(virt <= end - end % (PAGE_SIZE as u64));
                    }
                }
            }
            match map_new_page(state, builder, owned, pages, virt, flags, s0) {
                Ok(()) => {},
                Err(error) => {
                    proof {
                        if error == MemoryError::SegmentOverlapCapacityExceeded {
                            assert(pages_wf(prior, before.memory));
                            assert(full_without(pages@, virt as int));
                        }
                    }
                    return Err(error);
                },
            }
            proof {
                assert forall|i: int| pages0.len() <= i < pages@.len()
                    implies span_page(start as int, end as int, (#[trigger] pages@[i]).virt_page as int) by {
                    if i < prior.len() {
                        assert(pages@[i] == prior[i]);
                    } else {
                        assert(pages@[i].virt_page == virt);
                    }
                }
                assert(pages@ =~= prior.push(pages@.last()));
                assert(pages@.subrange(0, prior.len() as int) =~= prior);
                assert(pages@.subrange(0, pages0.len() as int) =~= pages0) by {
                    assert forall|i: int| 0 <= i < pages0.len() implies pages@[i] == pages0[i] by {
                        assert(pages@[i] == prior[i]);
                        assert(prior.subrange(0, pages0.len() as int)[i] == pages0[i]);
                    }
                }
                assert forall|i: int, off: int| pages0.len() <= i < pages@.len() && 0 <= off < PAGE_SIZE
                    implies #[trigger] state.memory.byte(pages@[i].phys_page + off) == 0 by {
                    if i < prior.len() {
                        assert(pages@[i] == prior[i]);
                        assert(in_frames(prior, prior[i].phys_page + off));
                    }
                }
                assert forall|x: int| #[trigger] in_frames(pages0, x) implies state.memory.byte(x) == state0.memory.byte(x) by {
                    lemma_in_frames_prefix(pages0, prior, x);
                }
                assert forall|a: int| start <= a < virt + PAGE_SIZE && a < end implies #[trigger] lookup_page(pages@, page_of(a)) is Some by {
                    if a < virt {
                        assert(lookup_page(prior, page_of(a)) is Some);
                        let i = choose|i: int| 0 <= i < prior.len() && (#[trigger] prior[i]).virt_page == page_of(a);
                        assert(pages@[i] == prior.push(pages@.last())[i]);
                    } else {
                        lemma_page_of_within(a, virt as int);
                        assert(pages@[prior.len() as int].virt_page == virt);
                    }
                }
            }
        } else {
            proof {
                assert forall|a: int| start <= a < virt + PAGE_SIZE && a < end implies #[trigger] lookup_page(pages@, page_of(a)) is Some by {
                    if a >= virt {
                        lemma_page_of_within(a, virt as int);
                    }
                }
            }
        }
        virt = virt + PAGE_SIZE as u64;
    }
    proof {
        assert forall|a: int| start <= a < end implies #[trigger] lookup_page(pages@, page_of(a)) is Some by {
            assert(a < virt) by {
                if end as int % PAGE_SIZE as int != 0 {
                    assert(a < page_end);
                }
            }
        }
    }
    Ok(())
}

/// Why program header `k` cannot be loaded, if it cannot: it does not
/// decode, or it is a loadable segment that leaves the user image range,
/// has more file bytes than memory bytes, or ends past the image.
pub open spec fn header_error(image: ElfImage, bytes: Seq<u8>, k: int) -> Option<MemoryError> {
    match spec_program_header(image, bytes, k) {
        Err(error) => Some(MemoryError::Elf(error)),
        Ok(h) => {
            if h.kind != PT_LOAD {
                None
            } else if h.virtual_address < USER_IMAGE_BASE || h.virtual_address + h.memory_size > USER_STACK_BASE
                || h.memory_size < h.file_size {
                Some(MemoryError::UserImageOutOfRange)
            } else if h.offset + h.file_size > bytes.len() {
                Some(MemoryError::Elf(ElfError::SegmentExtendsPastFile))
            } else {
                None
            }
        },
    }
}

/// The first header error from header `k` on.
pub open spec fn first_header_error(image: ElfImage, bytes: Seq<u8>, k: int) -> Option<MemoryError>
    decreases image.program_header_count - k,
{
    if k >= image.program_header_count {
        None
    } else if header_error(image, bytes, k) is Some {
        header_error(image, bytes, k)
    } else {
        first_header_error(image, bytes, k + 1)
    }
}

/// What loading `bytes` for a program started with `argv0` and `tail` comes
/// to when memory suffices: the image header, the arguments, where their
/// strings start and the initial stack pointer; or the error that stops it.
#[verifier::opaque]
pub open spec fn load_plan(bytes: Seq<u8>, argv0: Seq<u8>, tail: Seq<u8>)
    -> Result<(ElfImage, Seq<Seq<u8>>, int, int), MemoryError> {
    match spec_parse_elf(bytes) {
        Err(error) => Err(MemoryError::Elf(error)),
        Ok(image) => {
            if image.entry < USER_IMAGE_BASE || image.entry >= USER_STACK_TOP {
                Err(MemoryError::UserImageOutOfRange)
            } else {
                match first_header_error(image, bytes, 0) {
                    Some(error) => Err(error),
                    None => match startup_layout(argv0, tail) {
                        Err(error) => Err(error),
                        Ok((args, strings_start, stack_start)) => Ok((image, args, strings_start, stack_start)),
                    },
                }
            }
        },
    }
}

/// The loadable segment of header `k` spans user address `a` in memory.
pub open spec fn segment_spans(image: ElfImage, bytes: Seq<u8>, k: int, a: int) -> bool {
    &&& spec_program_header(image, bytes, k) is Ok
    &&& spec_program_header(image, bytes, k)->Ok_0.kind == PT_LOAD
    &&& spec_program_header(image, bytes, k)->Ok_0.virtual_address <= a
    &&& a < spec_program_header(image, bytes, k)->Ok_0.virtual_address + spec_program_header(image, bytes, k)->Ok_0.memory_size
}

/// The loadable segment of header `k` has a file byte for user address `a`.
pub open spec fn file_spans(image: ElfImage, bytes: Seq<u8>, k: int, a: int) -> bool {
    &&& spec_program_header(image, bytes, k) is Ok
    &&& spec_program_header(image, bytes, k)->Ok_0.kind == PT_LOAD
    &&& spec_program_header(image, bytes, k)->Ok_0.virtual_address <= a
    &&& a < spec_program_header(image, bytes, k)->Ok_0.virtual_address + spec_program_header(image, bytes, k)->Ok_0.file_size
}

/// The byte at user address `a` once the first `k` headers are loaded: the
/// file byte of the last segment among them that has one there, else zero.
pub open spec fn image_byte(image: ElfImage, bytes: Seq<u8>, k: int, a: int) -> u8
    decreases k,
{
    if k <= 0 {
        0
    } else if file_spans(image, bytes, k - 1, a) {
        let h = spec_program_header(image, bytes, k - 1)->Ok_0;
        bytes[h.offset + (a - h.virtual_address)]
    } else {
        image_byte(image, bytes, k - 1, a)
    }
}

/// Loading one more header changes only the bytes its file covers.
proof fn lemma_image_byte_step(image: ElfImage, bytes: Seq<u8>, k: int, a: int)
    requires
        0 <= k,
    ensures
        image_byte(image, bytes, k + 1, a) == (if file_spans(image, bytes, k, a) {
            bytes[spec_program_header(image, bytes, k)->Ok_0.offset + (a - spec_program_header(image, bytes, k)->Ok_0.virtual_address)]
        } else {
            image_byte(image, bytes, k, a)
        }),
{
    assert(k + 1 - 1 == k);
}

/// No error among the first `k` headers.
pub open spec fn headers_ok(image: ElfImage, bytes: Seq<u8>, k: int) -> bool {
    forall|j: int| 0 <= j < k ==> #[trigger] header_error(image, bytes, j) is None
}

/// Every frame holds, byte by byte, what the first `k` headers put at its
/// user page.
pub open spec fn frames_hold(mem: PhysicalMemory, pages: Seq<UserPage>, image: ElfImage, bytes: Seq<u8>, k: int) -> bool {
    forall|i: int, off: int| 0 <= i < pages.len() && 0 <= off < PAGE_SIZE
        ==> #[trigger] mem.byte(pages[i].phys_page + off) == image_byte(image, bytes, k, pages[i].virt_page + off)
}

/// Every user address that one of the first `k` segments spans has a frame.
pub open spec fn segments_mapped(pages: Seq<UserPage>, image: ElfImage, bytes: Seq<u8>, k: int) -> bool {
    forall|j: int, a: int| 0 <= j < k && #[trigger] segment_spans(image, bytes, j, a)
        ==> lookup_page(pages, page_of(a)) is Some
}

/// No segment among the first `k` spans `a`: nothing was loaded there.
proof fn lemma_image_byte_zero(image: ElfImage, bytes: Seq<u8>, k: int, a: int)
    requires
        headers_ok(image, bytes, k),
        forall|j: int| 0 <= j < k ==> !#[trigger] segment_spans(image, bytes, j, a),
    ensures
        image_byte(image, bytes, k, a) == 0,
    decreases k,
{
    if k > 0 {
        assert(!segment_spans(image, bytes, k - 1, a));
        assert(header_error(image, bytes, k - 1) is None);
        lemma_image_byte_zero(image, bytes, k - 1, a);
    }
}

/// A user page of `prefix` has a frame in every map that extends it.
proof fn lemma_mapped_prefix(prefix: Seq<UserPage>, pages: Seq<UserPage>, v: int)
    requires
        prefix.len() <= pages.len(),
        pages.subrange(0, prefix.len() as int) == prefix,
        lookup_page(prefix, v) is Some,
    ensures
        lookup_page(pages, v) is Some,
{
    let i = choose|i: int| 0 <= i < prefix.len() && (#[trigger] prefix[i]).virt_page == v;
    assert(pages[i] == prefix[i]);
}

/// Under a well-formed map, the user addresses of page `i` sit in its frame.
proof fn lemma_user_addr_of(pages: Seq<UserPage>, mem: PhysicalMemory, i: int, off: int)
    requires
        pages_wf(pages, mem),
        0 <= i < pages.len(),
        0 <= off < PAGE_SIZE,
    ensures
        page_of(pages[i].virt_page + off) == pages[i].virt_page,
        lookup_page(pages, pages[i].virt_page as int) == Some(pages[i].phys_page),
        user_addr(pages, pages[i].virt_page + off) == pages[i].phys_page + off,
{
    let v = pages[i].virt_page as int;
    lemma_page_of_within(v + off, v);
    let j = choose|j: int| 0 <= j < pages.len() && (#[trigger] pages[j]).virt_page == v;
    if j != i {
        assert(pages[i].virt_page != pages[j].virt_page);
    }
}

/// Writing only inside the frames of an image under construction keeps it
/// intact and leaves the kernel's view as it was.
proof fn lemma_frames_written(
    s: MemoryState,
    t: MemoryState,
    s0: MemoryState,
    builder: AddressSpaceBuilder,
    owned: Seq<u64>,
    pages: Seq<UserPage>,
)
    requires
        image_building(s, s0, builder, owned, pages),
        t.allocator == s.allocator,
        same_layout(t, s),
        t.memory.wf(),
        t.memory.spec_base() == s.memory.spec_base(),
        t.memory.spec_size() == s.memory.spec_size(),
        forall|x: int| t.memory.covers(x, x + 1) && !in_frames(pages, x) ==> #[trigger] t.memory.byte(x) == s.memory.byte(x),
    ensures
        image_building(t, s0, builder, owned, pages),
        kernel_view_kept(t, s),
        forall|v: u64| #[trigger] translate_4k(t.memory, builder.root_paddr, v) == translate_4k(s.memory, builder.root_paddr, v),
{
    let root = builder.root_paddr;
    let levels = builder.levels@;
    assert forall|x: int| in_tables(levels, x) implies #[trigger] t.memory.byte(x) == s.memory.byte(x) by {
        let tb0 = choose|tb: u64| #[trigger] levels.dom().contains(tb) && tb <= x < tb + PAGE_SIZE;
        assert(usable_table(s.memory, s.allocator, tb0));
        if in_frames(pages, x) {
            let i = choose|i: int| 0 <= i < pages.len() && (#[trigger] pages[i]).phys_page <= x < pages[i].phys_page + PAGE_SIZE;
            let tb = choose|tb: u64| #[trigger] levels.dom().contains(tb) && tb <= x < tb + PAGE_SIZE;
            assert(pages[i].phys_page + PAGE_SIZE <= tb || tb + PAGE_SIZE <= pages[i].phys_page);
        }
    }
    crate::memory::paging::lemma_tree_frame(s.memory, t.memory, s.allocator, t.allocator, root, levels);
    if let Some(space) = s.kernel_space {
        let kernel = s.kernel_levels@;
        assert forall|x: int| in_tables(kernel, x) implies #[trigger] t.memory.byte(x) == s.memory.byte(x) by {
            let tb0 = choose|tb: u64| #[trigger] kernel.dom().contains(tb) && tb <= x < tb + PAGE_SIZE;
            assert(usable_table(s.memory, s.allocator, tb0));
            if in_frames(pages, x) {
                let i = choose|i: int| 0 <= i < pages.len() && (#[trigger] pages[i]).phys_page <= x < pages[i].phys_page + PAGE_SIZE;
                let tb = choose|tb: u64| #[trigger] kernel.dom().contains(tb) && tb <= x < tb + PAGE_SIZE;
                assert(taken_page(pages[i].phys_page, s0.allocator, s.allocator));
                assert(s0.allocator.is_free(x));
                assert(usable_table(s0.memory, s0.allocator, tb));
            }
        }
        crate::memory::paging::lemma_tree_frame(s.memory, t.memory, s.allocator, t.allocator, space.spec_root(), kernel);
    }
    assert forall|i: int| 0 <= i < pages.len()
        implies user_mapped(t.memory, root, (#[trigger] pages[i]).virt_page, pages[i].phys_page) by {
        assert(user_mapped(s.memory, root, pages[i].virt_page, pages[i].phys_page));
    }
    assert forall|v: u64| USER_IMAGE_BASE <= v < USER_STACK_TOP implies !#[trigger] huge_on_path(t.memory, root, v) by {
        assert(!huge_on_path(s.memory, root, v));
    }
    lemma_window_kept(s.memory, t.memory, root, s.phys_window_end as int);
}

/// Loads the segment of program header `k`: checks that it fits the user
/// image range, maps its pages and copies its file bytes.
#[verifier::spinoff_prover]
#[verifier::rlimit(30)]
fn load_segment(
    state: &mut MemoryState,
    builder: &mut AddressSpaceBuilder,
    owned: &mut OwnedPages,
    pages: &mut UserPageMap,
    bytes: &[u8],
    header: &ProgramHeader,
    image: Ghost<ElfImage>,
    k: Ghost<int>,
    s0: Ghost<MemoryState>,
) -> (r: Result<(), MemoryError>)
    requires
        image_building(*old(state), s0@, *old(builder), old(owned)@, old(pages)@),
        0 <= k@,
        spec_program_header(image@, bytes@, k@) == Ok::<ProgramHeader, ElfError>(*header),
        header.kind == PT_LOAD,
        headers_ok(image@, bytes@, k@),
        frames_hold(old(state).memory, old(pages)@, image@, bytes@, k@),
        segments_mapped(old(pages)@, image@, bytes@, k@),
        forall|i: int| 0 <= i < old(pages)@.len() ==> (#[trigger] old(pages)@[i]).virt_page < USER_STACK_BASE,
        all_needed(old(pages)@, image@, bytes@),
        k@ < image@.program_header_count,
    ensures
        final(builder).root_paddr == old(builder).root_paddr,
        image_abandoned(*final(state), s0@, final(owned)@),
        r == Err::<(), MemoryError>(MemoryError::AllocatorExhausted) ==> ran_dry(s0@, *final(state), final(owned)@),
        r is Err ==> out_of_room(r->Err_0) || header_error(image@, bytes@, k@) == Some(r->Err_0),
        header_error(image@, bytes@, k@) is Some ==> r is Err,
        r == Err::<(), MemoryError>(MemoryError::OwnedPageCapacityExceeded) ==> final(owned)@.len() == MAX_OWNED_PAGES,
        r is Ok || r == Err::<(), MemoryError>(MemoryError::SegmentOverlapCapacityExceeded)
            ==> all_needed(final(pages)@, image@, bytes@),
        r == Err::<(), MemoryError>(MemoryError::SegmentOverlapCapacityExceeded)
            ==> exists|v: int| image_page(image@, bytes@, v) && full_without(final(pages)@, v),
        r is Ok ==> {
            &&& image_building(*final(state), s0@, *final(builder), final(owned)@, final(pages)@)
            &&& frames_hold(final(state).memory, final(pages)@, image@, bytes@, k@ + 1)
            &&& segments_mapped(final(pages)@, image@, bytes@, k@ + 1)
            &&& forall|i: int| 0 <= i < final(pages)@.len() ==> (#[trigger] final(pages)@[i]).virt_page < USER_STACK_BASE
        },
{
    let start = header.virtual_address;
    let end = start + header.memory_size;
    if start < USER_IMAGE_BASE || end > USER_STACK_BASE || header.memory_size < header.file_size {
        return Err(MemoryError::UserImageOutOfRange);
    }
    let flags = if header.flags & PF_W != 0 {
        PAGE_PRESENT | PAGE_USER | PAGE_WRITABLE
    } else {
        PAGE_PRESENT | PAGE_USER
    };
    let ghost s1 = *state;
    let ghost pages1 = pages@;
    proof {
        assert forall|v: int| span_page(start as int, end as int, v) implies #[trigger] image_page(image@, bytes@, v) by {
            assert(segment_page(image@, bytes@, k@, v));
        }
    }
    match map_segment_pages(state, builder, owned, pages, start, end, flags, s0) {
        Ok(()) => {},
        Err(error) => {
            proof {
                if error == MemoryError::SegmentOverlapCapacityExceeded {
                    lemma_needed_extend(image@, bytes@, pages1, pages@, start as int, end as int);
                    let v = choose|v: int| span_page(start as int, end as int, v) && full_without(pages@, v);
                    assert(image_page(image@, bytes@, v));
                }
            }
            return Err(error);
        },
    }
    proof {
        lemma_needed_extend(image@, bytes@, pages1, pages@, start as int, end as int);
    }
    let ghost s2 = *state;
    let ghost pages2 = pages@;
    let (lo, hi) = match header.file_range(bytes.len()) {
        Ok(range) => range,
        Err(error) => return Err(MemoryError::Elf(error)),
    };
    let file = copy_range(bytes, lo, hi);
    proof {
        assert forall|a: int| start <= a < start + file@.len() implies #[trigger] lookup_page(pages@, page_of(a)) is Some by {
            assert(start <= a < end);
        }
    }
    copy_mapped(pages, &mut state.memory, start, file.as_slice());
    proof {
        reveal(copied);
        let m1 = s1.memory;
        let m2 = s2.memory;
        let m3 = state.memory;
        // bytes change only in the frames
        assert forall|x: int| m3.covers(x, x + 1) && !in_frames(pages2, x) implies #[trigger] m3.byte(x) == m2.byte(x) by {
            {
                assert forall|b: int| start <= b < start + file@.len() && lookup_page(pages2, page_of(b)) is Some
                    implies #[trigger] user_addr(pages2, b) != x by {
                    lemma_page_of_bounds(b);
                    let i = choose|i: int| 0 <= i < pages2.len() && (#[trigger] pages2[i]).virt_page == page_of(b);
                    lemma_user_addr_of(pages2, m2, i, b % PAGE_SIZE as int);
                    assert(pages2[i].virt_page + b % PAGE_SIZE as int == b);
                }
            }
        }
        lemma_frames_written(s2, *state, s0@, *builder, owned@, pages2);
        lemma_owned_grew_refl(owned@, s2.allocator, state.allocator);
        lemma_abandoned_step(s0@, s2, *state, owned@, owned@);
        // the frames hold the image through header `k`
        assert forall|i: int, off: int| 0 <= i < pages2.len() && 0 <= off < PAGE_SIZE
            implies #[trigger] m3.byte(pages2[i].phys_page + off) == image_byte(image@, bytes@, k@ + 1, pages2[i].virt_page + off) by {
            let a = pages2[i].virt_page + off;
            let x = pages2[i].phys_page + off;
            lemma_user_addr_of(pages2, m2, i, off);
            lemma_image_byte_step(image@, bytes@, k@, a);
            if start <= a < start + file@.len() {
                assert(file_spans(image@, bytes@, k@, a));
                assert(m3.byte(user_addr(pages2, a)) == file@[a - start]);
                assert(image_byte(image@, bytes@, k@ + 1, a) == bytes@[header.offset + (a - start)]);
            } else {
                assert(!file_spans(image@, bytes@, k@, a));
                assert forall|b: int| start <= b < start + file@.len() && lookup_page(pages2, page_of(b)) is Some
                    implies #[trigger] user_addr(pages2, b) != x by {
                    lemma_user_addr_injective(pages2, m2, a, b);
                }
                assert(m3.byte(x) == m2.byte(x));
                assert(image_byte(image@, bytes@, k@ + 1, a) == image_byte(image@, bytes@, k@, a));
                if i < pages1.len() {
                    assert(pages2[i] == pages1[i]);
                    assert(in_frames(pages1, x));
                    assert(m1.byte(pages1[i].phys_page + off) == image_byte(image@, bytes@, k@, pages1[i].virt_page + off));
                } else {
                    assert(m2.byte(x) == 0);
                    assert forall|j: int| 0 <= j < k@ implies !#[trigger] segment_spans(image@, bytes@, j, a) by {
                        if segment_spans(image@, bytes@, j, a) {
                            assert(lookup_page(pages1, page_of(a)) is Some);
                            let i1 = choose|i1: int| 0 <= i1 < pages1.len() && (#[trigger] pages1[i1]).virt_page == page_of(a);
                            assert(pages2[i1] == pages1[i1]);
                            assert(pages2[i1].virt_page != pages2[i].virt_page);
                        }
                    }
                    lemma_image_byte_zero(image@, bytes@, k@, a);
                }
            }
        }
        assert forall|j: int, a: int| 0 <= j < k@ + 1 && #[trigger] segment_spans(image@, bytes@, j, a)
            implies lookup_page(pages2, page_of(a)) is Some by {
            if j < k@ {
                lemma_mapped_prefix(pages1, pages2, page_of(a));
            } else {
                assert(start <= a < end);
            }
        }
        assert forall|i: int| 0 <= i < pages2.len() implies (#[trigger] pages2[i]).virt_page < USER_STACK_BASE by {
            if i < pages1.len() {
                assert(pages2[i] == pages1[i]);
            }
        }
    }
    Ok(())
}

/// Maps the user stack pages, each to a new zeroed frame, writable.
#[verifier::spinoff_prover]
fn map_stack(
    state: &mut MemoryState,
    builder: &mut AddressSpaceBuilder,
    owned: &mut OwnedPages,
    pages: &mut UserPageMap,
    s0: Ghost<MemoryState>,
) -> (r: Result<(), MemoryError>)
    requires
        image_building(*old(state), s0@, *old(builder), old(owned)@, old(pages)@),
        forall|i: int| 0 <= i < old(pages)@.len() ==> (#[trigger] old(pages)@[i]).virt_page < USER_STACK_BASE,
    ensures
        final(builder).root_paddr == old(builder).root_paddr,
        image_abandoned(*final(state), s0@, final(owned)@),
        r == Err::<(), MemoryError>(MemoryError::AllocatorExhausted) ==> ran_dry(s0@, *final(state), final(owned)@),
        r is Err ==> out_of_room(r->Err_0),
        r == Err::<(), MemoryError>(MemoryError::OwnedPageCapacityExceeded) ==> final(owned)@.len() == MAX_OWNED_PAGES,
        r is Ok || r == Err::<(), MemoryError>(MemoryError::SegmentOverlapCapacityExceeded) ==> {
            &&& old(pages)@.len() <= final(pages)@.len()
            &&& final(pages)@.subrange(0, old(pages)@.len() as int) == old(pages)@
            &&& forall|i: int| old(pages)@.len() <= i < final(pages)@.len()
                ==> span_page(USER_STACK_BASE as int, USER_STACK_TOP as int, (#[trigger] final(pages)@[i]).virt_page as int)
        },
        r == Err::<(), MemoryError>(MemoryError::SegmentOverlapCapacityExceeded)
            ==> exists|v: int| span_page(USER_STACK_BASE as int, USER_STACK_TOP as int, v) && full_without(final(pages)@, v),
        r is Ok ==> {
            &&& image_building(*final(state), s0@, *final(builder), final(owned)@, final(pages)@)
            &&& old(pages)@.len() <= final(pages)@.len()
            &&& final(pages)@.subrange(0, old(pages)@.len() as int) == old(pages)@
            &&& range_mapped(final(pages)@, USER_STACK_BASE as int, USER_STACK_TOP as int)
            &&& forall|i: int| old(pages)@.len() <= i < final(pages)@.len()
                ==> USER_STACK_BASE <= (#[trigger] final(pages)@[i]).virt_page
                && translate_4k(final(state).memory, final(builder).root_paddr, final(pages)@[i].virt_page)
                    == Some(final(pages)@[i].phys_page | (PAGE_PRESENT | PAGE_USER | PAGE_WRITABLE))
            &&& forall|i: int| 0 <= i < old(pages)@.len() ==> translate_4k(final(state).memory, final(builder).root_paddr,
                (#[trigger] old(pages)@[i]).virt_page) == translate_4k(old(state).memory, old(builder).root_paddr, old(pages)@[i].virt_page)
            &&& forall|x: int| #[trigger] in_frames(old(pages)@, x) ==> final(state).memory.byte(x) == old(state).memory.byte(x)
        },
{
    let ghost state0 = *state;
    let ghost pages0 = pages@;
    let ghost root = builder.root_paddr;
    let mut virt = USER_STACK_BASE;
    while virt < USER_STACK_TOP
        invariant
            image_building(*state, s0@, *builder, owned@, pages@),
            builder.root_paddr == root,
            root == old(builder).root_paddr,
            USER_STACK_BASE <= virt <= USER_STACK_TOP,
            virt as int % PAGE_SIZE as int == 0,
            pages0 == old(pages)@,
            state0 == *old(state),
            forall|i: int| 0 <= i < pages0.len() ==> (#[trigger] pages0[i]).virt_page < USER_STACK_BASE,
            pages0.len() <= pages@.len(),
            pages@.subrange(0, pages0.len() as int) == pages0,
            forall|a: int| USER_STACK_BASE <= a < virt ==> #[trigger] lookup_page(pages@, page_of(a)) is Some,
            forall|i: int| pages0.len() <= i < pages@.len()
                ==> USER_STACK_BASE <= (#[trigger] pages@[i]).virt_page < virt
                && translate_4k(state.memory, root, pages@[i].virt_page)
                    == Some(pages@[i].phys_page | (PAGE_PRESENT | PAGE_USER | PAGE_WRITABLE)),
            forall|i: int| 0 <= i < pages0.len() ==> translate_4k(state.memory, root, (#[trigger] pages0[i]).virt_page)
                == translate_4k(state0.memory, root, pages0[i].virt_page),
            forall|x: int| #[trigger] in_frames(pages0, x) ==> state.memory.byte(x) == state0.memory.byte(x),
        decreases USER_STACK_TOP - virt,
    {
        let ghost before = *state;
        let ghost prior = pages@;
        proof {
            if lookup_page(prior, virt as int) is Some {
                let i = choose|i: int| 0 <= i < prior.len() && (#[trigger] prior[i]).virt_page == virt;
                if i < pages0.len() {
                    assert(prior[i] == pages0[i]);
                }
            }
        }
        match map_new_page(state, builder, owned, pages, virt, PAGE_PRESENT | PAGE_USER | PAGE_WRITABLE, s0) {
            Ok(()) => {},
            Err(error) => {
                proof {
                    if error == MemoryError::SegmentOverlapCapacityExceeded {
                        assert(pages_wf(prior, before.memory));
                        assert(full_without(pages@, virt as int));
                        assert(span_page(USER_STACK_BASE as int, USER_STACK_TOP as int, virt as int));
                        assert forall|i: int| pages0.len() <= i < pages@.len()
                            implies span_page(USER_STACK_BASE as int, USER_STACK_TOP as int, (#[trigger] pages@[i]).virt_page as int) by {
                            assert(pages_wf(prior, before.memory));
                        }
                    }
                }
                return Err(error);
            },
        }
        proof {
            assert(pages@ =~= prior.push(pages@.last()));
            assert(pages@.subrange(0, pages0.len() as int) =~= pages0) by {
                assert forall|i: int| 0 <= i < pages0.len() implies pages@[i] == pages0[i] by {
                    assert(pages@[i] == prior[i]);
                    assert(prior.subrange(0, pages0.len() as int)[i] == pages0[i]);
                }
            }
            assert forall|i: int| pages0.len() <= i < pages@.len()
                implies USER_STACK_BASE <= (#[trigger] pages@[i]).virt_page < virt + PAGE_SIZE
                && translate_4k(state.memory, root, pages@[i].virt_page)
                    == Some(pages@[i].phys_page | (PAGE_PRESENT | PAGE_USER | PAGE_WRITABLE)) by {
                if i < prior.len() {
                    assert(pages@[i] == prior[i]);
                }
            }
            assert forall|i: int| 0 <= i < pages0.len() implies translate_4k(state.memory, root, (#[trigger] pages0[i]).virt_page)
                == translate_4k(state0.memory, root, pages0[i].virt_page) by {
                assert(prior[i] == pages0[i]);
            }
            assert forall|x: int| #[trigger] in_frames(pages0, x) implies state.memory.byte(x) == state0.memory.byte(x) by {
                lemma_in_frames_prefix(pages0, prior, x);
            }
            assert forall|a: int| USER_STACK_BASE <= a < virt + PAGE_SIZE implies #[trigger] lookup_page(pages@, page_of(a)) is Some by {
                if a < virt {
                    assert(lookup_page(prior, page_of(a)) is Some);
                    let i = choose|i: int| 0 <= i < prior.len() && (#[trigger] prior[i]).virt_page == page_of(a);
                    assert(pages@[i] == prior.push(pages@.last())[i]);
                } else {
                    lemma_page_of_within(a, virt as int);
                    assert(pages@[prior.len() as int].virt_page == virt);
                }
            }
        }
        virt = virt + PAGE_SIZE as u64;
    }
    Ok(())
}

/// The frame behind user page `v` under the tables at `root`.
pub open spec fn user_frame(mem: PhysicalMemory, root: u64, v: int) -> int {
    (translate_4k(mem, root, v as u64).unwrap() & ADDRESS_MASK) as int
}

/// The byte the user reads at address `a` through the tables at `root`.
pub open spec fn user_view(mem: PhysicalMemory, root: u64, a: int) -> u8 {
    mem.byte(user_frame(mem, root, page_of(a)) + a % PAGE_SIZE as int)
}

/// The bytes the user reads at `[a, a + len)` through the tables at `root`.
pub open spec fn view_bytes(mem: PhysicalMemory, root: u64, a: int, len: int) -> Seq<u8> {
    Seq::new(len as nat, |i: int| user_view(mem, root, a + i))
}

/// User page `v` is present and open to the user under `root`: writable,
/// or, unless `writable` is asked for, read-only.
pub open spec fn user_page(mem: PhysicalMemory, root: u64, v: int, writable: bool) -> bool {
    match translate_4k(mem, root, v as u64) {
        Some(e) => e == (e & ADDRESS_MASK) | (PAGE_PRESENT | PAGE_USER | PAGE_WRITABLE)
            || (!writable && e == (e & ADDRESS_MASK) | (PAGE_PRESENT | PAGE_USER)),
        None => false,
    }
}

/// Every address that a loadable segment spans is a user page that reads as
/// the image: the file byte of the last segment that has one there, else
/// zero.
pub open spec fn image_loaded(mem: PhysicalMemory, root: u64, image: ElfImage, bytes: Seq<u8>) -> bool {
    forall|k: int, a: int| 0 <= k < image.program_header_count && #[trigger] segment_spans(image, bytes, k, a)
        ==> user_page(mem, root, page_of(a), false)
            && user_view(mem, root, a) == image_byte(image, bytes, image.program_header_count as int, a)
}

/// The user stack is mapped writable.
pub open spec fn stack_loaded(mem: PhysicalMemory, root: u64) -> bool {
    forall|a: int| USER_STACK_BASE <= a < USER_STACK_TOP ==> #[trigger] user_page(mem, root, page_of(a), true)
}

/// The user reads the initial stack of `startup_written` through the tables.
pub open spec fn startup_visible(mem: PhysicalMemory, root: u64, args: Seq<Seq<u8>>, strings_start: int, stack_start: int) -> bool {
    &&& spec_le_u64(view_bytes(mem, root, stack_start, 8)) == args.len()
    &&& forall|k: int| 0 <= k <= args.len()
        ==> spec_le_u64(#[trigger] view_bytes(mem, root, stack_start + 8 + 8 * k, 8)) == argv_pointer(args, strings_start, k)
    &&& view_bytes(mem, root, strings_start, USER_STACK_TOP - strings_start) == packed_strings(args)
}

/// What the user sees of a program loaded as `load_plan` has it, with the
/// stack pointer at `stack_top`.
#[verifier::opaque]
pub open spec fn image_ready(mem: PhysicalMemory, root: u64, stack_top: u64, bytes: Seq<u8>, argv0: Seq<u8>, tail: Seq<u8>) -> bool {
    match load_plan(bytes, argv0, tail) {
        Ok((image, args, strings_start, stack_start)) => {
            &&& stack_top == stack_start
            &&& image_loaded(mem, root, image, bytes)
            &&& stack_loaded(mem, root)
            &&& startup_visible(mem, root, args, strings_start, stack_start)
        },
        Err(_) => false,
    }
}

/// An entry for an aligned frame with user flags names that frame.
proof fn lemma_entry_frame(phys: u64, flags: u64)
    by (bit_vector)
    requires
        phys % 4096 == 0,
        phys < 0x0000_8000_0000_0000u64,
        flags == 1u64 | 4u64 || flags == 1u64 | 4u64 | 2u64,
    ensures
        (phys | flags) & 0x000f_ffff_ffff_f000u64 == phys,
{
}

/// Through the tables, the user reads a mapped page of a well-formed map in
/// its frame.
proof fn lemma_view_is_frame(mem: PhysicalMemory, root: u64, pages: Seq<UserPage>, i: int, a: int)
    requires
        pages_wf(pages, mem),
        mem.spec_base() + mem.spec_size() <= IDENTITY_LIMIT,
        0 <= i < pages.len(),
        user_mapped(mem, root, pages[i].virt_page, pages[i].phys_page),
        page_of(a) == pages[i].virt_page,
    ensures
        user_frame(mem, root, page_of(a)) == pages[i].phys_page,
        user_view(mem, root, a) == mem.byte(pages[i].phys_page + a % PAGE_SIZE as int),
        user_view(mem, root, a) == mem.byte(user_addr(pages, a)),
        user_page(mem, root, page_of(a), false),
        translate_4k(mem, root, pages[i].virt_page) == Some(pages[i].phys_page | (PAGE_PRESENT | PAGE_USER | PAGE_WRITABLE))
            ==> user_page(mem, root, page_of(a), true),
{
    let p = pages[i].phys_page;
    lemma_entry_frame(p, PAGE_PRESENT | PAGE_USER);
    lemma_entry_frame(p, PAGE_PRESENT | PAGE_USER | PAGE_WRITABLE);
    lemma_page_of_bounds(a);
    lemma_user_addr_of(pages, mem, i, a % PAGE_SIZE as int);
}

/// A header that is not a loadable segment adds nothing to the image.
proof fn lemma_skip_header(mem: PhysicalMemory, pages: Seq<UserPage>, image: ElfImage, bytes: Seq<u8>, k: int)
    requires
        0 <= k,
        spec_program_header(image, bytes, k) is Ok,
        spec_program_header(image, bytes, k)->Ok_0.kind != PT_LOAD,
        frames_hold(mem, pages, image, bytes, k),
        segments_mapped(pages, image, bytes, k),
    ensures
        frames_hold(mem, pages, image, bytes, k + 1),
        segments_mapped(pages, image, bytes, k + 1),
{
    assert forall|i: int, off: int| 0 <= i < pages.len() && 0 <= off < PAGE_SIZE
        implies #[trigger] mem.byte(pages[i].phys_page + off) == image_byte(image, bytes, k + 1, pages[i].virt_page + off) by {
        lemma_image_byte_step(image, bytes, k, pages[i].virt_page + off);
    }
}

/// The first header with an error names the error of the whole table.
proof fn lemma_first_error(image: ElfImage, bytes: Seq<u8>, j: int, k: int)
    requires
        0 <= j <= k < image.program_header_count,
        forall|i: int| j <= i < k ==> #[trigger] header_error(image, bytes, i) is None,
        header_error(image, bytes, k) is Some,
    ensures
        first_header_error(image, bytes, j) == header_error(image, bytes, k),
    decreases k - j,
{
    if j < k {
        lemma_first_error(image, bytes, j + 1, k);
    }
}

/// A table without errors from `j` on has no first error there.
proof fn lemma_no_error(image: ElfImage, bytes: Seq<u8>, j: int)
    requires
        0 <= j,
        forall|i: int| j <= i < image.program_header_count ==> #[trigger] header_error(image, bytes, i) is None,
    ensures
        first_header_error(image, bytes, j) is None,
    decreases image.program_header_count - j,
{
    if j < image.program_header_count {
        lemma_no_error(image, bytes, j + 1);
    }
}

/// A mapped user address sits in one of the frames.
proof fn lemma_user_addr_in_frames(pages: Seq<UserPage>, mem: PhysicalMemory, a: int)
    requires
        pages_wf(pages, mem),
        lookup_page(pages, page_of(a)) is Some,
    ensures
        in_frames(pages, user_addr(pages, a)),
{
    lemma_page_of_bounds(a);
    let i = choose|i: int| 0 <= i < pages.len() && (#[trigger] pages[i]).virt_page == page_of(a);
    lemma_user_addr_of(pages, mem, i, a % PAGE_SIZE as int);
    assert(pages[i].virt_page + a % PAGE_SIZE as int == a);
}

/// An address at or above an aligned bound has its page there too.
proof fn lemma_page_of_at_least(a: int, b: int)
    by (nonlinear_arith)
    requires
        b % 4096 == 0,
        b <= a,
    ensures
        b <= page_of(a),
{
}

/// Where the startup layout puts things: the stack pointer in the stack,
/// the count and the argv array below the strings, the strings below the
/// top.
proof fn lemma_layout_bounds(argv0: Seq<u8>, tail: Seq<u8>)
    requires
        startup_layout(argv0, tail) is Ok,
    ensures
        ({
            let (args, ss, st) = startup_layout(argv0, tail)->Ok_0;
            &&& USER_STACK_BASE <= st
            &&& st + 8 + 8 * (args.len() + 1) <= ss <= USER_STACK_TOP
        }),
{
    let (args, ss, st) = startup_layout(argv0, tail)->Ok_0;
    lemma_strings_size_nonneg(args);
    let pointers_start = round_down(ss - (args.len() + 1) * 8, 8);
    assert(pointers_start <= ss - (args.len() + 1) * 8);
    assert(st <= pointers_start - 8);
}

/// Equal reads byte by byte give equal byte strings.
proof fn lemma_view_bytes_eq(mem: PhysicalMemory, root: u64, pages: Seq<UserPage>, c: int, len: int)
    requires
        0 <= len,
        forall|a: int| c <= a < c + len ==> #[trigger] user_view(mem, root, a) == mem.byte(user_addr(pages, a)),
    ensures
        view_bytes(mem, root, c, len) == user_bytes(mem, pages, c, len),
{
    assert forall|i: int| 0 <= i < len implies view_bytes(mem, root, c, len)[i] == user_bytes(mem, pages, c, len)[i] by {
        assert(user_view(mem, root, c + i) == mem.byte(user_addr(pages, c + i)));
    }
    assert(view_bytes(mem, root, c, len) =~= user_bytes(mem, pages, c, len));
}

/// When the user reads the stack through the frames, the written stack is
/// what the user sees.
proof fn lemma_startup_visible(mem: PhysicalMemory, root: u64, pages: Seq<UserPage>, args: Seq<Seq<u8>>, ss: int, st: int)
    requires
        startup_written(mem, pages, args, ss, st),
        USER_STACK_BASE <= st,
        st + 8 + 8 * (args.len() + 1) <= ss <= USER_STACK_TOP,
        forall|a: int| USER_STACK_BASE <= a < USER_STACK_TOP ==> #[trigger] user_view(mem, root, a) == mem.byte(user_addr(pages, a)),
    ensures
        startup_visible(mem, root, args, ss, st),
{
    lemma_view_bytes_eq(mem, root, pages, st, 8);
    lemma_view_bytes_eq(mem, root, pages, ss, USER_STACK_TOP - ss);
    assert forall|k: int| 0 <= k <= args.len()
        implies spec_le_u64(#[trigger] view_bytes(mem, root, st + 8 + 8 * k, 8)) == argv_pointer(args, ss, k) by {
        lemma_view_bytes_eq(mem, root, pages, st + 8 + 8 * k, 8);
        assert(spec_le_u64(user_bytes(mem, pages, st + 8 + 8 * k, 8)) == argv_pointer(args, ss, k));
    }
}

/// Takes a zeroed root table for a new address space and maps the shared
/// kernel context under it.
#[verifier::spinoff_prover]
fn start_image(state: &mut MemoryState, owned: &mut OwnedPages, s0: Ghost<MemoryState>) -> (r: Result<AddressSpaceBuilder, MemoryError>)
    requires
        old(state).wf(),
        *old(state) == s0@,
        old(owned)@ == Seq::<u64>::empty(),
    ensures
        image_abandoned(*final(state), s0@, final(owned)@),
        r == Err::<AddressSpaceBuilder, MemoryError>(MemoryError::AllocatorExhausted) ==> ran_dry(s0@, *final(state), final(owned)@),
        r == Err::<AddressSpaceBuilder, MemoryError>(MemoryError::OwnedPageCapacityExceeded)
            ==> final(owned)@.len() == MAX_OWNED_PAGES,
        r is Err ==> r->Err_0 == MemoryError::AllocatorExhausted || r->Err_0 == MemoryError::OwnedPageCapacityExceeded,
        r matches Ok(builder) ==> {
            &&& image_building(*final(state), s0@, builder, final(owned)@, Seq::empty())
            &&& forall|a: int| builder.root_paddr <= a < builder.root_paddr + PAGE_SIZE ==> #[trigger] s0@.allocator.is_free(a)
        },
{
    let ghost empty_levels = Map::<u64, int>::empty();
    proof {
        crate::memory::kernel::lemma_context_tables_parts(s0@);
    }
    let root = match take_page(&mut state.allocator, &mut state.memory) {
        Ok(page) => page,
        Err(error) => {
            proof {
                assert(touched_only(state.memory, s0@.memory, empty_levels, s0@.allocator));
                lemma_kernel_kept(s0@, *state, empty_levels, empty_levels);
                lemma_owned_grew_refl(owned@, s0@.allocator, state.allocator);
                lemma_taken_within_none(s0@.allocator, state.allocator, owned@.push(0u64));
            }
            return Err(error);
        },
    };
    let ghost s1 = *state;
    proof {
        assert(touched_only(state.memory, s0@.memory, empty_levels, s0@.allocator));
        lemma_kernel_kept(s0@, *state, empty_levels, empty_levels);
        crate::memory::paging::lemma_fresh_root(state.memory, state.allocator, root);
    }
    match owned.push(root) {
        Ok(()) => {},
        Err(error) => return Err(error),
    }
    let ghost owned1 = owned@;
    proof {
        assert(owned1 == seq![root]);
        assert(owned1.subrange(0, 0) =~= Seq::<u64>::empty());
        assert(owned_grew(owned1, Seq::empty(), s0@.allocator, state.allocator));
    }
    let mut builder = AddressSpaceBuilder::new(root, true);
    proof {
        let levels = builder.levels@;
        if let Some(space) = s0@.kernel_space {
            let kernel = s0@.kernel_levels@;
            assert forall|x: u64, y: u64| #[trigger] levels.dom().contains(x) && #[trigger] kernel.dom().contains(y)
                implies x + PAGE_SIZE <= y || y + PAGE_SIZE <= x by {
                assert(x == root);
                assert(usable_table(s0@.memory, s0@.allocator, y));
                if !(x + PAGE_SIZE <= y || y + PAGE_SIZE <= x) {
                    if x <= y {
                        assert(s0@.allocator.is_free(y as int));
                    } else {
                        assert(s0@.allocator.is_free(x as int));
                    }
                }
            }
        }
    }
    proof {
        assert(taken_within(s0@.allocator, s1.allocator, owned1)) by {
            assert forall|a: int| #![trigger s1.allocator.is_free(a)] s0@.allocator.is_free(a) && !s1.allocator.is_free(a)
                implies in_page_list(owned1, a) by {
                assert(owned1[0] == root);
            }
        }
    }
    let ghost s2 = *state;
    assert(context_tables(s2) == context_tables(s0@));
    assert(user_tables(Seq::<UserPage>::empty()) == 0) by {
        assert(!slot_used(Seq::<UserPage>::empty(), USER_IMAGE_BASE as int / LARGE_PAGE_SIZE as int));
        assert(!slot_used(Seq::<UserPage>::empty(), (USER_STACK_TOP - 1) as int / LARGE_PAGE_SIZE as int));
    }
    match state.map_shared_kernel_context(&mut builder, owned) {
        Ok(()) => {},
        Err(error) => {
            proof {
                lemma_owned_grew_trans(Seq::empty(), owned1, owned@, s0@.allocator, s1.allocator, state.allocator);
                if error == MemoryError::AllocatorExhausted {
                    lemma_taken_within_trans(s0@.allocator, s2.allocator, state.allocator, owned1, owned@);
                    lemma_taken_within_push(s0@.allocator, state.allocator, owned@, 0u64);
                }
            }
            return Err(error);
        },
    }
    proof {
        assert(owned@.subrange(0, owned1.len() as int) == owned1);
        assert(owned@[0] == owned@.subrange(0, owned1.len() as int)[0]);
        lemma_owned_grew_trans(Seq::empty(), owned1, owned@, s0@.allocator, s1.allocator, state.allocator);
        assert forall|v: u64| USER_IMAGE_BASE <= v < USER_STACK_TOP implies !#[trigger] huge_on_path(state.memory, root, v) by {
            assert(v < IDENTITY_LIMIT);
        }
    }
    Ok(builder)
}

/// Every segment reads as the image once its frames hold it, in memory
/// where only the stack was written since.
#[verifier::spinoff_prover]
proof fn lemma_segments_visible(
    mem: PhysicalMemory,
    root: u64,
    loaded: Seq<UserPage>,
    pages: Seq<UserPage>,
    mem_loaded: PhysicalMemory,
    mem_stack: PhysicalMemory,
    image: ElfImage,
    bytes: Seq<u8>,
)
    requires
        pages_wf(pages, mem),
        mem.spec_base() + mem.spec_size() <= IDENTITY_LIMIT,
        forall|i: int| 0 <= i < pages.len() ==> user_mapped(mem, root, (#[trigger] pages[i]).virt_page, pages[i].phys_page),
        headers_ok(image, bytes, image.program_header_count as int),
        frames_hold(mem_loaded, loaded, image, bytes, image.program_header_count as int),
        segments_mapped(loaded, image, bytes, image.program_header_count as int),
        loaded.len() <= pages.len(),
        pages.subrange(0, loaded.len() as int) == loaded,
        forall|x: int| #[trigger] in_frames(loaded, x) ==> mem_stack.byte(x) == mem_loaded.byte(x),
        written_only(mem, mem_stack, pages, USER_STACK_BASE as int, USER_STACK_TOP as int),
        range_mapped(pages, USER_STACK_BASE as int, USER_STACK_TOP as int),
    ensures
        image_loaded(mem, root, image, bytes),
{
    let count = image.program_header_count as int;
    assert forall|k: int, a: int| 0 <= k < count && #[trigger] segment_spans(image, bytes, k, a)
        implies user_page(mem, root, page_of(a), false) && user_view(mem, root, a) == image_byte(image, bytes, count, a) by {
        assert(header_error(image, bytes, k) is None);
        assert(lookup_page(loaded, page_of(a)) is Some);
        let i = choose|i: int| 0 <= i < loaded.len() && (#[trigger] loaded[i]).virt_page == page_of(a);
        assert(pages[i] == loaded[i]);
        lemma_view_is_frame(mem, root, pages, i, a);
        lemma_page_of_bounds(a);
        let off = a % PAGE_SIZE as int;
        let x = loaded[i].phys_page + off;
        lemma_user_addr_of(pages, mem, i, off);
        assert forall|b: int| USER_STACK_BASE <= b < USER_STACK_TOP implies #[trigger] user_addr(pages, b) != x by {
            lemma_user_addr_injective(pages, mem, a, b);
        }
        assert(in_frames(loaded, x));
        assert(mem_loaded.byte(loaded[i].phys_page + off) == image_byte(image, bytes, count, loaded[i].virt_page + off));
    }
}

/// The stack pages are writable user pages that read through their frames.
#[verifier::spinoff_prover]
proof fn lemma_stack_visible(mem: PhysicalMemory, root: u64, loaded: Seq<UserPage>, pages: Seq<UserPage>)
    requires
        pages_wf(pages, mem),
        mem.spec_base() + mem.spec_size() <= IDENTITY_LIMIT,
        forall|i: int| 0 <= i < pages.len() ==> user_mapped(mem, root, (#[trigger] pages[i]).virt_page, pages[i].phys_page),
        forall|i: int| 0 <= i < loaded.len() ==> (#[trigger] loaded[i]).virt_page < USER_STACK_BASE,
        loaded.len() <= pages.len(),
        pages.subrange(0, loaded.len() as int) == loaded,
        range_mapped(pages, USER_STACK_BASE as int, USER_STACK_TOP as int),
        forall|i: int| loaded.len() <= i < pages.len() ==> USER_STACK_BASE <= (#[trigger] pages[i]).virt_page
            && translate_4k(mem, root, pages[i].virt_page) == Some(pages[i].phys_page | (PAGE_PRESENT | PAGE_USER | PAGE_WRITABLE)),
    ensures
        stack_loaded(mem, root),
        forall|a: int| USER_STACK_BASE <= a < USER_STACK_TOP ==> #[trigger] user_view(mem, root, a) == mem.byte(user_addr(pages, a)),
{
    assert forall|a: int| #![trigger user_page(mem, root, page_of(a), true)] #![trigger user_view(mem, root, a)]
        USER_STACK_BASE <= a < USER_STACK_TOP implies
        user_page(mem, root, page_of(a), true) && user_view(mem, root, a) == mem.byte(user_addr(pages, a)) by {
        lemma_page_of_at_least(a, USER_STACK_BASE as int);
        assert(lookup_page(pages, page_of(a)) is Some);
        let j = choose|j: int| 0 <= j < pages.len() && (#[trigger] pages[j]).virt_page == page_of(a);
        if j < loaded.len() {
            assert(pages[j] == loaded[j]);
        }
        lemma_view_is_frame(mem, root, pages, j, a);
    }
}

/// Builds the address space of a new program from an accepted ELF header:
/// root table and kernel context, every loadable segment, the stack and the
/// startup arguments. Returns the root table and the initial stack pointer.
#[verifier::spinoff_prover]
#[verifier::rlimit(90)]
fn build_user_image(
    state: &mut MemoryState,
    owned: &mut OwnedPages,
    bytes: &[u8],
    image: &ElfImage,
    startup: &ProgramStartup,
    s0: Ghost<MemoryState>,
) -> (r: Result<(u64, u64), MemoryError>)
    requires
        old(state).wf(),
        *old(state) == s0@,
        old(owned)@ == Seq::<u64>::empty(),
        spec_parse_elf(bytes@) == Ok::<ElfImage, ElfError>(*image),
        USER_IMAGE_BASE <= image.entry < USER_STACK_TOP,
    ensures
        image_abandoned(*final(state), s0@, final(owned)@),
        r == Err::<(u64, u64), MemoryError>(MemoryError::AllocatorExhausted) ==> ran_dry(s0@, *final(state), final(owned)@),
        r == Err::<(u64, u64), MemoryError>(MemoryError::OwnedPageCapacityExceeded) ==> final(owned)@.len() == MAX_OWNED_PAGES,
        r == Err::<(u64, u64), MemoryError>(MemoryError::SegmentOverlapCapacityExceeded) ==> user_pages_over(*image, bytes@),
        r is Err ==> out_of_room(r->Err_0)
            || load_plan(bytes@, startup.argv0.spec_bytes(), startup.argv_tail@) == Err::<(ElfImage, Seq<Seq<u8>>, int, int), MemoryError>(r->Err_0),
        r matches Ok((root, stack_top)) ==> {
            &&& image_ready(final(state).memory, root, stack_top, bytes@, startup.argv0.spec_bytes(), startup.argv_tail@)
            &&& window_mapped(final(state).memory, root, final(state).phys_window_end as int)
            &&& taken_page(root, s0@.allocator, final(state).allocator)
            &&& final(owned)@.len() >= 1 && final(owned)@[0] == root
        },
{
    proof {
        reveal(load_plan);
        reveal(image_ready);
    }
    let mut builder = match start_image(state, owned, s0) {
        Ok(builder) => builder,
        Err(error) => return Err(error),
    };
    let root = builder.root_paddr;
    let mut pages = UserPageMap::new();
    let count = image.program_header_count();
    let mut k: usize = 0;
    proof {
        assert forall|i: int, off: int| 0 <= i < pages@.len() && 0 <= off < PAGE_SIZE
            implies #[trigger] state.memory.byte(pages@[i].phys_page + off) == image_byte(*image, bytes@, 0, pages@[i].virt_page + off) by {}
    }
    while k < count
        invariant
            image_building(*state, s0@, builder, owned@, pages@),
            builder.root_paddr == root,
            forall|a: int| root <= a < root + PAGE_SIZE ==> #[trigger] s0@.allocator.is_free(a),
            k <= count,
            count == image.program_header_count,
            spec_parse_elf(bytes@) == Ok::<ElfImage, ElfError>(*image),
            USER_IMAGE_BASE <= image.entry < USER_STACK_TOP,
            headers_ok(*image, bytes@, k as int),
            frames_hold(state.memory, pages@, *image, bytes@, k as int),
            segments_mapped(pages@, *image, bytes@, k as int),
            forall|i: int| 0 <= i < pages@.len() ==> (#[trigger] pages@[i]).virt_page < USER_STACK_BASE,
            all_needed(pages@, *image, bytes@),
        decreases count - k,
    {
        let header = match image.program_header(bytes, k) {
            Ok(header) => header,
            Err(error) => {
                proof {
                    reveal(load_plan);
                    assert(header_error(*image, bytes@, k as int) == Some(MemoryError::Elf(error)));
                    lemma_first_error(*image, bytes@, 0, k as int);
                }
                return Err(MemoryError::Elf(error));
            },
        };
        if header.kind == PT_LOAD {
            match load_segment(state, &mut builder, owned, &mut pages, bytes, &header, Ghost(*image), Ghost(k as int), s0) {
                Ok(()) => {},
                Err(error) => {
                    proof {
                        reveal(load_plan);
                        if !out_of_room(error) {
                            lemma_first_error(*image, bytes@, 0, k as int);
                        }
                        if error == MemoryError::SegmentOverlapCapacityExceeded {
                            let v = choose|v: int| image_page(*image, bytes@, v) && full_without(pages@, v);
                            lemma_over_from_full(*image, bytes@, pages@, v);
                        }
                    }
                    return Err(error);
                },
            }
        } else {
            proof {
                lemma_skip_header(state.memory, pages@, *image, bytes@, k as int);
            }
        }
        proof {
            assert(header_error(*image, bytes@, k as int) is None);
            assert forall|j: int| 0 <= j < k + 1 implies #[trigger] header_error(*image, bytes@, j) is None by {
                if j < k {
                    assert(header_error(*image, bytes@, j) is None);
                }
            }
        }
        k += 1;
    }
    proof {
        lemma_no_error(*image, bytes@, 0);
    }
    let ghost loaded = pages@;
    let ghost mem_loaded = state.memory;
    match map_stack(state, &mut builder, owned, &mut pages, s0) {
        Ok(()) => {},
        Err(error) => {
            proof {
                if error == MemoryError::SegmentOverlapCapacityExceeded {
                    lemma_needed_extend(*image, bytes@, loaded, pages@, USER_STACK_BASE as int, USER_STACK_TOP as int);
                    let v = choose|v: int| span_page(USER_STACK_BASE as int, USER_STACK_TOP as int, v) && full_without(pages@, v);
                    lemma_over_from_full(*image, bytes@, pages@, v);
                }
            }
            return Err(error);
        },
    }
    let ghost before_args = *state;
    let stack_top = match write_startup_arguments(&pages, &mut state.memory, startup) {
        Ok(top) => top,
        Err(error) => {
            proof {
                lemma_tail_errors(startup.argv_tail@, 1);
                assert(error != MemoryError::AllocatorExhausted);
                assert(error != MemoryError::OwnedPageCapacityExceeded);
                assert(error != MemoryError::SegmentOverlapCapacityExceeded);
            }
            return Err(error);
        },
    };
    proof {
        let pg = pages@;
        assert forall|x: int| state.memory.covers(x, x + 1) && !in_frames(pg, x)
            implies #[trigger] state.memory.byte(x) == before_args.memory.byte(x) by {
            assert forall|a: int| USER_STACK_BASE <= a < USER_STACK_TOP implies #[trigger] user_addr(pg, a) != x by {
                lemma_user_addr_in_frames(pg, before_args.memory, a);
            }
        }
        lemma_frames_written(before_args, *state, s0@, builder, owned@, pg);
        lemma_owned_grew_refl(owned@, before_args.allocator, state.allocator);
        lemma_abandoned_step(s0@, before_args, *state, owned@, owned@);
        lemma_segments_visible(state.memory, root, loaded, pg, mem_loaded, before_args.memory, *image, bytes@);
        assert forall|i: int| loaded.len() <= i < pg.len() implies USER_STACK_BASE <= (#[trigger] pg[i]).virt_page
            && translate_4k(state.memory, root, pg[i].virt_page) == Some(pg[i].phys_page | (PAGE_PRESENT | PAGE_USER | PAGE_WRITABLE)) by {
            assert(translate_4k(state.memory, root, pg[i].virt_page) == translate_4k(before_args.memory, root, pg[i].virt_page));
        }
        lemma_stack_visible(state.memory, root, loaded, pg);
        let (args, ss, st) = startup_layout(startup.argv0.spec_bytes(), startup.argv_tail@)->Ok_0;
        lemma_layout_bounds(startup.argv0.spec_bytes(), startup.argv_tail@);
        lemma_startup_visible(state.memory, root, pg, args, ss, st);
        assert(usable_table(state.memory, state.allocator, root));
    }
    Ok((root, stack_top))
}

/// What loading `bytes` for a program started with `argv0` and `tail` needs
/// from `s` to succeed: an image that loads, free memory beyond the pages a
/// program may own, no more user pages than the page map holds, and room
/// in the owned list for the page tables.
pub open spec fn load_owed(s: MemoryState, bytes: Seq<u8>, argv0: Seq<u8>, tail: Seq<u8>) -> bool {
    &&& load_plan(bytes, argv0, tail) is Ok
    &&& !memory_short(s.allocator, MAX_OWNED_PAGES + 1)
    &&& !user_pages_over(load_plan(bytes, argv0, tail)->Ok_0.0, bytes)
    &&& tables_fit(s)
}

/// Parses `bytes` as an ELF executable and loads it into a new user address
/// space, with the initial stack laid out for `startup`.
///
/// The loadable segments must fit the fixed user image range below the
/// stack, which is mapped above them. When memory or the fixed tables run
/// out part way, the pages recorded as owned so far are handed back; a
/// frame taken for a page that then finds no room in the page map was not
/// yet recorded and stays taken. Loading succeeds whenever `load_owed`
/// holds.
#[verifier::rlimit(60)]
pub fn load_user_program(state: &mut MemoryState, bytes: &[u8], startup: &ProgramStartup) -> (r: Result<LoadedUserProgram, MemoryError>)
    requires
        old(state).wf(),
    ensures
        final(state).wf(),
        same_layout(*final(state), *old(state)),
        kernel_view_kept(*final(state), *old(state)),
        forall|a: int| #[trigger] final(state).allocator.is_free(a) ==> old(state).allocator.is_free(a),
        spec_parse_elf(bytes@) is Err || spec_parse_elf(bytes@)->Ok_0.entry < USER_IMAGE_BASE
            || spec_parse_elf(bytes@)->Ok_0.entry >= USER_STACK_TOP ==> *final(state) == *old(state),
        r is Err ==> out_of_room(r->Err_0)
            || load_plan(bytes@, startup.argv0.spec_bytes(), startup.argv_tail@) == Err::<(ElfImage, Seq<Seq<u8>>, int, int), MemoryError>(r->Err_0),
        load_plan(bytes@, startup.argv0.spec_bytes(), startup.argv_tail@) is Err ==> r is Err,
        r == Err::<LoadedUserProgram, MemoryError>(MemoryError::AllocatorExhausted)
            ==> memory_short(old(state).allocator, MAX_OWNED_PAGES + 1),
        r == Err::<LoadedUserProgram, MemoryError>(MemoryError::SegmentOverlapCapacityExceeded)
            ==> spec_parse_elf(bytes@) is Ok && user_pages_over(spec_parse_elf(bytes@)->Ok_0, bytes@),
        r == Err::<LoadedUserProgram, MemoryError>(MemoryError::OwnedPageCapacityExceeded) ==> !tables_fit(*old(state)),
        load_owed(*old(state), bytes@, startup.argv0.spec_bytes(), startup.argv_tail@) ==> r is Ok,
        spec_parse_elf(bytes@) matches Err(e) ==> r == Err::<LoadedUserProgram, MemoryError>(MemoryError::Elf(e)),
        spec_parse_elf(bytes@) matches Ok(image) && (image.entry < USER_IMAGE_BASE || image.entry >= USER_STACK_TOP)
            ==> r == Err::<LoadedUserProgram, MemoryError>(MemoryError::UserImageOutOfRange),
        r matches Ok(program) ==> {
            let root = program.address_space.spec_root();
            &&& load_plan(bytes@, startup.argv0.spec_bytes(), startup.argv_tail@) is Ok
            &&& program.entry_point == load_plan(bytes@, startup.argv0.spec_bytes(), startup.argv_tail@)->Ok_0.0.entry
            &&& program.user_stack_top == load_plan(bytes@, startup.argv0.spec_bytes(), startup.argv_tail@)->Ok_0.3
            &&& image_ready(final(state).memory, root, program.user_stack_top, bytes@, startup.argv0.spec_bytes(), startup.argv_tail@)
            &&& window_mapped(final(state).memory, root, final(state).phys_window_end as int)
            &&& taken_page(root, old(state).allocator, final(state).allocator)
            &&& program.owned_pages.wf()
            &&& program.owned_pages@.len() >= 1 && program.owned_pages@[0] == root
            &&& forall|i: int| 0 <= i < program.owned_pages@.len() ==> (#[trigger] program.owned_pages@[i]) as int % PAGE_SIZE as int == 0
                && taken_page(program.owned_pages@[i], old(state).allocator, final(state).allocator)
        },
{
    proof {
        reveal(load_plan);
        reveal(image_ready);
    }
    let image = match ElfImage::parse(bytes) {
        Ok(image) => image,
        Err(error) => return Err(MemoryError::Elf(error)),
    };
    let entry_point = image.entry_point();
    if entry_point < USER_IMAGE_BASE || entry_point >= USER_STACK_TOP {
        return Err(MemoryError::UserImageOutOfRange);
    }
    let ghost s0 = *state;
    let mut owned = OwnedPages::empty();
    match build_user_image(state, &mut owned, bytes, &image, startup, Ghost(s0)) {
        Ok((root, user_stack_top)) => {
            proof {
                assert forall|i: int| 0 <= i < owned@.len() implies (#[trigger] owned@[i]) as int % PAGE_SIZE as int == 0
                    && taken_page(owned@[i], s0.allocator, state.allocator) by {
                    assert(owned@.subrange(0, 0).len() == 0);
                }
            }
            Ok(LoadedUserProgram {
                address_space: AddressSpace::new(root),
                entry_point,
                user_stack_top,
                owned_pages: owned,
            })
        },
        Err(error) => {
            let ghost mid = *state;
            proof {
                lemma_owned_releasable(mid, s0, owned@);
                if error == MemoryError::AllocatorExhausted {
                    let f = choose|f: u64| #[trigger] taken_within(s0.allocator, mid.allocator, owned@.push(f));
                    let used = owned@.push(f);
                    assert forall|a: int| #[trigger] usable_free(s0.allocator, a) implies in_page_list(used, a) by {
                        lemma_dry_keeps_nothing_usable(s0.allocator, mid.allocator, a);
                        let i = choose|i: int| 0 <= i < s0.allocator.spec_regions().len()
                            && region_fits(#[trigger] s0.allocator.spec_regions()[i], PAGE_SIZE as int)
                            && s0.allocator.spec_regions()[i].start <= a < s0.allocator.spec_regions()[i].end;
                        assert(s0.allocator.is_free(a));
                    }
                    assert(memory_short(s0.allocator, MAX_OWNED_PAGES + 1));
                }
            }
            state.release_pages(&owned);
            proof {
                assert forall|a: int| #[trigger] state.allocator.is_free(a) implies s0.allocator.is_free(a) by {
                    if !mid.allocator.is_free(a) {
                        assert(in_pages(owned@, a));
                        let i = choose|i: int| 0 <= i < owned@.len() && #[trigger] owned@[i] <= a < owned@[i] + PAGE_SIZE;
                        assert(taken_page(owned@[i], s0.allocator, mid.allocator));
                    }
                }
            }
            Err(error)
        },
    }
}

/// Pages taken since a well-formed state can be handed back: each is an
/// aligned page of memory that no kernel table uses.
pub proof fn lemma_taken_releasable(s: MemoryState, s0: MemoryState, pages: Seq<u64>)
    requires
        s0.wf(),
        same_layout(s, s0),
        forall|i: int| 0 <= i < pages.len() ==> (#[trigger] pages[i]) as int % PAGE_SIZE as int == 0
            && taken_page(pages[i], s0.allocator, s.allocator),
    ensures
        forall|i: int| 0 <= i < pages.len() ==> {
            let p = #[trigger] pages[i];
            &&& p as int % PAGE_SIZE as int == 0
            &&& s.memory.covers(p as int, p + PAGE_SIZE)
            &&& forall|a: int| p <= a < p + PAGE_SIZE ==> !#[trigger] in_tables(s.kernel_levels@, a)
        },
{
    assert forall|i: int| 0 <= i < pages.len() implies {
        let p = #[trigger] pages[i];
        &&& p as int % PAGE_SIZE as int == 0
        &&& s.memory.covers(p as int, p + PAGE_SIZE)
        &&& forall|a: int| p <= a < p + PAGE_SIZE ==> !#[trigger] in_tables(s.kernel_levels@, a)
    } by {
        let p = pages[i];
        assert(taken_page(p, s0.allocator, s.allocator));
        assert(s0.allocator.is_free(p as int));
        assert(s0.allocator.is_free(p + PAGE_SIZE - 1));
        assert forall|a: int| p <= a < p + PAGE_SIZE implies !#[trigger] in_tables(s.kernel_levels@, a) by {
            if in_tables(s.kernel_levels@, a) {
                let t = choose|t: u64| #[trigger] s.kernel_levels@.dom().contains(t) && t <= a < t + PAGE_SIZE;
                assert(s0.allocator.is_free(a));
                assert(s0.kernel_levels@.dom().contains(t));
                assert(usable_table(s0.memory, s0.allocator, t));
            }
        }
    }
}

/// The pages of an abandoned image can be handed back.
proof fn lemma_owned_releasable(s: MemoryState, s0: MemoryState, owned: Seq<u64>)
    requires
        image_abandoned(s, s0, owned),
    ensures
        forall|i: int| 0 <= i < owned.len() ==> {
            let p = #[trigger] owned[i];
            &&& p as int % PAGE_SIZE as int == 0
            &&& s.memory.covers(p as int, p + PAGE_SIZE)
            &&& forall|a: int| p <= a < p + PAGE_SIZE ==> !#[trigger] in_tables(s.kernel_levels@, a)
        },
{
    assert(owned.subrange(0, 0).len() == 0);
    lemma_taken_releasable(s, s0, owned);
}

/// An address in the page that starts at `p` has `p` as its page.
proof fn lemma_page_of_within(a: int, p: int)
    by (nonlinear_arith)
    requires
        p % 4096 == 0,
        p <= a < p + 4096,
    ensures
        page_of(a) == p,
        a % 4096 == a - p,
{
}

/// The page of an address is an aligned address at most a page below it.
proof fn lemma_page_of_bounds(a: int)
    by (nonlinear_arith)
    ensures
        page_of(a) <= a < page_of(a) + 4096,
        page_of(a) % 4096 == 0,
        0 <= a % 4096 < 4096,
{
}

/// Distinct page-aligned frames do not overlap.
proof fn lemma_frames_apart(a: int, b: int)
    by (nonlinear_arith)
    requires
        a % 4096 == 0,
        b % 4096 == 0,
        a != b,
    ensures
        a + 4096 <= b || b + 4096 <= a,
{
}

} // verus!
