//! A user task: its register frame and its resident set, built from an
//! ELF image and an argument vector.

use vstd::prelude::*;
use vstd::slice::slice_subrange;
use vstd::string::StringSliceAdditionalSpecFns;

use crate::config::{ALIGN_SIZE, DEFAULT_USER_STACK_TOP, PAGE_SIZE};
use crate::mem::frames::FrameTable;
use crate::task::elf::{parse, parse_spec, ElfError, SegmentHeader};
use crate::task::memset::{filled_page, MemSet};
use crate::task::syscall::{escape_outcome, handle_escape, EscapeReason, UserAction};
use crate::task::stack::{
    build_stack, byte_seqs, initial_sp, stack_fits, stack_image, StackError, USER_STACK_BASE,
};

verus! {

/// The slots of the register frame that the kernel reads and writes.
#[derive(Clone, Copy, Debug, PartialEq, Eq, Structural)]
pub enum TrapFrameArgs {
    /// The program counter.
    SEPC,
    /// The return address.
    RA,
    /// The stack pointer.
    SP,
    /// The return value of a system call.
    RET,
    /// The first argument of a system call.
    ARG0,
    /// The second argument of a system call.
    ARG1,
    /// The third argument of a system call.
    ARG2,
    /// The thread pointer.
    TLS,
    /// The number of the system call.
    SYSCALL,
}

/// The register state of a user task, saved on each trap.
#[derive(Clone, Copy, Debug)]
pub struct TrapFrame {
    pub sepc: u64,
    pub ra: u64,
    pub sp: u64,
    pub ret: u64,
    pub args: [u64; 6],
    pub tls: u64,
    pub syscall: u64,
}

impl TrapFrame {
    /// A frame with every slot zero.
    pub fn new() -> (frame: TrapFrame)
        ensures
            frame.sepc == 0,
            frame.ra == 0,
            frame.sp == 0,
            frame.ret == 0,
            frame.tls == 0,
            frame.syscall == 0,
            forall|i: int| 0 <= i < 6 ==> frame.args[i] == 0,
    {
        TrapFrame { sepc: 0, ra: 0, sp: 0, ret: 0, args: [0u64;6], tls: 0, syscall: 0 }
    }

    /// The value of a slot.
    pub open spec fn slot(self, which: TrapFrameArgs) -> u64 {
        match which {
            TrapFrameArgs::SEPC => self.sepc,
            TrapFrameArgs::RA => self.ra,
            TrapFrameArgs::SP => self.sp,
            TrapFrameArgs::RET => self.ret,
            TrapFrameArgs::ARG0 => self.args[0],
            TrapFrameArgs::ARG1 => self.args[1],
            TrapFrameArgs::ARG2 => self.args[2],
            TrapFrameArgs::TLS => self.tls,
            TrapFrameArgs::SYSCALL => self.syscall,
        }
    }

    /// Reads a slot.
    pub fn get(&self, which: TrapFrameArgs) -> (value: u64)
        ensures
            value == self.slot(which),
    {
        match which {
            TrapFrameArgs::SEPC => self.sepc,
            TrapFrameArgs::RA => self.ra,
            TrapFrameArgs::SP => self.sp,
            TrapFrameArgs::RET => self.ret,
            TrapFrameArgs::ARG0 => self.args[0],
            TrapFrameArgs::ARG1 => self.args[1],
            TrapFrameArgs::ARG2 => self.args[2],
            TrapFrameArgs::TLS => self.tls,
            TrapFrameArgs::SYSCALL => self.syscall,
        }
    }

    /// Writes a slot; every other slot keeps its value.
    pub fn set(&mut self, which: TrapFrameArgs, value: u64)
        ensures
            final(self).slot(which) == value,
            forall|other: TrapFrameArgs|
                other != which ==> final(self).slot(other) == old(self).slot(other),
            forall|i: int| 3 <= i < 6 ==> final(self).args[i] == old(self).args[i],
    {
        match which {
            TrapFrameArgs::SEPC => {
                self.sepc = value;
            },
            TrapFrameArgs::RA => {
                self.ra = value;
            },
            TrapFrameArgs::SP => {
                self.sp = value;
            },
            TrapFrameArgs::RET => {
                self.ret = value;
            },
            TrapFrameArgs::ARG0 => {
                self.args[0] = value;
            },
            TrapFrameArgs::ARG1 => {
                self.args[1] = value;
            },
            TrapFrameArgs::ARG2 => {
                self.args[2] = value;
            },
            TrapFrameArgs::TLS => {
                self.tls = value;
            },
            TrapFrameArgs::SYSCALL => {
                self.syscall = value;
            },
        }
    }

    /// The six arguments of a system call.
    pub fn args(&self) -> (args: [u64; 6])
        ensures
            args == self.args,
    {
        self.args
    }
}

/// Why no task could be built.
#[derive(Clone, Copy, Debug, PartialEq, Eq, Structural)]
pub enum TaskError {
    /// The image is not a valid ELF file.
    NotElf,
    /// The image's table of program headers cannot be read.
    BadProgramTable,
    /// A LOAD segment reaches beyond the file or the address space, or
    /// holds more bytes in the file than in memory.
    BadSegment,
    /// There is no argument, so no name of the program.
    NoArguments,
    /// The arguments do not fit into the stack.
    ArgsTooLong,
    /// The frame allocator has no frame left for a page.
    OutOfMemory,
}

/// Whether a segment can be loaded from a file of `len` bytes: it is no
/// LOAD segment, or its file bytes lie within the file, are no more than
/// its bytes in memory, and its memory lies within the address space.
pub open spec fn segment_ok(seg: SegmentHeader, len: int) -> bool {
    !seg.load || {
        &&& seg.offset + seg.file_size <= len
        &&& seg.file_size <= seg.mem_size
        &&& seg.virtual_addr + seg.mem_size <= u64::MAX
    }
}

/// Whether every segment can be loaded.
pub open spec fn segments_ok(segments: Seq<SegmentHeader>, len: int) -> bool {
    forall|i: int| 0 <= i < segments.len() ==> segment_ok(#[trigger] segments[i], len)
}

/// Whether loading `seg` maps the virtual page `vpn`: it is a LOAD segment
/// and some byte of its memory lies in the page.
pub open spec fn segment_covers(seg: SegmentHeader, vpn: u64) -> bool {
    &&& seg.load
    &&& seg.mem_size > 0
    &&& seg.virtual_addr / 4096 <= vpn <= (seg.virtual_addr + seg.mem_size - 1) / 4096
}

/// What the virtual page `vpn` holds after `seg` was loaded from the file
/// `elf`: at each address within the segment's file-backed part the byte
/// of the file that belongs there, and zero elsewhere.
pub open spec fn segment_page(elf: Seq<u8>, seg: SegmentHeader, vpn: u64) -> Seq<u8> {
    Seq::new(
        PAGE_SIZE as nat,
        |j: int|
            {
                let addr = vpn * 4096 + j;
                if seg.virtual_addr <= addr < seg.virtual_addr + seg.file_size {
                    elf[seg.offset + (addr - seg.virtual_addr)]
                } else {
                    0u8
                }
            },
    )
}

/// The image `before` with the pages of `seg` up to, and without, the
/// virtual page `upto` mapped afresh.
pub open spec fn image_with_segment(
    before: Map<u64, Seq<u8>>,
    elf: Seq<u8>,
    seg: SegmentHeader,
    upto: int,
) -> Map<u64, Seq<u8>> {
    Map::new(
        |vpn: u64| (segment_covers(seg, vpn) && vpn < upto) || before.contains_key(vpn),
        |vpn: u64|
            if segment_covers(seg, vpn) && vpn < upto {
                segment_page(elf, seg, vpn)
            } else {
                before[vpn]
            },
    )
}

/// The number of virtual pages from `first` up to, and without, `upto`
/// that `image` does not map.
pub open spec fn unmapped_between(image: Map<u64, Seq<u8>>, first: int, upto: int) -> nat
    decreases upto - first,
{
    if upto <= first {
        0
    } else {
        unmapped_between(image, first, upto - 1) + if image.contains_key((upto - 1) as u64) {
            0nat
        } else {
            1nat
        }
    }
}

/// Whether `free` free frames are enough to map the pages of `seg`
/// afresh over `image`. Each page takes its frame before the page that
/// it replaces gives its own back: a page that was not mapped takes a
/// frame for good, and the last page still needs one to be free.
pub open spec fn segment_has_frames(image: Map<u64, Seq<u8>>, seg: SegmentHeader, free: int)
    -> bool {
    !seg.load || seg.mem_size == 0 || free > unmapped_between(
        image,
        (seg.virtual_addr / 4096) as int,
        ((seg.virtual_addr + seg.mem_size - 1) / 4096) as int,
    )
}

/// Whether `free` free frames are enough to map the pages of the user
/// stack afresh over `image`, as [`segment_has_frames`] says it of a
/// segment.
pub open spec fn stack_has_frames(image: Map<u64, Seq<u8>>, free: int) -> bool {
    free > unmapped_between(
        image,
        (USER_STACK_BASE / 4096) as int,
        (DEFAULT_USER_STACK_TOP / 4096 - 1) as int,
    )
}

/// The number of frames that loading `seg` over `image` takes for good:
/// one for each of its pages that `image` does not map.
pub open spec fn segment_takes(image: Map<u64, Seq<u8>>, seg: SegmentHeader) -> nat {
    if seg.load && seg.mem_size > 0 {
        unmapped_between(
            image,
            (seg.virtual_addr / 4096) as int,
            ((seg.virtual_addr + seg.mem_size - 1) / 4096) as int + 1,
        )
    } else {
        0
    }
}

/// The number of frames that loading `segments` from the file `elf` one
/// after the other takes for good.
pub open spec fn segments_take(elf: Seq<u8>, segments: Seq<SegmentHeader>) -> nat
    decreases segments.len(),
{
    if segments.len() == 0 {
        0
    } else {
        segments_take(elf, segments.drop_last()) + segment_takes(
            segments_image(elf, segments.drop_last()),
            segments.last(),
        )
    }
}

/// Whether `free` free frames are enough to load `segments` from the
/// file `elf` one after the other: each segment finds the frames that
/// [`segment_has_frames`] asks for among those that the segments before
/// it left.
pub open spec fn segments_have_frames(elf: Seq<u8>, segments: Seq<SegmentHeader>, free: int)
    -> bool
    decreases segments.len(),
{
    segments.len() == 0 || {
        &&& segments_have_frames(elf, segments.drop_last(), free)
        &&& segment_has_frames(
            segments_image(elf, segments.drop_last()),
            segments.last(),
            free - segments_take(elf, segments.drop_last()),
        )
    }
}

/// Whether `free` free frames are enough to build a task from the file
/// `elf` with the program headers `segments`: the segments have their
/// frames, and the stack finds the frames that [`stack_has_frames`] asks
/// for among those that the segments left.
pub open spec fn task_has_frames(elf: Seq<u8>, segments: Seq<SegmentHeader>, free: int) -> bool {
    &&& segments_have_frames(elf, segments, free)
    &&& stack_has_frames(segments_image(elf, segments), free - segments_take(elf, segments))
}

/// Frames that are enough for segments are enough for the first `n` of
/// them.
pub proof fn lemma_first_segments_have_frames(
    elf: Seq<u8>,
    segments: Seq<SegmentHeader>,
    free: int,
    n: int,
)
    requires
        0 <= n <= segments.len(),
        segments_have_frames(elf, segments, free),
    ensures
        segments_have_frames(elf, segments.subrange(0, n), free),
    decreases segments.len() - n,
{
    if n < segments.len() {
        lemma_first_segments_have_frames(elf, segments.drop_last(), free, n);
        assert(segments.drop_last().subrange(0, n) =~= segments.subrange(0, n));
    } else {
        assert(segments.subrange(0, n) =~= segments);
    }
}

/// Further pages are no fewer unmapped pages.
pub proof fn lemma_unmapped_between_grows(
    image: Map<u64, Seq<u8>>,
    first: int,
    mid: int,
    upto: int,
)
    requires
        mid <= upto,
    ensures
        unmapped_between(image, first, mid) <= unmapped_between(image, first, upto),
    decreases upto - mid,
{
    if mid < upto {
        lemma_unmapped_between_grows(image, first, mid, upto - 1);
        if upto <= first {
            assert(unmapped_between(image, first, mid) == 0);
        }
    }
}

/// A page that is mapped afresh takes one free frame for good where
/// none was mapped at its place, and none where one was replaced.
proof fn lemma_fresh_page_takes_a_frame(
    set: &MemSet,
    before: &FrameTable,
    after: &FrameTable,
    vpn: u64,
    ppn: usize,
)
    requires
        before.wf(),
        after.wf(),
        set.backed_by(before),
        after.regions() == before.regions(),
        before.free().contains(ppn as int),
        after.reserved() == if set.mapped(vpn) {
            before.reserved().insert(ppn as int).remove(set.frame(vpn) as int)
        } else {
            before.reserved().insert(ppn as int)
        },
    ensures
        after.free_count() == before.free_count() - if set.mapped(vpn) {
            0int
        } else {
            1int
        },
{
    if set.mapped(vpn) {
        FrameTable::lemma_free_count_step(
            before,
            after,
            ppn as int,
            Some(set.frame(vpn) as int),
        );
    } else {
        FrameTable::lemma_free_count_step(before, after, ppn as int, None);
    }
}

/// The bytes of each mapped virtual page after `segments` were loaded
/// from the file `elf` one after the other. Each LOAD segment maps the
/// pages of its memory afresh, so where two segments share a page the
/// later one decides what the page holds.
pub open spec fn segments_image(elf: Seq<u8>, segments: Seq<SegmentHeader>) -> Map<u64, Seq<u8>>
    decreases segments.len(),
{
    if segments.len() == 0 {
        Map::empty()
    } else {
        image_with_segment(
            segments_image(elf, segments.drop_last()),
            elf,
            segments.last(),
            u64::MAX + 1,
        )
    }
}

/// Whether the virtual page `vpn` belongs to the user stack.
pub open spec fn stack_covers(vpn: u64) -> bool {
    USER_STACK_BASE / 4096 <= vpn < DEFAULT_USER_STACK_TOP / 4096
}

/// The image `before` with the stack's pages up to, and without, the
/// virtual page `upto` mapped afresh and holding `stack`.
pub open spec fn image_with_stack(before: Map<u64, Seq<u8>>, stack: Seq<u8>, upto: int) -> Map<
    u64,
    Seq<u8>,
> {
    Map::new(
        |vpn: u64| (stack_covers(vpn) && vpn < upto) || before.contains_key(vpn),
        |vpn: u64|
            if stack_covers(vpn) && vpn < upto {
                stack.subrange(
                    (vpn - USER_STACK_BASE / 4096) * 4096,
                    (vpn - USER_STACK_BASE / 4096) * 4096 + 4096,
                )
            } else {
                before[vpn]
            },
    )
}

/// The bytes of each mapped virtual page of a task that was built from
/// the file `elf` with the program headers `segments`, to start at
/// `entry` with the arguments `args`: the segments' pages, and over them
/// the pages of the stack.
pub open spec fn task_image(
    elf: Seq<u8>,
    segments: Seq<SegmentHeader>,
    entry: u64,
    args: Seq<Seq<u8>>,
) -> Map<u64, Seq<u8>> {
    image_with_stack(segments_image(elf, segments), stack_image(args, entry), u64::MAX + 1)
}

/// The bytes of each of `args`.
pub open spec fn args_bytes(args: Seq<&str>) -> Seq<Seq<u8>> {
    Seq::new(args.len(), |i: int| args[i].spec_bytes())
}

/// Monolithic Task
pub struct Task {
    /// This field records the current state of the user task.
    pub trap_frame: TrapFrame,
    /// Records the used physical pages, by virtual page.
    pub memset: MemSet,
}

/// Checks [`segments_ok`].
pub fn check_segments(segments: &Vec<SegmentHeader>, len: usize) -> (ok: bool)
    ensures
        ok == segments_ok(segments@, len as int),
{
    let mut i: usize = 0;
    while i < segments.len()
        invariant
            i <= segments@.len(),
            forall|k: int| 0 <= k < i ==> segment_ok(#[trigger] segments@[k], len as int),
        decreases segments@.len() - i,
    {
        let seg = &segments[i];
        if seg.load {
            let fits = match seg.offset.checked_add(seg.file_size) {
                Some(end) => end <= len as u64,
                None => false,
            };
            let placed = seg.virtual_addr.checked_add(seg.mem_size).is_some();
            if !fits || !placed || seg.file_size > seg.mem_size {
                assert(!segment_ok(segments@[i as int], len as int));
                return false;
            }
        }
        i = i + 1;
    }
    true
}

/// Maps the pages of one LOAD segment afresh, from the lowest on, and
/// copies the segment's file bytes into them. Returns whether every page
/// got a frame, which is so exactly when the table has the frames that
/// [`segment_has_frames`] asks for. Where a page finds no frame free, the
/// pages below it are mapped, no frame is free, and the segment is not
/// done.
fn load_segment(memset: &mut MemSet, table: &mut FrameTable, elf_data: &[u8], seg: &SegmentHeader)
    -> (done: bool)
    requires
        old(memset).wf(),
        old(table).wf(),
        old(memset).backed_by(old(table)),
        segment_ok(*seg, elf_data@.len() as int),
    ensures
        final(memset).wf(),
        final(table).wf(),
        final(memset).backed_by(final(table)),
        final(table).regions() == old(table).regions(),
        final(table).reserved().difference(final(memset).frames()) ==
            old(table).reserved().difference(old(memset).frames()),
        done ==> final(memset).image() == image_with_segment(
            old(memset).image(),
            elf_data@,
            *seg,
            u64::MAX + 1,
        ),
        done <==> segment_has_frames(
            old(memset).image(),
            *seg,
            old(table).free_count() as int,
        ),
        done ==> final(table).free_count() + segment_takes(old(memset).image(), *seg)
            == old(table).free_count(),
        !done ==> !final(table).has_free() && exists|upto: u64|
            {
                &&& segment_covers(*seg, upto)
                &&& #[trigger] image_with_segment(
                    old(memset).image(),
                    elf_data@,
                    *seg,
                    upto as int,
                ) == final(memset).image()
            },
{
    if !seg.load || seg.mem_size == 0 {
        assert(memset.image() =~= image_with_segment(
            old(memset).image(),
            elf_data@,
            *seg,
            u64::MAX + 1,
        ));
        return true;
    }
    let first: u64 = seg.virtual_addr / 4096;
    let last: u64 = (seg.virtual_addr + seg.mem_size - 1) / 4096;
    let file_end: u64 = seg.virtual_addr + seg.file_size;
    let total = elf_data.len();
    let mut vpn: u64 = first;
    proof {
        assert(memset.image() =~= image_with_segment(
            old(memset).image(),
            elf_data@,
            *seg,
            first as int,
        ));
    }
    loop
        invariant
            memset.wf(),
            table.wf(),
            memset.backed_by(table),
            table.regions() == old(table).regions(),
            segment_ok(*seg, elf_data@.len() as int),
            seg.load,
            seg.mem_size > 0,
            first == seg.virtual_addr / 4096,
            last == (seg.virtual_addr + seg.mem_size - 1) / 4096,
            file_end == seg.virtual_addr + seg.file_size,
            first <= vpn <= last,
            elf_data@.len() == total,
            table.reserved().difference(memset.frames()) == old(table).reserved().difference(
                old(memset).frames(),
            ),
            memset.image() == image_with_segment(
                old(memset).image(),
                elf_data@,
                *seg,
                vpn as int,
            ),
            table.free_count() + unmapped_between(old(memset).image(), first as int, vpn as int)
                == old(table).free_count(),
        decreases last - vpn,
    {
        let page_base: u64 = vpn * 4096;
        let start_off: u64 = if seg.virtual_addr > page_base {
            seg.virtual_addr - page_base
        } else {
            0
        };
        let end_off: u64 = if file_end <= page_base {
            0
        } else if file_end - page_base >= 4096 {
            4096
        } else {
            file_end - page_base
        };
        let ghost before = memset.image();
        let ghost set_before = *memset;
        let ghost table_before = *table;
        proof {
            assert(seg.virtual_addr < page_base + 4096);
            assert(page_base <= seg.virtual_addr + seg.mem_size - 1);
            assert(start_off < 4096);
            assert(page_base + start_off >= seg.virtual_addr);
            if start_off < end_off {
                assert(page_base + end_off <= file_end);
            }
        }
        let mapped = if start_off < end_off {
            let from: u64 = seg.offset + (page_base + start_off - seg.virtual_addr);
            let to: u64 = seg.offset + (page_base + end_off - seg.virtual_addr);
            let data = slice_subrange(elf_data, from as usize, to as usize);
            let r = memset.map_filled(table, vpn, start_off as usize, data);
            proof {
                if r is Some {
                    assert(filled_page(start_off as int, data@) =~= segment_page(
                        elf_data@,
                        *seg,
                        vpn,
                    ));
                }
            }
            r
        } else {
            let r = memset.map_page(table, vpn);
            proof {
                if r is Some {
                    assert(memset.bytes(vpn) =~= segment_page(elf_data@, *seg, vpn));
                }
            }
            r
        };
        if mapped.is_none() {
            proof {
                assert(memset.image() =~= before);
                assert(segment_covers(*seg, vpn));
                table_before.lemma_free_count();
                lemma_unmapped_between_grows(
                    old(memset).image(),
                    first as int,
                    vpn as int,
                    last as int,
                );
            }
            return false;
        }
        proof {
            table_before.lemma_free_count();
            lemma_fresh_page_takes_a_frame(
                &set_before,
                &table_before,
                table,
                vpn,
                mapped->Some_0,
            );
            assert(set_before.mapped(vpn) <==> old(memset).image().contains_key(vpn)) by {
                assert(before.contains_key(vpn) <==> set_before.mapped(vpn));
                assert(before == image_with_segment(
                    old(memset).image(),
                    elf_data@,
                    *seg,
                    vpn as int,
                ));
            }
            let fresh: nat = if old(memset).image().contains_key(vpn) {
                0
            } else {
                1
            };
            assert(unmapped_between(old(memset).image(), first as int, vpn + 1)
                == unmapped_between(old(memset).image(), first as int, vpn as int) + fresh);
            assert(memset.image() =~= image_with_segment(
                old(memset).image(),
                elf_data@,
                *seg,
                vpn + 1,
            )) by {
                let target = image_with_segment(old(memset).image(), elf_data@, *seg, vpn + 1);
                assert forall|v: u64| memset.image().contains_key(v) <==> target.contains_key(
                    v,
                ) by {
                    if v != vpn {
                        assert(memset.mapped(v) <==> before.contains_key(v));
                    }
                }
                assert forall|v: u64| memset.image().contains_key(v) implies memset.image()[v]
                    == target[v] by {
                    if v != vpn {
                        assert(memset.pages()[v] == memset.pages()[v]);
                        assert(before.contains_key(v));
                        assert(memset.bytes(v) == before[v]);
                    }
                }
            }
        }
        if vpn == last {
            proof {
                assert(image_with_segment(old(memset).image(), elf_data@, *seg, vpn + 1)
                    =~= image_with_segment(
                    old(memset).image(),
                    elf_data@,
                    *seg,
                    u64::MAX + 1,
                ));
            }
            return true;
        }
        vpn = vpn + 1;
    }
}


/// Maps the pages of the user stack afresh, from the lowest on, and
/// fills them with `stack`. Returns whether every page got a frame, which
/// is so exactly when the table has the frames that [`stack_has_frames`]
/// asks for. Where a page finds no frame free, the pages below it are
/// mapped, no frame is free, and the stack is not done.
fn map_stack(memset: &mut MemSet, table: &mut FrameTable, stack: &Vec<u8>) -> (done: bool)
    requires
        old(memset).wf(),
        old(table).wf(),
        old(memset).backed_by(old(table)),
        stack@.len() == 0x8000,
    ensures
        final(memset).wf(),
        final(table).wf(),
        final(memset).backed_by(final(table)),
        final(table).regions() == old(table).regions(),
        final(table).reserved().difference(final(memset).frames()) ==
            old(table).reserved().difference(old(memset).frames()),
        done ==> final(memset).image() == image_with_stack(
            old(memset).image(),
            stack@,
            u64::MAX + 1,
        ),
        done <==> stack_has_frames(old(memset).image(), old(table).free_count() as int),
        !done ==> !final(table).has_free() && exists|upto: u64|
            {
                &&& stack_covers(upto)
                &&& #[trigger] image_with_stack(old(memset).image(), stack@, upto as int)
                    == final(memset).image()
            },
{
    let first: u64 = USER_STACK_BASE / 4096;
    let mut k: u64 = 0;
    proof {
        assert(memset.image() =~= image_with_stack(old(memset).image(), stack@, first as int));
    }
    while k < 8
        invariant
            k <= 8,
            first == USER_STACK_BASE / 4096,
            stack@.len() == 0x8000,
            memset.wf(),
            table.wf(),
            memset.backed_by(table),
            table.regions() == old(table).regions(),
            table.reserved().difference(memset.frames()) == old(table).reserved().difference(
                old(memset).frames(),
            ),
            memset.image() == image_with_stack(old(memset).image(), stack@, first + k),
            table.free_count() + unmapped_between(old(memset).image(), first as int, first + k)
                == old(table).free_count(),
            k > 0 ==> old(table).free_count() > unmapped_between(
                old(memset).image(),
                first as int,
                first + k - 1,
            ),
        decreases 8 - k,
    {
        let vpn: u64 = first + k;
        let ghost before = memset.image();
        let ghost set_before = *memset;
        let ghost table_before = *table;
        let from: usize = (k * 4096) as usize;
        let page = slice_subrange(stack.as_slice(), from, from + 4096);
        if memset.map_filled(table, vpn, 0, page).is_none() {
            proof {
                assert(memset.image() =~= before);
                assert(stack_covers(vpn));
                table_before.lemma_free_count();
                lemma_unmapped_between_grows(
                    old(memset).image(),
                    first as int,
                    first + k,
                    first + 7,
                );
            }
            return false;
        }
        proof {
            table_before.lemma_free_count();
            lemma_fresh_page_takes_a_frame(
                &set_before,
                &table_before,
                table,
                vpn,
                memset.frame(vpn),
            );
            assert(set_before.mapped(vpn) <==> old(memset).image().contains_key(vpn)) by {
                assert(before.contains_key(vpn) <==> set_before.mapped(vpn));
                assert(before == image_with_stack(old(memset).image(), stack@, first + k));
            }
            let fresh: nat = if old(memset).image().contains_key(vpn) {
                0
            } else {
                1
            };
            assert(unmapped_between(old(memset).image(), first as int, first + k + 1)
                == unmapped_between(old(memset).image(), first as int, first + k) + fresh);
            assert(filled_page(0, page@) =~= page@);
            let target = image_with_stack(old(memset).image(), stack@, first + k + 1);
            assert forall|v: u64| memset.image().contains_key(v) <==> target.contains_key(v) by {
                if v != vpn {
                    assert(memset.mapped(v) <==> before.contains_key(v));
                }
            }
            assert forall|v: u64| memset.image().contains_key(v) implies memset.image()[v]
                == target[v] by {
                if v != vpn {
                    assert(before.contains_key(v));
                    assert(memset.bytes(v) == before[v]);
                }
            }
            assert(memset.image() =~= target);
        }
        k = k + 1;
    }
    proof {
        assert(image_with_stack(old(memset).image(), stack@, first + 8) =~= image_with_stack(
            old(memset).image(),
            stack@,
            u64::MAX + 1,
        ));
    }
    true
}

/// The bytes of each argument string.
fn collect_args(args: &[&str]) -> (bytes: Vec<Vec<u8>>)
    ensures
        byte_seqs(bytes@) == args_bytes(args@),
{
    let mut bytes: Vec<Vec<u8>> = Vec::new();
    let mut i: usize = 0;
    while i < args.len()
        invariant
            i <= args@.len(),
            bytes@.len() == i,
            forall|k: int| 0 <= k < i ==> (#[trigger] bytes@[k])@ == args@[k].spec_bytes(),
        decreases args@.len() - i,
    {
        bytes.push(vstd::slice::slice_to_vec(args[i].as_bytes()));
        i = i + 1;
    }
    assert(byte_seqs(bytes@) =~= args_bytes(args@));
    bytes
}

/// What building a task yields: from a table `before`, for the file
/// `elf` with the program headers `segments`, to start at `entry` with the
/// arguments `args`, the result `r` and the table `after`.
///
/// A task is owed unless a segment is bad, an argument is missing, the
/// arguments do not fit, or the table has not the free frames that
/// [`task_has_frames`] asks for, in which case it is out of memory. The
/// task holds exactly the image that the segments and the stack make up;
/// its program counter is the entry point and its stack pointer the
/// initial one, which lies below the stack top at a word boundary; and of
/// the table's frames exactly those that back the task's pages have
/// become outstanding. Where no task is built, the frames that are free
/// and those that are outstanding are the same as before.
pub open spec fn built(
    elf: Seq<u8>,
    entry: u64,
    segments: Seq<SegmentHeader>,
    args: Seq<Seq<u8>>,
    before: &FrameTable,
    after: &FrameTable,
    r: Result<Task, TaskError>,
) -> bool {
    &&& after.regions() == before.regions()
    &&& match r {
        Ok(task) => {
            &&& segments_ok(segments, elf.len() as int)
            &&& args.len() >= 1
            &&& stack_fits(args)
            &&& task_has_frames(elf, segments, before.free_count() as int)
            &&& task.memset.wf()
            &&& task.memset.backed_by(after)
            &&& task.memset.image() == task_image(elf, segments, entry, args)
            &&& after.reserved() == before.reserved().union(task.memset.frames())
            &&& before.reserved().disjoint(task.memset.frames())
            &&& task.trap_frame.sepc == entry
            &&& task.trap_frame.sp == initial_sp(args)
            &&& USER_STACK_BASE <= task.trap_frame.sp < DEFAULT_USER_STACK_TOP
            &&& task.trap_frame.sp % ALIGN_SIZE == 0
            &&& task.trap_frame.ra == 0
            &&& task.trap_frame.ret == 0
            &&& task.trap_frame.tls == 0
            &&& task.trap_frame.syscall == 0
            &&& forall|i: int| 0 <= i < 6 ==> task.trap_frame.args[i] == 0
        },
        Err(e) => {
            &&& e == TaskError::BadSegment <==> !segments_ok(segments, elf.len() as int)
            &&& e == TaskError::NoArguments <==> segments_ok(segments, elf.len() as int)
                && args.len() == 0
            &&& e == TaskError::ArgsTooLong <==> segments_ok(segments, elf.len() as int)
                && args.len() >= 1 && !stack_fits(args)
            &&& e == TaskError::OutOfMemory <==> segments_ok(segments, elf.len() as int)
                && args.len() >= 1 && stack_fits(args) && !task_has_frames(
                elf,
                segments,
                before.free_count() as int,
            )
            &&& e != TaskError::NotElf
            &&& e != TaskError::BadProgramTable
            &&& e != TaskError::OutOfMemory ==> after.outstanding() == before.outstanding()
            &&& after.reserved() == before.reserved()
            &&& after.free() == before.free()
        },
    }
}

impl Task {
    /// Builds a task from what was read of an ELF image: maps each LOAD
    /// segment of `segments` page by page and copies its bytes from
    /// `elf_data`, maps the stack, lays the arguments and the vectors out
    /// on it, and sets the program counter to `entry` and the stack
    /// pointer to the initial one. See [`built`].
    pub fn build(
        table: &mut FrameTable,
        elf_data: &[u8],
        entry: u64,
        segments: &Vec<SegmentHeader>,
        args: &[&str],
    ) -> (r: Result<Task, TaskError>)
        requires
            old(table).wf(),
        ensures
            final(table).wf(),
            built(elf_data@, entry, segments@, args_bytes(args@), old(table), final(table), r),
    {
        if !check_segments(segments, elf_data.len()) {
            return Err(TaskError::BadSegment);
        }
        let arg_bytes = collect_args(args);
        let (stack, sp) = match build_stack(&arg_bytes, entry) {
            Ok(laid) => laid,
            Err(StackError::NoArguments) => {
                return Err(TaskError::NoArguments);
            },
            Err(StackError::TooLong) => {
                return Err(TaskError::ArgsTooLong);
            },
        };
        let mut memset = MemSet::new();
        proof {
            assert(memset.frames() =~= Set::<int>::empty());
            assert(memset.image() =~= segments_image(elf_data@, segments@.subrange(0, 0)));
            assert(segments_take(elf_data@, segments@.subrange(0, 0)) == 0);
            assert(segments_have_frames(
                elf_data@,
                segments@.subrange(0, 0),
                old(table).free_count() as int,
            ));
        }
        let mut i: usize = 0;
        while i < segments.len()
            invariant
                i <= segments@.len(),
                segments_ok(segments@, elf_data@.len() as int),
                args_bytes(args@).len() >= 1,
                stack_fits(args_bytes(args@)),
                old(table).wf(),
                memset.wf(),
                table.wf(),
                memset.backed_by(table),
                table.regions() == old(table).regions(),
                table.reserved().difference(memset.frames()) == old(table).reserved(),
                memset.image() == segments_image(elf_data@, segments@.subrange(0, i as int)),
                table.free_count() + segments_take(elf_data@, segments@.subrange(0, i as int))
                    == old(table).free_count(),
                segments_have_frames(
                    elf_data@,
                    segments@.subrange(0, i as int),
                    old(table).free_count() as int,
                ),
            decreases segments@.len() - i,
        {
            let ghost taken = segments_take(elf_data@, segments@.subrange(0, i as int));
            let ghost image = memset.image();
            proof {
                let upto = segments@.subrange(0, i + 1);
                assert(upto.drop_last() =~= segments@.subrange(0, i as int));
                assert(upto.last() == segments@[i as int]);
                assert(segment_ok(segments@[i as int], elf_data@.len() as int));
                assert(segments_take(elf_data@, upto) == taken + segment_takes(
                    image,
                    segments@[i as int],
                ));
                assert(table.free_count() == old(table).free_count() - taken);
            }
            if !load_segment(&mut memset, table, elf_data, &segments[i]) {
                proof {
                    let free = old(table).free_count() as int;
                    assert(!segments_have_frames(elf_data@, segments@.subrange(0, i + 1), free));
                    if segments_have_frames(elf_data@, segments@, free) {
                        lemma_first_segments_have_frames(elf_data@, segments@, free, i + 1);
                    }
                }
                memset.release_all(table);
                proof {
                    old(table).lemma_free_is_managed_less_reserved();
                    table.lemma_free_is_managed_less_reserved();
                }
                return Err(TaskError::OutOfMemory);
            }
            proof {
                assert(segments_have_frames(
                    elf_data@,
                    segments@.subrange(0, i + 1),
                    old(table).free_count() as int,
                ));
            }
            i = i + 1;
        }
        proof {
            assert(segments@.subrange(0, i as int) =~= segments@);
        }
        if !map_stack(&mut memset, table, &stack) {
            proof {
                assert(!task_has_frames(elf_data@, segments@, old(table).free_count() as int));
            }
            memset.release_all(table);
            proof {
                old(table).lemma_free_is_managed_less_reserved();
                table.lemma_free_is_managed_less_reserved();
            }
            return Err(TaskError::OutOfMemory);
        }
        let mut trap_frame = TrapFrame::new();
        trap_frame.sepc = entry;
        trap_frame.sp = sp;
        proof {
            assert(table.reserved() =~= old(table).reserved().union(memset.frames())) by {
                assert forall|f: int| memset.frames().contains(f) implies table.reserved().contains(
                    f,
                ) by {
                    let v = choose|v: u64| memset.mapped(v) && #[trigger] memset.frame(v) == f;
                    assert(table.reserved().contains(memset.frame(v) as int));
                }
            }
        }
        Ok(Task { trap_frame, memset })
    }

    /// What loading the ELF image `elf` with the arguments `args` yields:
    /// the reading of the image decides whether it is refused as no ELF
    /// file or for its table of program headers; what was read is then
    /// built into a task as [`built`] says.
    pub open spec fn loaded(
        elf: Seq<u8>,
        args: Seq<Seq<u8>>,
        before: &FrameTable,
        after: &FrameTable,
        r: Result<Task, TaskError>,
    ) -> bool {
        match parse_spec(elf) {
            Err(e) => {
                &&& after.regions() == before.regions()
                &&& after.outstanding() == before.outstanding()
                &&& after.reserved() == before.reserved()
                &&& after.free() == before.free()
                &&& r is Err
                &&& r->Err_0 == match e {
                    ElfError::NotElf => TaskError::NotElf,
                    ElfError::BadProgramTable => TaskError::BadProgramTable,
                }
            },
            Ok((header, segments)) => built(
                elf,
                header.entry_point,
                segments,
                args,
                before,
                after,
                r,
            ),
        }
    }

    /// Create a new Monolithic Task from the given elf file: reads the
    /// image's headers and builds the task from them. See [`Task::loaded`].
    pub fn from_elf(table: &mut FrameTable, elf_data: &[u8], args: &[&str]) -> (r: Result<
        Task,
        TaskError,
    >)
        requires
            old(table).wf(),
        ensures
            final(table).wf(),
            Task::loaded(elf_data@, args_bytes(args@), old(table), final(table), r),
    {
        match parse(elf_data) {
            Err(ElfError::NotElf) => Err(TaskError::NotElf),
            Err(ElfError::BadProgramTable) => Err(TaskError::BadProgramTable),
            Ok((header, segments)) => Task::build(
                table,
                elf_data,
                header.entry_point,
                &segments,
                args,
            ),
        }
    }
}


impl Task {
    /// Handles one exit of the task from user mode, on the task's own
    /// register frame. See [`handle_escape`].
    pub fn on_escape(&mut self, reason: EscapeReason) -> (action: UserAction)
        ensures
            final(self).memset == old(self).memset,
            action == escape_outcome(old(self).trap_frame, reason).1,
            final(self).trap_frame == escape_outcome(old(self).trap_frame, reason).0,
    {
        handle_escape(&mut self.trap_frame, reason)
    }
}

} // verus!
