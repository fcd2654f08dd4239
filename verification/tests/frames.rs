use quados::config::PAGE_SIZE;
use quados::mem::allocator::{extension_range, heap_need, HeapArena, HeapNeed, HeapStep};
use quados::mem::frames::{
    alloc_page, alloc_page_raw, alloc_pages, alloc_pages_raw, block_frames_for,
    dealloc_pages_raw, FrameError, FrameRange, FrameTable, MAX_BLOCK_FRAMES,
};
use quados::mem::{frames_in_window, init};

fn table_with(start: usize, end: usize) -> FrameTable {
    let mut table = FrameTable::new();
    assert!(table.add_region(start, end));
    table
}

fn count_free(table: &FrameTable, start: usize, end: usize) -> usize {
    (start..end).filter(|frame| table.is_free(*frame)).count()
}

#[test]
fn block_sizes_are_powers_of_two() {
    assert_eq!(block_frames_for(0), 1);
    assert_eq!(block_frames_for(1), 1);
    assert_eq!(block_frames_for(2), 2);
    assert_eq!(block_frames_for(3), 4);
    assert_eq!(block_frames_for(4), 4);
    assert_eq!(block_frames_for(5), 8);
    assert_eq!(block_frames_for(1000), 1024);
    assert_eq!(block_frames_for(MAX_BLOCK_FRAMES), MAX_BLOCK_FRAMES);
}

#[test]
fn new_table_holds_nothing() {
    let mut table = FrameTable::new();
    assert!(table.region_list().is_empty());
    assert!(table.outstanding_list().is_empty());
    assert!(!table.is_free(0));
    assert_eq!(table.allocate(1), None);
}

#[test]
fn add_region_makes_frames_free() {
    let table = table_with(16, 32);
    assert_eq!(table.region_list(), vec![FrameRange { start: 16, count: 16 }]);
    assert!(!table.is_free(15));
    assert!(table.is_free(16));
    assert!(table.is_free(31));
    assert!(!table.is_free(32));
    assert_eq!(count_free(&table, 0, 64), 16);
}

#[test]
fn add_region_refuses_empty_and_overlapping_windows() {
    let mut table = table_with(16, 32);
    assert!(!table.add_region(40, 40));
    assert!(!table.add_region(41, 40));
    assert!(!table.add_region(31, 33));
    assert!(!table.add_region(0, 17));
    assert!(!table.add_region(20, 24));
    assert!(table.add_region(32, 48));
    assert!(table.add_region(0, 16));
    assert_eq!(
        table.region_list(),
        vec![
            FrameRange { start: 16, count: 16 },
            FrameRange { start: 32, count: 16 },
            FrameRange { start: 0, count: 16 },
        ]
    );
    assert_eq!(count_free(&table, 0, 64), 48);
}

#[test]
fn the_largest_block_can_be_had_from_a_large_window() {
    let mut table = FrameTable::new();
    assert!(table.add_region(0, 1 << 34));
    let run = table.allocate(MAX_BLOCK_FRAMES).expect("a block");
    assert_eq!(run.count, MAX_BLOCK_FRAMES);
    assert_eq!(run.start % MAX_BLOCK_FRAMES, 0);
    assert!(table.is_reserved(run.start + MAX_BLOCK_FRAMES - 1));
    assert!(!table.is_reserved(run.start + MAX_BLOCK_FRAMES));
    assert_eq!(table.deallocate(run.start, MAX_BLOCK_FRAMES), Ok(()));
    assert!(table.is_free(run.start));
}

#[test]
fn allocated_frames_leave_the_free_set() {
    let mut table = table_with(16, 32);
    let run = table.allocate(1).expect("a frame");
    assert_eq!(run.count, 1);
    assert!((16..32).contains(&run.start));
    assert!(!table.is_free(run.start));
    assert!(table.is_reserved(run.start));
    assert_eq!(count_free(&table, 0, 64), 15);
    assert_eq!(table.outstanding_list(), vec![FrameRange { start: run.start, count: 1 }]);
}

#[test]
fn a_request_reserves_the_next_power_of_two() {
    let mut table = table_with(0, 16);
    let run = table.allocate(3).expect("a block");
    assert_eq!(run.count, 3);
    assert_eq!(table.outstanding_list(), vec![FrameRange { start: run.start, count: 4 }]);
    for frame in run.start..run.start + 4 {
        assert!(table.is_reserved(frame));
        assert!(!table.is_free(frame));
    }
    assert_eq!(count_free(&table, 0, 16), 12);
}

#[test]
fn a_request_for_no_frame_reserves_one() {
    let mut table = table_with(0, 4);
    let run = table.allocate(0).expect("a block");
    assert_eq!(run.count, 0);
    assert_eq!(table.outstanding_list(), vec![FrameRange { start: run.start, count: 1 }]);
    assert_eq!(count_free(&table, 0, 4), 3);
}

#[test]
fn allocations_never_overlap() {
    let mut table = table_with(0, 64);
    let mut seen = vec![false; 64];
    for count in [1usize, 2, 3, 4, 5, 8, 1, 1, 7] {
        let run = table.allocate(count).expect("a block");
        let size = block_frames_for(count);
        for frame in run.start..run.start + size {
            assert!(!seen[frame], "frame {frame} handed out twice");
            seen[frame] = true;
        }
    }
    let taken = seen.iter().filter(|s| **s).count();
    assert_eq!(count_free(&table, 0, 64), 64 - taken);
    for frame in 0..64 {
        assert_eq!(table.is_free(frame), !seen[frame]);
        assert_eq!(table.is_reserved(frame), seen[frame]);
    }
}

#[test]
fn exhausted_table_answers_none_and_stays_as_it_is() {
    let mut table = table_with(0, 4);
    assert!(table.allocate(4).is_some());
    let before = table.outstanding_list();
    assert_eq!(table.allocate(1), None);
    assert_eq!(table.outstanding_list(), before);
    assert_eq!(count_free(&table, 0, 4), 0);
}

#[test]
fn scattered_frames_do_not_make_a_block() {
    let mut table = FrameTable::new();
    assert!(table.add_region(1, 3));
    assert_eq!(table.allocate(2), None);
    assert_eq!(count_free(&table, 0, 4), 2);
    assert!(table.allocate(1).is_some());
    assert!(table.allocate(1).is_some());
    assert_eq!(table.allocate(1), None);
}

#[test]
fn a_request_beyond_the_largest_block_is_refused() {
    let mut table = table_with(0, 16);
    assert_eq!(table.allocate(MAX_BLOCK_FRAMES + 1), None);
    assert_eq!(table.deallocate(0, MAX_BLOCK_FRAMES + 1), Err(FrameError::TooLarge));
    assert_eq!(alloc_pages_raw(&mut table, usize::MAX), None);
    assert_eq!(count_free(&table, 0, 16), 16);
}

#[test]
fn deallocate_returns_the_frames() {
    let mut table = table_with(0, 16);
    let run = table.allocate(4).expect("a block");
    assert_eq!(count_free(&table, 0, 16), 12);
    assert_eq!(table.deallocate(run.start, 4), Ok(()));
    assert_eq!(count_free(&table, 0, 16), 16);
    assert!(table.outstanding_list().is_empty());
    assert!(table.allocate(16).is_some());
}

#[test]
fn double_free_is_refused() {
    let mut table = table_with(0, 16);
    let run = table.allocate(2).expect("a block");
    assert_eq!(table.deallocate(run.start, 2), Ok(()));
    assert_eq!(table.deallocate(run.start, 2), Err(FrameError::NotAllocated));
    assert_eq!(count_free(&table, 0, 16), 16);
}

#[test]
fn release_of_frames_never_handed_out_is_refused() {
    let mut table = table_with(0, 16);
    assert_eq!(table.deallocate(3, 1), Err(FrameError::NotAllocated));
    assert_eq!(table.deallocate(100, 1), Err(FrameError::NotAllocated));
    let run = table.allocate(2).expect("a block");
    let other = if run.start == 0 { 8 } else { 0 };
    assert_eq!(table.deallocate(other, 2), Err(FrameError::NotAllocated));
    assert_eq!(table.deallocate(run.start, 4), Err(FrameError::NotAllocated));
    assert_eq!(table.outstanding_list(), vec![FrameRange { start: run.start, count: 2 }]);
    assert_eq!(count_free(&table, 0, 16), 14);
}

#[test]
fn a_release_carves_its_block_out_of_the_run() {
    let mut table = table_with(0, 16);
    let run = table.allocate(8).expect("a block");
    let s = run.start;
    // From the middle: both rests stay.
    assert_eq!(table.deallocate(s + 2, 2), Ok(()));
    assert_eq!(
        table.outstanding_list(),
        vec![FrameRange { start: s, count: 2 }, FrameRange { start: s + 4, count: 4 }]
    );
    // From the front of a run: the rest behind it stays in its place.
    assert_eq!(table.deallocate(s + 4, 1), Ok(()));
    assert_eq!(
        table.outstanding_list(),
        vec![FrameRange { start: s, count: 2 }, FrameRange { start: s + 5, count: 3 }]
    );
    // From the back of a run: the rest before it stays.
    assert_eq!(table.deallocate(s + 1, 1), Ok(()));
    assert_eq!(
        table.outstanding_list(),
        vec![FrameRange { start: s, count: 1 }, FrameRange { start: s + 5, count: 3 }]
    );
    // A whole run: it is removed.
    assert_eq!(table.deallocate(s, 1), Ok(()));
    assert_eq!(table.outstanding_list(), vec![FrameRange { start: s + 5, count: 3 }]);
    // A block that spans what was released is refused.
    assert_eq!(table.deallocate(s + 4, 2), Err(FrameError::NotAllocated));
    for frame in s..s + 8 {
        assert_eq!(table.is_reserved(frame), frame >= s + 5);
        assert_eq!(table.is_free(frame), frame < s + 5);
    }
}

#[test]
fn free_set_is_what_was_given_less_what_is_outstanding() {
    let mut table = table_with(8, 40);
    let mut held: Vec<(usize, usize)> = Vec::new();
    let requests = [1usize, 4, 2, 1, 8, 3, 1];
    for (round, count) in requests.iter().enumerate() {
        if let Some(run) = table.allocate(*count) {
            held.push((run.start, *count));
        }
        if round % 3 == 2 {
            let (start, count) = held.remove(0);
            assert_eq!(table.deallocate(start, count), Ok(()));
        }
        let outstanding: usize = held.iter().map(|(_, c)| block_frames_for(*c)).sum();
        assert_eq!(count_free(&table, 0, 64), 32 - outstanding);
        for frame in 0..64 {
            let managed = (8..40).contains(&frame);
            let reserved =
                held.iter().any(|(s, c)| (*s..*s + block_frames_for(*c)).contains(&frame));
            assert_eq!(table.is_free(frame), managed && !reserved);
            assert_eq!(table.is_reserved(frame), reserved);
        }
    }
    while let Some((start, count)) = held.pop() {
        assert_eq!(table.deallocate(start, count), Ok(()));
    }
    assert_eq!(count_free(&table, 0, 64), 32);
    assert!(table.outstanding_list().is_empty());
}

#[test]
fn raw_pages_are_single_frames() {
    let mut table = table_with(4, 8);
    let a = alloc_page_raw(&mut table).expect("a frame");
    let b = alloc_page_raw(&mut table).expect("a frame");
    assert_ne!(a, b);
    assert!((4..8).contains(&a) && (4..8).contains(&b));
    assert!(table.holds(a, 1));
    dealloc_pages_raw(&mut table, a, 1);
    assert!(!table.holds(a, 1));
    assert_eq!(table.deallocate(a, 1), Err(FrameError::NotAllocated));
    assert!(table.is_free(a));
    assert!(!table.is_free(b));
}

#[test]
fn raw_runs_are_contiguous_blocks() {
    let mut table = table_with(0, 32);
    let start = alloc_pages_raw(&mut table, 6).expect("a block");
    assert_eq!(table.outstanding_list(), vec![FrameRange { start, count: 8 }]);
    assert!(table.holds(start, 6) && table.holds(start + 4, 3));
    assert!(!table.holds(start + 4, 5) && !table.holds(start, MAX_BLOCK_FRAMES + 1));
    dealloc_pages_raw(&mut table, start, 6);
    assert_eq!(count_free(&table, 0, 32), 32);
    assert!(table.outstanding_list().is_empty());
}

#[test]
fn pages_come_zero_filled() {
    let mut table = table_with(0, 1);
    let mut page = alloc_page(&mut table).expect("a page");
    assert_eq!(page.ppn(), 0);
    assert_eq!(page.get_buffer().len(), PAGE_SIZE);
    assert!(page.get_buffer().iter().all(|b| *b == 0));
    page.write(10, b"dirty");
    assert_eq!(&page.get_buffer()[10..15], b"dirty");
    assert_eq!(page.get_buffer()[9], 0);
    assert_eq!(page.get_buffer()[15], 0);
    assert_eq!(page.release(&mut table), Ok(()));
    // The one frame comes out again, and holds zeros again.
    let again = alloc_page(&mut table).expect("a page");
    assert_eq!(again.ppn(), 0);
    assert!(again.get_buffer().iter().all(|b| *b == 0));
}

#[test]
fn a_page_of_another_table_is_refused() {
    let mut table = table_with(0, 4);
    let mut other = table_with(10, 14);
    let page = alloc_page(&mut other).expect("a page");
    assert_eq!(page.release(&mut table), Err(FrameError::NotAllocated));
    assert_eq!(count_free(&table, 0, 4), 4);
}

#[test]
fn page_address_is_frame_times_page_size() {
    let mut table = table_with(7, 8);
    let page = alloc_page(&mut table).expect("a page");
    assert_eq!(page.to_addr(), Some(7 * PAGE_SIZE));
}

#[test]
fn alloc_pages_hands_out_consecutive_frames() {
    let mut table = table_with(0, 16);
    let pages = alloc_pages(&mut table, 3).expect("pages");
    assert_eq!(pages.len(), 3);
    let start = pages[0].ppn();
    for (k, page) in pages.iter().enumerate() {
        assert_eq!(page.ppn(), start + k);
        assert!(page.get_buffer().iter().all(|b| *b == 0));
    }
    assert_eq!(table.outstanding_list(), vec![FrameRange { start, count: 4 }]);
    // Each page goes back on its own; the slack of the block stays out.
    for page in pages {
        assert_eq!(page.release(&mut table), Ok(()));
    }
    assert_eq!(table.outstanding_list(), vec![FrameRange { start: start + 3, count: 1 }]);
    assert_eq!(count_free(&table, 0, 16), 15);
    assert!(alloc_pages(&mut table, 32).is_none());
}

#[test]
fn window_leaves_the_kernel_image_out() {
    // The image ends inside the area: the area starts behind it.
    assert_eq!(
        frames_in_window((0x8000_0000, 0x10_0000), 0x8002_0123, 0),
        Some(FrameRange { start: 0x80021, count: 0x100 - 0x21 })
    );
    // The image ends at a page boundary.
    assert_eq!(
        frames_in_window((0x8000_0000, 0x10_0000), 0x8002_0000, 0),
        Some(FrameRange { start: 0x80020, count: 0x100 - 0x20 })
    );
    // The image ends before the area: the whole area is usable.
    assert_eq!(
        frames_in_window((0x8000_0000, 0x10_0000), 0x7000_0000, 0),
        Some(FrameRange { start: 0x80000, count: 0x100 })
    );
    // The image ends behind the area: the whole area is usable.
    assert_eq!(
        frames_in_window((0x8000_0000, 0x10_0000), 0x9000_0000, 0),
        Some(FrameRange { start: 0x80000, count: 0x100 })
    );
    // The image ends exactly at the end of the area: nothing is left.
    assert_eq!(frames_in_window((0x8000_0000, 0x10_0000), 0x8010_0000, 0), None);
}

#[test]
fn window_is_translated_to_physical_frames() {
    let offset: usize = 0xffff_ffc0_0000_0000;
    assert_eq!(
        frames_in_window((offset + 0x8000_0000, 0x40_0000), offset + 0x8020_0001, offset),
        Some(FrameRange { start: 0x80201, count: 0x400 - 0x201 })
    );
}

#[test]
fn window_that_does_not_fit_is_refused() {
    assert_eq!(frames_in_window((usize::MAX - 10, 100), 0, 0), None);
    assert_eq!(frames_in_window((0x1000, 0x1000), usize::MAX, 0), None);
    assert_eq!(frames_in_window((0x1000, 0x1000), 0, 0x2000), None);
    assert_eq!(frames_in_window((0x1000, 0xfff), 0, 0), None);
    assert_eq!(frames_in_window((0x1000, 0), 0, 0), None);
}

#[test]
fn init_registers_each_usable_window() {
    let areas = [(0x8000_0000usize, 0x10_0000usize), (0x9000_0000, 0x2000), (0x8000_5000, 0x1000)];
    let table = init(&areas, 0x8000_4000, 0);
    // The third area lies within the first and is refused.
    assert_eq!(
        table.region_list(),
        vec![
            FrameRange { start: 0x80004, count: 0x100 - 4 },
            FrameRange { start: 0x90000, count: 2 },
        ]
    );
    assert!(table.outstanding_list().is_empty());
    assert!(!table.is_free(0x80003));
    assert!(table.is_free(0x80004));
    assert!(table.is_free(0x800ff));
    assert!(!table.is_free(0x80100));
    assert!(table.is_free(0x90001));
}

#[test]
fn init_without_areas_is_empty() {
    let table = init(&[], 0, 0);
    assert!(table.region_list().is_empty());
}

#[test]
fn heap_is_seeded_first() {
    let mut table = table_with(0, 64);
    let mut arena = HeapArena::new(0);
    assert_eq!(arena.prepare(&mut table, 0, 0, 100), HeapStep::Seed { size: 0x20_0000 });
    assert_eq!(arena.extension_count(), 0);
    assert_eq!(count_free(&table, 0, 64), 64);
}

#[test]
fn heap_with_headroom_is_left_alone() {
    let mut table = table_with(0, 64);
    let mut arena = HeapArena::new(0);
    // Headroom of exactly the request and one page suffices.
    assert_eq!(arena.prepare(&mut table, 0x20_0000, 0x10_0000, 0x10_0000 - 4096), HeapStep::Serve);
    assert_eq!(arena.prepare(&mut table, 10_000, 0, 10_000 - 4096), HeapStep::Serve);
    assert_eq!(count_free(&table, 0, 64), 64);
}

#[test]
fn heap_grows_by_the_request_and_ten_pages() {
    let mut table = table_with(0x100, 0x140);
    let offset = 0xffff_ffc0_0000_0000usize;
    let mut arena = HeapArena::new(offset);
    // One byte short of the headroom needed.
    let step = arena.prepare(&mut table, 10_000, 0, 10_000 - 4095);
    match step {
        HeapStep::Extend { start, end, first_frame, pages } => {
            // (5905 + 40959) / 4096 = 11
            assert_eq!(pages, 11);
            assert!((0x100..0x140).contains(&first_frame));
            assert_eq!(start, (first_frame * 4096) | offset);
            assert_eq!(end, start + 11 * 4096);
            for frame in first_frame..first_frame + 16 {
                assert!(table.is_reserved(frame));
            }
        }
        other => panic!("expected an extension, got {other:?}"),
    }
    assert_eq!(arena.extension_count(), 1);
    assert_eq!(count_free(&table, 0x100, 0x140), 64 - 16);
    match arena.prepare(&mut table, 1, 1, 0) {
        HeapStep::Extend { pages, .. } => assert_eq!(pages, 9),
        other => panic!("expected an extension, got {other:?}"),
    }
    assert_eq!(arena.extension_count(), 2);
}

#[test]
fn heap_growth_fails_without_frames() {
    let mut table = table_with(0, 8);
    let mut arena = HeapArena::new(0);
    assert_eq!(arena.prepare(&mut table, 4096, 4096, 1), HeapStep::Fail);
    assert_eq!(arena.extension_count(), 0);
    assert_eq!(count_free(&table, 0, 8), 8);
    assert_eq!(arena.prepare(&mut table, 4096, 8192, usize::MAX), HeapStep::Fail);
    assert_eq!(count_free(&table, 0, 8), 8);
}

#[test]
fn heap_growth_fails_where_the_block_has_no_addresses() {
    let top = usize::MAX / PAGE_SIZE;
    let mut table = table_with(top - 15, top + 1);
    let mut arena = HeapArena::new(0);
    // The last block of the address space: its end does not fit.
    assert_eq!(arena.prepare(&mut table, 4096, 4096, 4096 * 7), HeapStep::Fail);
    assert_eq!(arena.extension_count(), 0);
    assert_eq!(count_free(&table, top - 15, top + 1), 16);
    assert!(table.outstanding_list().is_empty());
}

#[test]
fn heap_need_follows_the_headroom() {
    assert_eq!(heap_need(0, 0, 0), HeapNeed::Seed { size: 0x20_0000 });
    assert_eq!(heap_need(0, 5, usize::MAX), HeapNeed::Seed { size: 0x20_0000 });
    // Headroom of the request and one page suffices.
    assert_eq!(heap_need(8192, 0, 4096), HeapNeed::Nothing);
    assert_eq!(heap_need(8192, 0, 4097), HeapNeed::Grow { pages: 11 });
    assert_eq!(heap_need(8192, 1, 4096), HeapNeed::Grow { pages: 10 });
    assert_eq!(heap_need(8192, 8192, 0), HeapNeed::Grow { pages: 9 });
    assert_eq!(heap_need(8192, 4096, 0), HeapNeed::Nothing);
    // More handed out than held counts as no headroom.
    assert_eq!(heap_need(8192, 9000, 1), HeapNeed::Grow { pages: 10 });
    // (size + 40959) / 4096
    assert_eq!(heap_need(1, 1, 1), HeapNeed::Grow { pages: 10 });
    assert_eq!(heap_need(1, 1, 4096), HeapNeed::Grow { pages: 10 });
    assert_eq!(heap_need(1, 1, 4097), HeapNeed::Grow { pages: 11 });
    assert_eq!(heap_need(1, 1, 1 << 20), HeapNeed::Grow { pages: 256 + 9 });
    // A request that cannot be counted in pages asks for all there are.
    assert_eq!(heap_need(1, 1, usize::MAX), HeapNeed::Grow { pages: usize::MAX / 4096 });
    assert_eq!(
        heap_need(1, 1, usize::MAX - 40959),
        HeapNeed::Grow { pages: usize::MAX / 4096 }
    );
    assert_eq!(
        heap_need(1, 1, usize::MAX - 40960),
        HeapNeed::Grow { pages: usize::MAX / 4096 }
    );
    assert_eq!(
        heap_need(1, 1, usize::MAX - 49150),
        HeapNeed::Grow { pages: usize::MAX / 4096 - 1 }
    );
}

#[test]
fn heap_extensions_are_kept_in_order() {
    let mut table = table_with(0, 64);
    let mut arena = HeapArena::new(0);
    assert_eq!(arena.seed(), HeapStep::Seed { size: 0x20_0000 });
    let first = match arena.extend(&mut table, 3) {
        HeapStep::Extend { start, end, first_frame, pages } => {
            assert_eq!(pages, 3);
            assert_eq!(start, first_frame * 4096);
            assert_eq!(end, start + 3 * 4096);
            first_frame
        }
        other => panic!("expected an extension, got {other:?}"),
    };
    let second = match arena.extend(&mut table, 16) {
        HeapStep::Extend { first_frame, .. } => first_frame,
        other => panic!("expected an extension, got {other:?}"),
    };
    assert_eq!(arena.extend(&mut table, 64), HeapStep::Fail);
    assert_eq!(arena.extend(&mut table, usize::MAX / 4096), HeapStep::Fail);
    assert_eq!(
        arena.extension_list(),
        vec![
            FrameRange { start: first, count: 3 },
            FrameRange { start: second, count: 16 },
        ]
    );
    // What the heap was given stays outstanding.
    assert_eq!(count_free(&table, 0, 64), 64 - 4 - 16);
}

#[test]
fn a_single_frame_is_had_exactly_while_one_is_free() {
    let mut table = table_with(3, 10);
    for left in (1..=7usize).rev() {
        assert_eq!(count_free(&table, 3, 10), left);
        assert!(alloc_page_raw(&mut table).is_some());
    }
    assert_eq!(count_free(&table, 3, 10), 0);
    assert_eq!(alloc_page_raw(&mut table), None);
    assert!(alloc_page(&mut table).is_none());
    assert_eq!(alloc_pages_raw(&mut table, 1), None);
    assert!(alloc_pages(&mut table, 1).is_none());
    assert_eq!(table.allocate(1), None);
    assert_eq!(table.allocate(0), None);
    // One frame comes back: one can be had again, in each way.
    dealloc_pages_raw(&mut table, 5, 1);
    assert_eq!(alloc_pages_raw(&mut table, 1), Some(5));
    dealloc_pages_raw(&mut table, 5, 1);
    assert_eq!(table.allocate(0), Some(FrameRange { start: 5, count: 0 }));
    dealloc_pages_raw(&mut table, 5, 1);
    let pages = alloc_pages(&mut table, 1).expect("a page");
    assert_eq!(pages.len(), 1);
    assert_eq!(pages[0].ppn(), 5);
}

#[test]
fn extension_range_is_the_block_seen_at_the_offset() {
    let offset = 0xffff_ffc0_0000_0000usize;
    assert_eq!(
        extension_range(3, 2, offset),
        Some((0xffff_ffc0_0000_3000, 0xffff_ffc0_0000_5000))
    );
    assert_eq!(extension_range(3, 0, 0), Some((0x3000, 0x3000)));
    let top = usize::MAX / PAGE_SIZE;
    assert_eq!(extension_range(top - 1, 1, 0), Some(((top - 1) * PAGE_SIZE, top * PAGE_SIZE)));
    // The last page's end, a frame beyond the address space, too many pages.
    assert_eq!(extension_range(top, 1, 0), None);
    assert_eq!(extension_range(top + 1, 0, 0), None);
    assert_eq!(extension_range(1, top + 1, 0), None);
    assert_eq!(extension_range(1, 1, usize::MAX), None);
}

#[test]
fn heap_grows_by_a_page_while_a_frame_is_free() {
    let mut table = table_with(4, 6);
    let mut arena = HeapArena::new(0);
    for _ in 0..2 {
        match arena.extend(&mut table, 1) {
            HeapStep::Extend { start, end, first_frame, pages } => {
                assert_eq!(pages, 1);
                assert_eq!(start, first_frame * PAGE_SIZE);
                assert_eq!(end, start + PAGE_SIZE);
            }
            other => panic!("expected an extension, got {other:?}"),
        }
    }
    assert_eq!(arena.extend(&mut table, 1), HeapStep::Fail);
    assert_eq!(arena.extension_count(), 2);
}

#[test]
fn heap_growth_fails_when_no_frame_is_free() {
    let mut table = FrameTable::new();
    let mut arena = HeapArena::new(0);
    assert_eq!(arena.extend(&mut table, 1), HeapStep::Fail);
    assert_eq!(arena.prepare(&mut table, 4096, 4096, 1), HeapStep::Fail);
    let mut table = table_with(0, 16);
    let held = table.allocate(16).expect("the whole window");
    assert_eq!(arena.prepare(&mut table, 4096, 4096, 1), HeapStep::Fail);
    assert_eq!(arena.extension_count(), 0);
    assert_eq!(table.outstanding_list(), vec![FrameRange { start: held.start, count: 16 }]);
}

#[test]
fn a_request_is_served_with_the_lowest_block_of_the_first_list_that_holds_one() {
    // One block of sixteen frames, split down as the requests come.
    let mut table = table_with(0, 16);
    assert_eq!(alloc_pages_raw(&mut table, 1), Some(0));
    assert_eq!(alloc_pages_raw(&mut table, 2), Some(2));
    assert_eq!(alloc_pages_raw(&mut table, 1), Some(1));
    assert_eq!(alloc_pages_raw(&mut table, 8), Some(8));
    assert_eq!(alloc_pages_raw(&mut table, 3), Some(4));
    assert_eq!(alloc_pages_raw(&mut table, 1), None);
    // Three frames are a block of two and a block of one.
    let mut table = table_with(0, 3);
    assert_eq!(alloc_page_raw(&mut table), Some(2));
    assert_eq!(alloc_pages_raw(&mut table, 2), Some(0));
    // A block of two that is free in two halves is no block of two.
    let mut table = table_with(1, 3);
    assert_eq!(alloc_pages_raw(&mut table, 2), None);
    assert_eq!(table.allocate(1).map(|run| run.start), Some(1));
}
