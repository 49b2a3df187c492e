use fractal_raster::interlace::{ticket_row, ROW_STRIDE};
use fractal_raster::pixel::{Point32, ScaleDirection, Size32};
use fractal_raster::raster::{fits, Claim, RasterBuffer, Snapshot, IDLE_DELAY_MS, ITERATION_STEP};

fn buffer(w: u32, h: u32) -> RasterBuffer {
    RasterBuffer::new(Size32 { w, h }, 10000).unwrap()
}

fn claim_row(buf: &mut RasterBuffer) -> (u32, Snapshot) {
    match buf.claim() {
        Claim::Row { row, snapshot } => (row, snapshot),
        other => panic!("expected a row, got {:?}", other),
    }
}

#[test]
fn ticket_rows_follow_the_stride() {
    assert_eq!(ROW_STRIDE, 31);
    assert_eq!(ticket_row(0, 600), 0);
    assert_eq!(ticket_row(1, 600), 31);
    assert_eq!(ticket_row(19, 600), 589);
    assert_eq!(ticket_row(20, 600), 20);
    assert_eq!(ticket_row(599, 600), 569);
    assert_eq!(ticket_row(5, 1), 0);
    assert_eq!(ticket_row(3, 7), 2);
}

#[test]
fn ticket_row_does_not_overflow() {
    assert_eq!(ticket_row(u32::MAX, u32::MAX), 0);
    assert_eq!(ticket_row(u32::MAX - 1, u32::MAX), u32::MAX - 31);
    assert_eq!(ticket_row(u32::MAX, 1 << 31), ((u32::MAX as u64 * 31) % (1u64 << 31)) as u32);
}

#[test]
fn one_pass_reaches_every_row_once() {
    for rows in [1u32, 2, 30, 32, 600, 1200, 1201] {
        let mut seen = vec![0u32; rows as usize];
        for ticket in 0..rows {
            seen[ticket_row(ticket, rows) as usize] += 1;
        }
        assert!(seen.iter().all(|&n| n == 1), "rows = {}", rows);
    }
}

#[test]
fn one_pass_misses_rows_when_the_stride_divides_the_height() {
    let rows = 62u32;
    let mut seen = vec![0u32; rows as usize];
    for ticket in 0..rows {
        seen[ticket_row(ticket, rows) as usize] += 1;
    }
    assert_eq!(seen[0], 31);
    assert_eq!(seen[31], 31);
    assert_eq!(seen.iter().filter(|&&n| n == 0).count(), 60);
}

#[test]
fn new_buffer_is_blank() {
    let buf = buffer(3, 2);
    assert_eq!(buf.size(), Size32 { w: 3, h: 2 });
    assert_eq!(buf.pitch(), 12);
    assert_eq!(buf.pixels(), &vec![0u8; 24]);
    assert_eq!(buf.generation(), 0);
    assert_eq!(buf.row_claim_counter(), 0);
    assert_eq!(buf.max_iterations(), 10000);
    assert!(!buf.is_dirty());
    assert!(!buf.is_shutting_down());
}

#[test]
fn new_buffer_refuses_a_size_it_cannot_hold() {
    assert!(RasterBuffer::new(Size32 { w: 1 << 30, h: 1 }, 1).is_none());
    assert!(RasterBuffer::new(Size32 { w: u32::MAX, h: u32::MAX }, 1).is_none());
    assert!(!fits(Size32 { w: 1 << 30, h: 0 }));
    assert!(fits(Size32 { w: (1 << 30) - 1, h: 0 }));
    assert!(fits(Size32 { w: 1600, h: 1200 }));
    assert!(RasterBuffer::new(Size32 { w: 0, h: 0 }, 1).is_some());
}

#[test]
fn claims_hand_out_rows_in_ticket_order_then_idle() {
    let mut buf = buffer(2, 5);
    let mut rows = Vec::new();
    for ticket in 0..5u32 {
        assert_eq!(buf.row_claim_counter(), ticket);
        let (row, snapshot) = claim_row(&mut buf);
        assert_eq!(row, (ticket * 31) % 5);
        assert_eq!(
            snapshot,
            Snapshot { generation: 0, size: Size32 { w: 2, h: 5 }, max_iterations: 10000 }
        );
        rows.push(row);
    }
    rows.sort();
    assert_eq!(rows, vec![0, 1, 2, 3, 4]);
    assert_eq!(buf.claim(), Claim::Idle);
    assert_eq!(buf.claim(), Claim::Idle);
    assert_eq!(buf.row_claim_counter(), 7);
    assert_eq!(IDLE_DELAY_MS, 10);
}

#[test]
fn claims_on_an_empty_raster_idle() {
    let mut buf = buffer(0, 0);
    assert_eq!(buf.claim(), Claim::Idle);
    assert_eq!(buf.row_claim_counter(), 1);
}

#[test]
fn claims_exit_after_shutdown() {
    let mut buf = buffer(2, 5);
    claim_row(&mut buf);
    buf.shut_down();
    assert!(buf.is_shutting_down());
    assert_eq!(buf.claim(), Claim::Exit);
    assert_eq!(buf.claim(), Claim::Exit);
    assert_eq!(buf.row_claim_counter(), 1);
}

#[test]
fn commit_writes_the_row_and_marks_dirty() {
    let mut buf = buffer(2, 3);
    let (_, snapshot) = claim_row(&mut buf);
    let bytes = [1u8, 2, 3, 255, 4, 5, 6, 255];
    assert!(buf.commit(snapshot, 1, &bytes));
    assert!(buf.is_dirty());
    let mut want = vec![0u8; 24];
    want[8..16].copy_from_slice(&bytes);
    assert_eq!(buf.pixels(), &want);
    assert_eq!(buf.generation(), 0);
    assert_eq!(buf.row_claim_counter(), 1);
}

#[test]
fn commit_after_a_pan_is_dropped() {
    let mut buf = buffer(2, 3);
    let (row, snapshot) = claim_row(&mut buf);
    buf.translate(Point32 { x: 1, y: 0 });
    assert!(buf.take_dirty());
    let before = buf.pixels().clone();
    assert!(!buf.commit(snapshot, row, &[9u8; 8]));
    assert_eq!(buf.pixels(), &before);
    assert!(!buf.is_dirty());
}

#[test]
fn commit_after_a_pan_there_and_back_is_dropped() {
    let mut buf = buffer(2, 3);
    let (row, snapshot) = claim_row(&mut buf);
    buf.translate(Point32 { x: 1, y: 0 });
    buf.translate(Point32 { x: -1, y: 0 });
    assert_eq!(buf.generation(), 2);
    assert!(!buf.commit(snapshot, row, &[9u8; 8]));
}

#[test]
fn commit_after_a_zoom_step_is_dropped() {
    for direction in [ScaleDirection::Up, ScaleDirection::Down] {
        let mut buf = buffer(2, 3);
        let (row, snapshot) = claim_row(&mut buf);
        buf.scale(Point32 { x: 0, y: 0 }, direction);
        assert_eq!(buf.generation(), 1);
        assert!(!buf.commit(snapshot, row, &[9u8; 8]));
        assert_eq!(buf.pixels(), &vec![0u8; 24]);
    }
}

#[test]
fn commit_after_a_resize_is_dropped() {
    let mut buf = buffer(2, 3);
    let (row, snapshot) = claim_row(&mut buf);
    assert!(buf.resize(Size32 { w: 2, h: 4 }));
    assert!(!buf.commit(snapshot, row, &[9u8; 8]));
    assert_eq!(buf.pixels(), &vec![0u8; 32]);
}

#[test]
fn commit_after_a_resize_to_the_same_size_is_written() {
    let mut buf = buffer(2, 3);
    let (row, snapshot) = claim_row(&mut buf);
    assert!(buf.resize(Size32 { w: 2, h: 3 }));
    assert!(buf.commit(snapshot, row, &[9u8; 8]));
}

#[test]
fn commit_after_a_pan_by_nothing_is_written() {
    let mut buf = buffer(2, 3);
    let (row, snapshot) = claim_row(&mut buf);
    buf.translate(Point32 { x: 0, y: 0 });
    assert_eq!(buf.generation(), 0);
    assert_eq!(buf.row_claim_counter(), 0);
    assert!(buf.commit(snapshot, row, &[9u8; 8]));
}

#[test]
fn commit_survives_a_change_of_budget_and_other_claims() {
    let mut buf = buffer(2, 3);
    let (row, snapshot) = claim_row(&mut buf);
    buf.adjust_max_iterations(true);
    let (other_row, other) = claim_row(&mut buf);
    assert_eq!(other.max_iterations, 11000);
    assert_eq!(other_row, 0);
    assert!(buf.commit(other, other_row, &[1u8; 8]));
    assert!(buf.commit(snapshot, row, &[9u8; 8]));
    assert_eq!(&buf.pixels()[0..8], &[9u8; 8]);
}

#[test]
fn commit_refuses_a_row_that_does_not_fit() {
    let mut buf = buffer(2, 3);
    let (_, snapshot) = claim_row(&mut buf);
    assert!(!buf.commit(snapshot, 3, &[9u8; 8]));
    assert!(!buf.commit(snapshot, 0, &[9u8; 7]));
    assert!(!buf.commit(snapshot, 0, &[9u8; 12]));
    assert!(!buf.commit(snapshot, 0, &[]));
    assert!(!buf.is_dirty());
    assert_eq!(buf.pixels(), &vec![0u8; 24]);
}

#[test]
fn commit_with_a_made_up_snapshot_is_dropped() {
    let mut buf = buffer(2, 3);
    let stale = Snapshot { generation: 1, size: Size32 { w: 2, h: 3 }, max_iterations: 10000 };
    assert!(!buf.commit(stale, 0, &[9u8; 8]));
    let wrong_size = Snapshot { generation: 0, size: Size32 { w: 3, h: 2 }, max_iterations: 10000 };
    assert!(!buf.commit(wrong_size, 0, &[9u8; 12]));
    let other_budget = Snapshot { generation: 0, size: Size32 { w: 2, h: 3 }, max_iterations: 5 };
    assert!(buf.commit(other_budget, 2, &[9u8; 8]));
}

#[test]
fn commit_during_shutdown_is_still_written() {
    let mut buf = buffer(2, 3);
    let (row, snapshot) = claim_row(&mut buf);
    buf.shut_down();
    assert!(buf.commit(snapshot, row, &[9u8; 8]));
}

#[test]
fn every_committed_row_is_whole() {
    let mut buf = buffer(3, 4);
    let mut generation_of_row = vec![None; 4];
    for round in 0..3u8 {
        let mut pending = Vec::new();
        while let Claim::Row { row, snapshot } = buf.claim() {
            pending.push((row, snapshot));
        }
        let (late_row, late) = pending.pop().unwrap();
        for (row, snapshot) in pending {
            assert!(buf.commit(snapshot, row, &[round + 1; 12]));
            generation_of_row[row as usize] = Some(round + 1);
        }
        buf.translate(Point32 { x: 0, y: 1 });
        generation_of_row = vec![generation_of_row[1], generation_of_row[2], generation_of_row[3], None];
        let before = buf.pixels().clone();
        assert!(!buf.commit(late, late_row, &[0xAA; 12]));
        assert_eq!(buf.pixels(), &before);
        for y in 0..4usize {
            let row = &buf.pixels()[12 * y..12 * y + 12];
            let want = generation_of_row[y].unwrap_or(0);
            assert!(row.iter().all(|&b| b == want), "row {} after round {}", y, round);
        }
    }
}

#[test]
fn a_full_pass_writes_every_row_once() {
    let mut buf = buffer(2, 7);
    let mut writes = vec![0u32; 7];
    loop {
        match buf.claim() {
            Claim::Row { row, snapshot } => {
                assert!(buf.commit(snapshot, row, &[row as u8 + 1; 8]));
                writes[row as usize] += 1;
            }
            Claim::Idle => break,
            Claim::Exit => panic!("not shutting down"),
        }
    }
    assert_eq!(writes, vec![1; 7]);
    assert_eq!(buf.row_claim_counter(), 8);
    for y in 0..7usize {
        assert_eq!(&buf.pixels()[8 * y..8 * y + 8], &[y as u8 + 1; 8]);
    }
}

#[test]
fn translate_shifts_pixels_and_restarts_the_pass() {
    let mut buf = buffer(2, 2);
    let (_, snapshot) = claim_row(&mut buf);
    assert!(buf.commit(snapshot, 0, &[1, 2, 3, 4, 5, 6, 7, 8]));
    buf.take_dirty();
    buf.translate(Point32 { x: 1, y: -1 });
    assert_eq!(buf.pixels(), &vec![0, 0, 0, 0, 0, 0, 0, 0, 5, 6, 7, 8, 0, 0, 0, 0]);
    assert_eq!(buf.generation(), 1);
    assert_eq!(buf.row_claim_counter(), 0);
    assert!(buf.is_dirty());
}

#[test]
fn scale_resamples_pixels_and_restarts_the_pass() {
    let mut buf = buffer(2, 2);
    let (_, snapshot) = claim_row(&mut buf);
    assert!(buf.commit(snapshot, 0, &[1, 2, 3, 4, 5, 6, 7, 8]));
    buf.take_dirty();
    buf.scale(Point32 { x: 1, y: 0 }, ScaleDirection::Up);
    assert_eq!(buf.pixels(), &vec![5, 6, 7, 8, 5, 6, 7, 8, 5, 6, 7, 8, 5, 6, 7, 8]);
    assert_eq!(buf.generation(), 1);
    assert_eq!(buf.row_claim_counter(), 0);
    assert!(buf.is_dirty());
    buf.scale(Point32 { x: -2, y: 0 }, ScaleDirection::Down);
    assert_eq!(buf.pixels(), &vec![0, 0, 0, 0, 5, 6, 7, 8, 0, 0, 0, 0, 0, 0, 0, 0]);
    assert_eq!(buf.generation(), 2);
}

#[test]
fn resize_keeps_the_overlap_and_the_generation() {
    let mut buf = buffer(2, 2);
    let (_, snapshot) = claim_row(&mut buf);
    assert!(buf.commit(snapshot, 1, &[1, 2, 3, 4, 5, 6, 7, 8]));
    buf.take_dirty();
    assert!(buf.resize(Size32 { w: 1, h: 3 }));
    assert_eq!(buf.size(), Size32 { w: 1, h: 3 });
    assert_eq!(buf.pitch(), 4);
    assert_eq!(buf.pixels(), &vec![0, 0, 0, 0, 1, 2, 3, 4, 0, 0, 0, 0]);
    assert_eq!(buf.generation(), 0);
    assert_eq!(buf.row_claim_counter(), 0);
    assert!(buf.is_dirty());
}

#[test]
fn resize_to_a_size_it_cannot_hold_changes_nothing() {
    let mut buf = buffer(2, 2);
    claim_row(&mut buf);
    assert!(!buf.resize(Size32 { w: 1 << 30, h: 2 }));
    assert_eq!(buf.size(), Size32 { w: 2, h: 2 });
    assert_eq!(buf.pixels().len(), 16);
    assert_eq!(buf.row_claim_counter(), 1);
    assert!(!buf.is_dirty());
}

#[test]
fn budget_moves_in_steps_and_stops_at_the_ends() {
    assert_eq!(ITERATION_STEP, 1000);
    let mut buf = RasterBuffer::new(Size32 { w: 1, h: 4 }, 1500).unwrap();
    claim_row(&mut buf);
    buf.adjust_max_iterations(false);
    assert_eq!(buf.max_iterations(), 500);
    assert_eq!(buf.row_claim_counter(), 0);
    assert!(!buf.is_dirty());
    assert_eq!(buf.generation(), 0);
    buf.adjust_max_iterations(false);
    assert_eq!(buf.max_iterations(), 0);
    buf.adjust_max_iterations(false);
    assert_eq!(buf.max_iterations(), 0);
    buf.adjust_max_iterations(true);
    assert_eq!(buf.max_iterations(), 1000);
    let mut top = RasterBuffer::new(Size32 { w: 1, h: 4 }, u32::MAX - 999).unwrap();
    top.adjust_max_iterations(true);
    assert_eq!(top.max_iterations(), u32::MAX);
    top.adjust_max_iterations(true);
    assert_eq!(top.max_iterations(), u32::MAX);
}

#[test]
fn take_dirty_reports_once() {
    let mut buf = buffer(1, 1);
    assert!(!buf.take_dirty());
    let (row, snapshot) = claim_row(&mut buf);
    assert!(buf.commit(snapshot, row, &[1, 2, 3, 4]));
    assert!(buf.take_dirty());
    assert!(!buf.take_dirty());
    assert!(!buf.is_dirty());
}
