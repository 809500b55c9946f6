use raytracer::frame::{
    next_display_action, row_offset, DisplayAction, Frame, PlaceError, RenderResult,
};
use raytracer::path::{ball_draw_step, next_step, Draw, Step, MAX_BALL_DRAWS, MAX_DEPTH};
use raytracer::schedule::{row_blocks, RowBlock};

fn coverage(height: u32, workers: u32) -> Vec<u32> {
    let mut seen = vec![0u32; height as usize];
    for block in row_blocks(height, workers) {
        for row in block.start..block.end {
            seen[row as usize] += 1;
        }
    }
    seen
}

#[test]
fn blocks_are_equal_when_rows_divide_evenly() {
    let blocks = row_blocks(480, 6);
    assert_eq!(blocks.len(), 6);
    for (i, block) in blocks.iter().enumerate() {
        assert_eq!(block.start, 80 * i as u32);
        assert_eq!(block.end, 80 * (i as u32 + 1));
    }
}

#[test]
fn remainder_rows_go_to_last_block() {
    let blocks = row_blocks(10, 3);
    assert_eq!(
        blocks,
        vec![
            RowBlock { start: 0, end: 3 },
            RowBlock { start: 3, end: 6 },
            RowBlock { start: 6, end: 10 },
        ]
    );
}

#[test]
fn more_workers_than_rows() {
    let blocks = row_blocks(5, 8);
    assert_eq!(blocks.len(), 8);
    for block in &blocks[..7] {
        assert_eq!(block.start, block.end);
    }
    assert_eq!(blocks[7], RowBlock { start: 0, end: 5 });
}

#[test]
fn empty_image_has_empty_blocks() {
    let blocks = row_blocks(0, 4);
    assert_eq!(blocks.len(), 4);
    assert!(blocks.iter().all(|b| b.start == 0 && b.end == 0));
}

#[test]
fn every_row_rendered_exactly_once() {
    for height in [0u32, 1, 7, 10, 480, 481] {
        for workers in 1u32..=9 {
            assert!(coverage(height, workers).iter().all(|&n| n == 1));
        }
    }
}

#[test]
fn row_offsets_count_from_bottom() {
    assert_eq!(row_offset(0, 10, 12), 108);
    assert_eq!(row_offset(9, 10, 12), 0);
    assert_eq!(row_offset(3, 10, 12), 72);
}

#[test]
fn new_frame_is_black_and_empty() {
    let frame = Frame::new(4, 3);
    assert_eq!(frame.width(), 4);
    assert_eq!(frame.height(), 3);
    assert_eq!(frame.pitch(), 12);
    assert_eq!(frame.bytes().len(), 36);
    assert!(frame.bytes().iter().all(|&b| b == 0));
    assert_eq!(frame.rows_remaining(), 3);
    assert!(!frame.is_complete());
    assert!(!frame.row_received(0));
}

#[test]
fn placed_row_lands_at_its_offset() {
    let mut frame = Frame::new(2, 3);
    let row = RenderResult { row_index: 0, pixels: vec![1, 2, 3, 4, 5, 6] };
    assert_eq!(frame.place_row(&row), Ok(()));
    assert_eq!(&frame.bytes()[12..18], &[1, 2, 3, 4, 5, 6]);
    assert!(frame.bytes()[..12].iter().all(|&b| b == 0));
    assert!(frame.row_received(0));
    assert!(!frame.row_received(1));
    assert_eq!(frame.rows_remaining(), 2);
}

#[test]
fn rows_in_any_order_complete_the_frame() {
    let mut frame = Frame::new(1, 4);
    for row in [2u32, 0, 3, 1] {
        assert!(!frame.is_complete());
        let v = row as u8 * 10;
        let result = RenderResult { row_index: row, pixels: vec![v, v + 1, v + 2] };
        assert_eq!(frame.place_row(&result), Ok(()));
    }
    assert!(frame.is_complete());
    assert_eq!(frame.rows_remaining(), 0);
    assert_eq!(frame.bytes(), &vec![30, 31, 32, 20, 21, 22, 10, 11, 12, 0, 1, 2]);
}

#[test]
fn row_out_of_range_is_refused() {
    let mut frame = Frame::new(1, 2);
    let result = RenderResult { row_index: 2, pixels: vec![9, 9, 9] };
    assert_eq!(frame.place_row(&result), Err(PlaceError::RowOutOfRange));
    assert_eq!(frame.rows_remaining(), 2);
    assert!(frame.bytes().iter().all(|&b| b == 0));
}

#[test]
fn row_of_wrong_length_is_refused() {
    let mut frame = Frame::new(2, 2);
    let result = RenderResult { row_index: 1, pixels: vec![9, 9, 9] };
    assert_eq!(frame.place_row(&result), Err(PlaceError::WrongLength));
    assert!(!frame.row_received(1));
}

#[test]
fn row_delivered_twice_is_refused() {
    let mut frame = Frame::new(1, 2);
    let first = RenderResult { row_index: 1, pixels: vec![1, 2, 3] };
    let again = RenderResult { row_index: 1, pixels: vec![7, 8, 9] };
    assert_eq!(frame.place_row(&first), Ok(()));
    assert_eq!(frame.place_row(&again), Err(PlaceError::AlreadyReceived));
    assert_eq!(&frame.bytes()[..3], &[1, 2, 3]);
    assert_eq!(frame.rows_remaining(), 1);
}

#[test]
fn miss_takes_background() {
    assert_eq!(next_step(0, false, true), Step::Background);
    assert_eq!(next_step(MAX_DEPTH, false, false), Step::Background);
}

#[test]
fn hit_scatters_until_depth_limit() {
    assert_eq!(next_step(0, true, true), Step::Scatter);
    assert_eq!(next_step(MAX_DEPTH - 1, true, true), Step::Scatter);
    assert_eq!(next_step(MAX_DEPTH, true, true), Step::Absorbed);
    assert_eq!(MAX_DEPTH, 50);
}

#[test]
fn absorbing_hit_is_black() {
    assert_eq!(next_step(0, true, false), Step::Absorbed);
}

#[test]
fn ball_sampling_is_capped() {
    assert_eq!(ball_draw_step(1, true), Draw::Accept);
    assert_eq!(ball_draw_step(1, false), Draw::Redraw);
    assert_eq!(ball_draw_step(MAX_BALL_DRAWS - 1, false), Draw::Redraw);
    assert_eq!(ball_draw_step(MAX_BALL_DRAWS, false), Draw::GiveUp);
    assert_eq!(ball_draw_step(MAX_BALL_DRAWS, true), Draw::Accept);
}

#[test]
fn display_loop_decisions() {
    assert_eq!(next_display_action(3, true, false), DisplayAction::Stop);
    assert_eq!(next_display_action(3, false, false), DisplayAction::ReceiveRow);
    assert_eq!(next_display_action(0, false, false), DisplayAction::ReportTime);
    assert_eq!(next_display_action(0, false, true), DisplayAction::Wait);
    assert_eq!(next_display_action(0, true, true), DisplayAction::Stop);
}
