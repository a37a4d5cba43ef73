use artyst::{block_total, block_totals, Matrix, OutOfRange, SegmentInfo};

#[test]
fn matrix_new_fills_every_cell() {
    let m = Matrix::new(3, 2, 7u8);
    assert_eq!(m.get_width(), 3);
    assert_eq!(m.get_height(), 2);
    for i in 0..2 {
        for j in 0..3 {
            assert_eq!(m.get(i, j), Ok(7));
        }
    }
}

#[test]
fn matrix_from_reads_row_major() {
    let m = Matrix::from(vec![1, 2, 3, 4, 5, 6], 3, 2);
    assert_eq!(m.get(0, 2), Ok(3));
    assert_eq!(m.get(1, 0), Ok(4));
    assert_eq!(m.get(1, 2), Ok(6));
}

#[test]
fn matrix_get_out_of_range() {
    let m = Matrix::from(vec![1, 2, 3, 4, 5, 6], 3, 2);
    assert_eq!(m.get(2, 0), Err(OutOfRange { row: 2, col: 0, height: 2, width: 3 }));
    assert_eq!(m.get(0, 3), Err(OutOfRange { row: 0, col: 3, height: 2, width: 3 }));
}

#[test]
fn matrix_set_writes_one_cell() {
    let mut m = Matrix::new(2, 2, 0i64);
    assert_eq!(m.set(1, 0, 9), Ok(()));
    assert_eq!(m.get(1, 0), Ok(9));
    assert_eq!(m.get(0, 0), Ok(0));
    assert_eq!(m.get(0, 1), Ok(0));
    assert_eq!(m.get(1, 1), Ok(0));
}

#[test]
fn matrix_set_out_of_range_changes_nothing() {
    let mut m = Matrix::new(2, 2, 0i64);
    assert_eq!(m.set(0, 2, 9), Err(OutOfRange { row: 0, col: 2, height: 2, width: 2 }));
    assert_eq!(m.set(5, 0, 9), Err(OutOfRange { row: 5, col: 0, height: 2, width: 2 }));
    for i in 0..2 {
        for j in 0..2 {
            assert_eq!(m.get(i, j), Ok(0));
        }
    }
}

#[test]
fn matrix_clone_is_independent() {
    let m = Matrix::new(2, 1, 1u8);
    let mut c = m.clone();
    c.set(0, 0, 5).unwrap();
    assert_eq!(m.get(0, 0), Ok(1));
    assert_eq!(c.get(0, 0), Ok(5));
}

#[test]
fn segment_sizes_and_starts_with_remainder() {
    // 10 columns into 3 blocks: 4, 3, 3; 7 rows into 2 blocks: 4, 3
    let info = SegmentInfo::generate(10, 7, 3, 2);
    assert_eq!(info.get_width(), 3);
    assert_eq!(info.get_height(), 2);
    assert_eq!(info.get_block_dims(0, 0), (4, 4));
    assert_eq!(info.get_block_dims(0, 1), (3, 4));
    assert_eq!(info.get_block_dims(1, 2), (3, 3));
    assert_eq!(info.get_block_start_index(0, 0), (0, 0));
    assert_eq!(info.get_block_start_index(0, 1), (4, 0));
    assert_eq!(info.get_block_start_index(1, 2), (7, 4));
}

#[test]
fn segment_blocks_tile_the_source() {
    for (total, parts) in [(10u32, 3u32), (7, 7), (5, 8), (100, 9), (1, 1), (0, 4)] {
        let info = SegmentInfo::generate(total, 1, parts, 1);
        let mut next = 0;
        let mut smallest = u32::MAX;
        let mut largest = 0;
        for j in 0..parts {
            let (x, _) = info.get_block_start_index(0, j);
            let (w, _) = info.get_block_dims(0, j);
            assert_eq!(x, next);
            next = x + w;
            smallest = smallest.min(w);
            largest = largest.max(w);
        }
        assert_eq!(next, total);
        assert!(largest - smallest <= 1);
    }
}

#[test]
fn segment_exact_division() {
    let info = SegmentInfo::generate(12, 8, 4, 2);
    assert_eq!(info.get_block_dims(1, 3), (3, 4));
    assert_eq!(info.get_block_start_index(1, 3), (9, 4));
}

#[test]
fn block_total_sums_a_rectangle() {
    let image = Matrix::from(vec![1u8, 2, 3, 4, 5, 6, 7, 8, 9], 3, 3);
    assert_eq!(block_total(&image, 0, 3, 0, 3), 45);
    assert_eq!(block_total(&image, 1, 3, 1, 3), 5 + 6 + 8 + 9);
    assert_eq!(block_total(&image, 1, 1, 0, 3), 0);
}

#[test]
fn block_totals_cover_each_block() {
    // a 5 x 2 source cut into 2 x 1 blocks: columns 0..3 and 3..5
    let image = Matrix::from(vec![10u8, 20, 30, 40, 50, 255, 255, 255, 0, 0], 5, 2);
    let info = SegmentInfo::generate(5, 2, 2, 1);
    let totals = block_totals(&image, &info);
    assert_eq!(totals.get_width(), 2);
    assert_eq!(totals.get_height(), 1);
    assert_eq!(totals.get(0, 0), Ok((10 + 20 + 30 + 255 * 3, 6)));
    assert_eq!(totals.get(0, 1), Ok((40 + 50, 4)));
}

#[test]
fn matrix_duplicate_is_independent() {
    let m = Matrix::from(vec![1u8, 2, 3, 4], 2, 2);
    let mut d = m.duplicate();
    assert_eq!(d.get_width(), 2);
    assert_eq!(d.get_height(), 2);
    assert_eq!(d.get(1, 1), Ok(4));
    d.set(1, 1, 9).unwrap();
    assert_eq!(m.get(1, 1), Ok(4));
    assert_eq!(d.get(1, 1), Ok(9));
}
