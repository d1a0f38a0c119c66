use mandelbrot::{band_layout, rows_per_band, Band, PxWindow};

#[test]
fn rows_per_band_rounds_up() {
    assert_eq!(rows_per_band(10, 4), 3);
    assert_eq!(rows_per_band(8, 4), 2);
    assert_eq!(rows_per_band(1, 1), 1);
    assert_eq!(rows_per_band(5, 10), 1);
    assert_eq!(rows_per_band(600, 1), 600);
    assert_eq!(rows_per_band(usize::MAX, 2), usize::MAX / 2 + 1);
}

#[test]
fn band_layout_uneven_split() {
    let bands = band_layout(PxWindow { width: 7, height: 10 }, 4);
    assert_eq!(
        bands,
        vec![
            Band { top: 0, rows: 3, start: 0, len: 21 },
            Band { top: 3, rows: 3, start: 21, len: 21 },
            Band { top: 6, rows: 3, start: 42, len: 21 },
            Band { top: 9, rows: 1, start: 63, len: 7 },
        ]
    );
}

#[test]
fn band_layout_fewer_bands_than_workers() {
    let bands = band_layout(PxWindow { width: 2, height: 9 }, 4);
    assert_eq!(bands.len(), 3);
    assert!(bands.iter().all(|b| b.rows == 3));
    let bands = band_layout(PxWindow { width: 3, height: 2 }, 8);
    assert_eq!(bands, vec![Band { top: 0, rows: 1, start: 0, len: 3 }, Band { top: 1, rows: 1, start: 3, len: 3 }]);
}

#[test]
fn band_layout_single_worker() {
    let bands = band_layout(PxWindow { width: 5, height: 4 }, 1);
    assert_eq!(bands, vec![Band { top: 0, rows: 4, start: 0, len: 20 }]);
}

#[test]
fn bands_cover_every_row_and_index_once() {
    for height in 1..30usize {
        for workers in 1..12usize {
            let width = 3usize;
            let bands = band_layout(PxWindow { width, height }, workers);
            assert!(bands.len() <= workers);
            let mut rows = vec![0u32; height];
            let mut idx = vec![0u32; width * height];
            for b in &bands {
                for r in b.top..b.top + b.rows {
                    rows[r] += 1;
                }
                for i in b.start..b.start + b.len {
                    idx[i] += 1;
                }
            }
            assert!(rows.iter().all(|&n| n == 1));
            assert!(idx.iter().all(|&n| n == 1));
        }
    }
}

#[test]
fn band_corners() {
    let b = Band { top: 6, rows: 3, start: 42, len: 21 };
    assert_eq!(b.px_window(7), PxWindow { width: 7, height: 3 });
    let ul = b.upper_left_px();
    assert_eq!((ul.col, ul.row), (0, 6));
    let lr = b.lower_right_px(7);
    assert_eq!((lr.col, lr.row), (7, 9));
}
