use mandelbrot::{band_layout, intensity, px_to_index, render, PixelPt, PxWindow, COLOR_DEPTH};

fn escape_of(p: PixelPt) -> Option<usize> {
    if (p.col + p.row) % 3 == 0 {
        None
    } else {
        Some(p.col * 2 + p.row)
    }
}

fn color_of(n: usize) -> u8 {
    (n * 10) as u8
}

#[test]
fn pixel_index_is_row_major() {
    let win = PxWindow { width: 100, height: 50 };
    assert_eq!(px_to_index(PixelPt::new(25, 40), win), 4025);
    assert_eq!(px_to_index(PixelPt::new(0, 0), win), 0);
    assert_eq!(px_to_index(PixelPt::new(99, 49), win), 4999);
    let p = PixelPt::new(3, 4);
    assert_eq!((p.col, p.row), (3, 4));
}

#[test]
fn intensity_maps_escape_counts() {
    assert_eq!(intensity(None, &color_of), COLOR_DEPTH as u8);
    assert_eq!(intensity(Some(3), &color_of), 30);
    assert_eq!(intensity(Some(0), &color_of), 0);
    assert_eq!(intensity(Some(30), &|n: usize| n as u8 + 1), 31);
}

#[test]
fn render_writes_each_pixel() {
    let win = PxWindow { width: 4, height: 3 };
    let mut pixels = vec![7u8; 12];
    render(&mut pixels, win, &escape_of, &color_of);
    for row in 0..3 {
        for col in 0..4 {
            let p = PixelPt::new(col, row);
            let expected = match escape_of(p) {
                Some(n) => color_of(n),
                None => 255,
            };
            assert_eq!(pixels[col + row * 4], expected);
        }
    }
    assert_eq!(pixels, vec![255, 20, 40, 255, 10, 30, 255, 70, 20, 255, 60, 80]);
}

#[test]
fn banded_render_matches_single_band() {
    let win = PxWindow { width: 5, height: 10 };
    let mut whole = vec![0u8; 50];
    render(&mut whole, win, &escape_of, &color_of);
    for workers in [1usize, 3, 4, 7] {
        let mut banded = vec![0u8; 50];
        let mut rest: &mut [u8] = &mut banded;
        for band in band_layout(win, workers) {
            let (slice, tail) = rest.split_at_mut(band.len);
            rest = tail;
            let top = band.top;
            let local = move |p: PixelPt| escape_of(PixelPt::new(p.col, p.row + top));
            render(slice, band.px_window(5), &local, &color_of);
        }
        assert_eq!(banded, whole);
    }
}
