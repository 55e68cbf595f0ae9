use rt_weekend_multithreaded::frame::{assemble_frame, pixel_jobs, PixelResult};

#[test]
fn jobs_list_every_pixel_column_by_column() {
    let jobs = pixel_jobs(3, 2);
    assert_eq!(jobs, vec![(0, 0), (0, 1), (1, 0), (1, 1), (2, 0), (2, 1)]);
}

#[test]
fn jobs_of_empty_frame() {
    assert!(pixel_jobs(0, 5).is_empty());
    assert!(pixel_jobs(4, 0).is_empty());
}

#[test]
fn jobs_hold_each_pixel_once() {
    let (w, h) = (7u32, 5u32);
    let jobs = pixel_jobs(w, h);
    assert_eq!(jobs.len(), 35);
    for x in 0..w {
        for y in 0..h {
            assert_eq!(jobs.iter().filter(|j| **j == (x, y)).count(), 1);
        }
    }
}

#[test]
fn frame_bytes_are_row_major() {
    let results: Vec<PixelResult> = vec![
        ((0, 0), [1, 2, 3]),
        ((1, 0), [4, 5, 6]),
        ((0, 1), [7, 8, 9]),
        ((1, 1), [10, 11, 12]),
    ];
    let bytes = assemble_frame(2, 2, &results);
    assert_eq!(bytes, vec![1, 2, 3, 4, 5, 6, 7, 8, 9, 10, 11, 12]);
}

#[test]
fn frame_without_results_is_black() {
    let bytes = assemble_frame(3, 1, &Vec::new());
    assert_eq!(bytes, vec![0; 9]);
}

#[test]
fn frame_leaves_unwritten_pixels_black() {
    let results: Vec<PixelResult> = vec![((2, 1), [255, 128, 7])];
    let bytes = assemble_frame(3, 2, &results);
    let mut expected = vec![0u8; 18];
    expected[15] = 255;
    expected[16] = 128;
    expected[17] = 7;
    assert_eq!(bytes, expected);
}

#[test]
fn frame_keeps_last_write_to_a_pixel() {
    let results: Vec<PixelResult> = vec![((0, 0), [9, 9, 9]), ((0, 0), [1, 2, 3])];
    assert_eq!(assemble_frame(1, 1, &results), vec![1, 2, 3]);
}

#[test]
fn frame_ignores_arrival_order() {
    let (w, h) = (4u32, 3u32);
    let mut results: Vec<PixelResult> = Vec::new();
    for (x, y) in pixel_jobs(w, h) {
        results.push(((x, y), [x as u8 * 10, y as u8 * 20, (x + y) as u8]));
    }
    let in_order = assemble_frame(w, h, &results);
    let mut reversed = results.clone();
    reversed.reverse();
    let mut interleaved: Vec<PixelResult> = Vec::new();
    for k in 0..results.len() {
        interleaved.push(results[(k * 5) % results.len()]);
    }
    assert_eq!(in_order, assemble_frame(w, h, &reversed));
    assert_eq!(in_order, assemble_frame(w, h, &interleaved));
    assert_eq!(&in_order[0..3], &[0, 0, 0]);
    assert_eq!(&in_order[3 * (2 * 4 + 3)..3 * (2 * 4 + 3) + 3], &[30, 40, 5]);
}
