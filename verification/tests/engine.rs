use morphology::{check_neighbours, dilate, erode, Vec2d};

fn with_pixels(width: usize, height: usize, pixels: &[(usize, usize)]) -> Vec2d {
    let mut grid = Vec2d::empty(width, height);
    for &(x, y) in pixels {
        grid.data[x + y * width] = true;
    }
    grid
}

fn block(width: usize, height: usize, xs: (usize, usize), ys: (usize, usize)) -> Vec<bool> {
    let mut cells = vec![false; width * height];
    for y in ys.0..=ys.1 {
        for x in xs.0..=xs.1 {
            cells[x + y * width] = true;
        }
    }
    cells
}

#[test]
fn it_works() {
    let kernel = Vec2d::filled(5, 5);
    let mut input = Vec2d::empty(10, 20);
    input.data[44] = true;
    let output = dilate(&input, &kernel);
    let reversed = erode(&output, &kernel);
    assert!(!input.data.iter().eq(output.data.iter()));
    assert!(input.data.iter().eq(reversed.data.iter()), "for the simple case reverse is the same as the input");
}

#[test]
fn erode_undoes_dilate_of_a_lone_pixel() {
    for (kw, kh) in [(1, 1), (3, 3), (5, 5), (3, 5), (5, 1), (1, 7)] {
        let kernel = Vec2d::filled(kw, kh);
        let (ax, ay) = (kw / 2, kh / 2);
        for py in 1..20 {
            for px in 1..10 {
                let fits = 2 * ax <= px && px + ax < 10 && 2 * ay <= py && py + ay < 20;
                if !fits {
                    continue;
                }
                let input = with_pixels(10, 20, &[(px, py)]);
                let grown = dilate(&input, &kernel);
                assert_eq!(grown.data, block(10, 20, (px - ax, px + ax), (py - ay, py + ay)));
                assert_eq!(grown.data == input.data, kw == 1 && kh == 1);
                let back = erode(&grown, &kernel);
                assert_eq!((back.width, back.height), (10, 20));
                assert_eq!(back.data, input.data);
            }
        }
    }
}

#[test]
fn erode_does_not_undo_every_dilate() {
    let kernel = Vec2d::filled(5, 5);
    // The kernel anchored on (3, 3) lies inside the image, but the sweep is
    // cut at column 1 and row 1 of the dilation.
    let near_edge = with_pixels(10, 20, &[(3, 3)]);
    let grown = dilate(&near_edge, &kernel);
    assert_eq!(grown.data, block(10, 20, (2, 5), (2, 5)));
    assert_eq!(erode(&grown, &kernel).data, vec![false; 200]);
    // The block reaches over the right edge.
    let far_right = with_pixels(10, 20, &[(8, 4)]);
    let grown = dilate(&far_right, &kernel);
    assert_eq!(grown.data, block(10, 20, (6, 9), (2, 6)));
    assert_eq!(erode(&grown, &kernel).data, vec![false; 200]);
    // Two pixels close to each other merge.
    let pair = with_pixels(10, 20, &[(4, 4), (6, 4)]);
    let kernel = Vec2d::filled(3, 3);
    let back = erode(&dilate(&pair, &kernel), &kernel);
    assert_eq!(back.data, block(10, 20, (4, 6), (4, 4)));
}

#[test]
fn dilate_grows_a_pixel_into_the_kernel_block() {
    let input = with_pixels(10, 20, &[(4, 4)]);
    let by_three = dilate(&input, &Vec2d::filled(3, 3));
    assert_eq!((by_three.width, by_three.height), (10, 20));
    assert_eq!(by_three.data, block(10, 20, (3, 5), (3, 5)));
    let by_five = dilate(&input, &Vec2d::filled(5, 5));
    assert_eq!(by_five.data, block(10, 20, (2, 6), (2, 6)));
    let by_wide = dilate(&input, &Vec2d::filled(5, 1));
    assert_eq!(by_wide.data, block(10, 20, (2, 6), (4, 4)));
}

#[test]
fn erode_shrinks_a_block_to_its_centre() {
    let mut input = Vec2d::empty(10, 20);
    input.data = block(10, 20, (2, 6), (2, 6));
    let by_five = erode(&input, &Vec2d::filled(5, 5));
    assert_eq!(by_five.data, block(10, 20, (4, 4), (4, 4)));
    let by_three = erode(&input, &Vec2d::filled(3, 3));
    assert_eq!(by_three.data, block(10, 20, (3, 5), (3, 5)));
}

#[test]
fn inputs_are_left_alone() {
    let kernel = Vec2d::empty(3, 3);
    let input = with_pixels(6, 6, &[(2, 3)]);
    let _ = dilate(&input, &kernel);
    let _ = erode(&input, &kernel);
    assert_eq!(input.data, with_pixels(6, 6, &[(2, 3)]).data);
    assert_eq!(kernel.data, vec![false; 9]);
}

#[test]
fn kernel_cells_are_not_read() {
    let input = with_pixels(8, 8, &[(4, 4), (5, 6)]);
    let filled = Vec2d::filled(3, 3);
    let blank = Vec2d::empty(3, 3);
    assert_eq!(dilate(&input, &filled).data, dilate(&input, &blank).data);
    assert_eq!(erode(&input, &filled).data, erode(&input, &blank).data);
    let bare = Vec2d { width: 3, height: 3, data: Vec::new() };
    assert_eq!(dilate(&input, &bare).data, dilate(&input, &filled).data);
}

#[test]
fn first_column_and_row_are_never_computed() {
    let input = Vec2d::filled(4, 3);
    let expected = block(4, 3, (1, 3), (1, 2));
    assert_eq!(dilate(&input, &Vec2d::filled(1, 1)).data, expected);
    assert_eq!(erode(&input, &Vec2d::filled(1, 1)).data, expected);
    assert_eq!(dilate(&input, &Vec2d::filled(3, 3)).data, expected);
}

#[test]
fn erode_treats_outside_as_unset() {
    let input = Vec2d::filled(6, 6);
    let output = erode(&input, &Vec2d::filled(3, 3));
    assert_eq!(output.data, block(6, 6, (1, 4), (1, 4)));
}

#[test]
fn degenerate_kernel_answers_not_flip() {
    let set = Vec2d::filled(4, 3);
    let unset = Vec2d::empty(4, 3);
    for kernel in [Vec2d::empty(0, 3), Vec2d::empty(3, 0), Vec2d::empty(0, 0)] {
        assert_eq!(dilate(&set, &kernel).data, vec![false; 12]);
        assert_eq!(dilate(&unset, &kernel).data, vec![false; 12]);
        assert_eq!(erode(&set, &kernel).data, block(4, 3, (1, 3), (1, 2)));
        assert_eq!(erode(&unset, &kernel).data, block(4, 3, (1, 3), (1, 2)));
        for y in 0..4 {
            for x in 0..5 {
                assert!(!check_neighbours(&set, &kernel, x, y, true));
                assert!(check_neighbours(&unset, &kernel, x, y, false));
            }
        }
    }
}

#[test]
fn empty_images_give_empty_images() {
    let kernel = Vec2d::filled(3, 3);
    for (width, height) in [(0, 0), (0, 4), (4, 0), (1, 1)] {
        let input = Vec2d::filled(width, height);
        let grown = dilate(&input, &kernel);
        assert_eq!((grown.width, grown.height), (width, height));
        assert_eq!(grown.data, vec![false; width * height]);
        let shrunk = erode(&input, &kernel);
        assert_eq!((shrunk.width, shrunk.height), (width, height));
        assert_eq!(shrunk.data, vec![false; width * height]);
    }
}

#[test]
fn dilation_finds_each_neighbour() {
    let kernel = Vec2d::filled(3, 3);
    for ny in 0..7 {
        for nx in 0..7 {
            let input = with_pixels(7, 7, &[(nx, ny)]);
            let near = nx >= 2 && nx <= 4 && ny >= 2 && ny <= 4;
            assert_eq!(check_neighbours(&input, &kernel, 3, 3, true), near);
            assert_eq!(dilate(&input, &kernel).get(3, 3), near);
        }
    }
}

#[test]
fn erosion_is_unset_by_one_unset_neighbour() {
    let kernel = Vec2d::filled(3, 3);
    assert!(check_neighbours(&Vec2d::filled(7, 7), &kernel, 3, 3, false));
    for ny in 0..7 {
        for nx in 0..7 {
            let mut input = Vec2d::filled(7, 7);
            input.data[nx + ny * 7] = false;
            let near = nx >= 2 && nx <= 4 && ny >= 2 && ny <= 4;
            assert_eq!(check_neighbours(&input, &kernel, 3, 3, false), !near);
            assert_eq!(erode(&input, &kernel).get(3, 3), !near);
        }
    }
}

#[test]
fn dilation_keeps_and_erosion_adds_no_evaluated_pixel() {
    let input = with_pixels(6, 5, &[(1, 1), (2, 3), (5, 4), (3, 1), (3, 2), (4, 2)]);
    for kernel in [Vec2d::filled(1, 1), Vec2d::filled(2, 2), Vec2d::filled(3, 2), Vec2d::filled(4, 5)] {
        let grown = dilate(&input, &kernel);
        let shrunk = erode(&input, &kernel);
        for y in 1..5 {
            for x in 1..6 {
                assert!(!input.get(x, y) || grown.get(x, y));
                assert!(input.get(x, y) || !shrunk.get(x, y));
            }
        }
    }
}

#[test]
fn larger_images_give_larger_results() {
    let small = with_pixels(6, 6, &[(2, 2), (4, 3)]);
    let large = with_pixels(6, 6, &[(2, 2), (4, 3), (3, 3), (1, 5), (2, 3), (3, 2)]);
    let kernel = Vec2d::filled(2, 3);
    let (grown_small, grown_large) = (dilate(&small, &kernel), dilate(&large, &kernel));
    let (shrunk_small, shrunk_large) = (erode(&small, &kernel), erode(&large, &kernel));
    for i in 0..36 {
        assert!(!grown_small.data[i] || grown_large.data[i]);
        assert!(!shrunk_small.data[i] || shrunk_large.data[i]);
    }
}

#[test]
fn sweep_is_cut_on_both_sides_near_the_edge() {
    let kernel = Vec2d::filled(5, 5);
    // Anchored on (1, 1) the 5x5 kernel sweeps the pixels (0..=2, 0..=2) only.
    assert!(check_neighbours(&with_pixels(8, 8, &[(2, 2)]), &kernel, 1, 1, true));
    assert!(check_neighbours(&with_pixels(8, 8, &[(0, 0)]), &kernel, 1, 1, true));
    assert!(!check_neighbours(&with_pixels(8, 8, &[(3, 1)]), &kernel, 1, 1, true));
    assert!(!check_neighbours(&with_pixels(8, 8, &[(1, 3)]), &kernel, 1, 1, true));
    // Anchored on (2, 1) it sweeps the pixels (0..=4, 0..=2).
    assert!(check_neighbours(&with_pixels(8, 8, &[(4, 2)]), &kernel, 2, 1, true));
    assert!(!check_neighbours(&with_pixels(8, 8, &[(4, 3)]), &kernel, 2, 1, true));
}

#[test]
fn column_and_row_zero_can_be_tested() {
    let kernel = Vec2d::filled(5, 5);
    // Anchored on (0, 0) only the pixel (0, 0) is swept.
    assert!(check_neighbours(&with_pixels(4, 4, &[(0, 0)]), &kernel, 0, 0, true));
    assert!(!check_neighbours(&with_pixels(4, 4, &[(1, 0), (0, 1), (1, 1)]), &kernel, 0, 0, true));
    assert!(check_neighbours(&with_pixels(4, 4, &[(0, 0)]), &kernel, 0, 0, false));
    // Anchored on (0, 3) the pixels (0, 1..=3) and the unset (0, 4), (0, 5) are swept.
    assert!(check_neighbours(&with_pixels(4, 4, &[(0, 1)]), &kernel, 0, 3, true));
    assert!(!check_neighbours(&with_pixels(4, 4, &[(1, 3)]), &kernel, 0, 3, true));
    assert!(!check_neighbours(&Vec2d::filled(4, 4), &kernel, 0, 3, false));
    // A kernel far larger than the image.
    let large = Vec2d::filled(41, 41);
    assert!(check_neighbours(&with_pixels(4, 4, &[(0, 2)]), &large, 0, 1, true));
    assert!(!check_neighbours(&with_pixels(4, 4, &[(0, 3)]), &large, 0, 1, true));
    assert!(check_neighbours(&with_pixels(4, 4, &[(2, 3)]), &large, 3, 3, true));
}

#[test]
fn even_kernels_anchor_right_of_centre() {
    let kernel = Vec2d::filled(2, 2);
    // Anchored on (2, 2) the 2x2 kernel sweeps the pixels (1..=2, 1..=2).
    for (pixel, hit) in [((1, 1), true), ((2, 1), true), ((1, 2), true), ((2, 2), true), ((3, 2), false), ((2, 3), false), ((0, 1), false)] {
        assert_eq!(check_neighbours(&with_pixels(5, 5, &[pixel]), &kernel, 2, 2, true), hit);
    }
    // Anchored on column 0 the sweep is empty.
    assert!(!check_neighbours(&Vec2d::filled(5, 5), &kernel, 0, 2, true));
    assert!(check_neighbours(&Vec2d::empty(5, 5), &kernel, 0, 2, false));
}

#[test]
fn pixels_beyond_the_largest_coordinate_are_unset() {
    let image = Vec2d::filled(3, 3);
    let kernel = Vec2d::filled(3, 3);
    assert!(!check_neighbours(&image, &kernel, usize::MAX, 1, true));
    assert!(!check_neighbours(&image, &kernel, 1, usize::MAX, true));
    assert!(!check_neighbours(&image, &kernel, usize::MAX, usize::MAX, false));
    assert!(check_neighbours(&image, &kernel, 3, 3, true));
    assert!(!check_neighbours(&image, &kernel, 4, 3, true));
    assert!(!check_neighbours(&image, &kernel, 3, 4, true));
}

#[test]
fn kernel_of_the_largest_width() {
    let kernel = Vec2d { width: usize::MAX, height: 1, data: Vec::new() };
    // Anchored on column 1 the sweep is cut down to the columns 0..=2.
    assert!(!check_neighbours(&Vec2d::filled(2, 2), &kernel, 1, 1, false));
    assert!(check_neighbours(&Vec2d::filled(3, 3), &kernel, 1, 1, false));
    assert!(!check_neighbours(&Vec2d::filled(3, 3), &kernel, 2, 1, false));
    let output = erode(&Vec2d::filled(3, 3), &kernel);
    assert_eq!(output.data, block(3, 3, (1, 1), (1, 2)));
}
