use ocr::{
    binarize, clamped_column_counts, crop, draw_histogram, draw_rank_lines, inventory_block_rects,
    inventory_row_rects, normalize_string, part_box_rects, row_counts, scaling_basis,
    select_top_five, split_inventory_row, split_part_box, Color, CropRect, Mask, PartLayout,
    PixelGrid,
};

fn c(r: u8, g: u8, b: u8) -> Color {
    Color { r, g, b }
}

/// A grid whose pixel (x, y) has red x, green y and blue 7.
fn coordinate_grid(width: u32, height: u32) -> PixelGrid {
    let rows: Vec<Vec<Color>> = (0..height)
        .map(|y| (0..width).map(|x| c(x as u8, y as u8, 7)).collect())
        .collect();
    PixelGrid::new(width, height, rows).unwrap()
}

fn mask_of(rows: &[&str]) -> Mask {
    let height = rows.len() as u32;
    let width = if rows.is_empty() { 0 } else { rows[0].len() as u32 };
    let flags: Vec<Vec<bool>> = rows.iter().map(|r| r.chars().map(|ch| ch == '#').collect()).collect();
    Mask::new(width, height, flags).unwrap()
}

#[test]
fn normalize_keeps_only_ascii_letters() {
    assert_eq!(normalize_string("Forma Blueprint"), "FormaBlueprint");
    assert_eq!(normalize_string("Nikana Prime\nBlade 2x!"), "NikanaPrimeBladex");
    assert_eq!(normalize_string(""), "");
    assert_eq!(normalize_string("1234 -_"), "");
    assert_eq!(normalize_string("ÄrgerÉté"), "rgert");
}

#[test]
fn normalize_twice_is_normalize_once() {
    let once = normalize_string("  Lex Prime: Receiver ");
    assert_eq!(normalize_string(&once), once);
}

#[test]
fn top_five_of_no_weights_is_empty() {
    assert_eq!(select_top_five(&vec![]), vec![-1, -1, -1, -1, -1]);
}

#[test]
fn top_five_of_few_weights_fills_from_the_end() {
    assert_eq!(select_top_five(&vec![7]), vec![-1, -1, -1, -1, 0]);
    assert_eq!(select_top_five(&vec![5, 3, 9]), vec![-1, -1, 2, 0, 1]);
}

#[test]
fn top_five_keeps_the_smallest_weights_smallest_last() {
    assert_eq!(select_top_five(&vec![10, 1, 8, 2, 9, 3, 7, 4, 6, 5]), vec![9, 7, 5, 3, 1]);
}

#[test]
fn top_five_prefers_later_positions_on_ties() {
    assert_eq!(select_top_five(&vec![4, 4, 4, 4, 4, 4, 4]), vec![2, 3, 4, 5, 6]);
    assert_eq!(select_top_five(&vec![3, 1, 2, 1, 5, 0, 0, 9]), vec![2, 1, 3, 5, 6]);
}

#[test]
fn top_five_of_fifty_scales() {
    let w: Vec<u32> = vec![
        4, 18, 2, 8, 3, 15, 14, 15, 20, 12, 6, 3, 15, 0, 12, 13, 19, 0, 14, 8, 7, 18, 3, 10, 0, 0,
        0, 20, 17, 0, 12, 6, 13, 0, 16, 7, 14, 15, 17, 7, 11, 7, 7, 14, 9, 0, 13, 17, 20, 3,
    ];
    let top = select_top_five(&w);
    assert_eq!(top, vec![25, 26, 29, 33, 45]);
    // the last slot is the scale the search settles on: a smallest weight
    assert_eq!(w[top[4] as usize], 0);
}

#[test]
fn row_counts_count_set_pixels_per_row() {
    let mask = mask_of(&["#.#.", "....", "####"]);
    assert_eq!(row_counts(&mask), vec![2, 0, 4]);
}

#[test]
fn column_counts_are_capped_at_a_third_of_the_height() {
    let mask = mask_of(&["#..#", "#..#", "#...", "#.#.", "#...", "#..."]);
    // raw counts are 6, 0, 1, 2; the cap is 6 / 3 = 2
    assert_eq!(clamped_column_counts(&mask), vec![2, 0, 1, 2]);
}

#[test]
fn column_counts_of_short_masks_are_zero() {
    let mask = mask_of(&["##", "##"]);
    assert_eq!(clamped_column_counts(&mask), vec![0, 0]);
}

#[test]
fn binarize_paints_set_pixels_black_and_the_rest_white() {
    let mask = mask_of(&["#.", ".#"]);
    let g = binarize(&mask);
    assert_eq!(g.width(), 2);
    assert_eq!(g.height(), 2);
    assert_eq!(g.get(0, 0), c(0, 0, 0));
    assert_eq!(g.get(1, 0), c(255, 255, 255));
    assert_eq!(g.get(0, 1), c(255, 255, 255));
    assert_eq!(g.get(1, 1), c(0, 0, 0));
}

#[test]
fn grid_and_mask_reject_wrong_shapes() {
    assert!(PixelGrid::new(2, 1, vec![vec![c(0, 0, 0)]]).is_none());
    assert!(PixelGrid::new(1, 2, vec![vec![c(0, 0, 0)]]).is_none());
    assert!(Mask::new(1, 1, vec![vec![true, false]]).is_none());
    assert!(Mask::new(0, 0, vec![]).is_some());
}

#[test]
fn crop_inside_the_image() {
    let g = coordinate_grid(6, 5);
    let out = crop(&g, CropRect { x: 2, y: 1, width: 3, height: 2 });
    assert_eq!((out.width(), out.height()), (3, 2));
    assert_eq!(out.get(0, 0), c(2, 1, 7));
    assert_eq!(out.get(2, 1), c(4, 2, 7));
}

#[test]
fn crop_is_cut_down_to_the_image() {
    let g = coordinate_grid(6, 5);
    let out = crop(&g, CropRect { x: 4, y: 3, width: 10, height: 10 });
    assert_eq!((out.width(), out.height()), (2, 2));
    assert_eq!(out.get(1, 1), c(5, 4, 7));
    let outside = crop(&g, CropRect { x: 9, y: 9, width: 3, height: 3 });
    assert_eq!((outside.width(), outside.height()), (0, 0));
}

#[test]
fn part_box_with_four_parts() {
    let rects = part_box_rects(100, 30, PartLayout::Four);
    assert_eq!(
        rects,
        vec![
            CropRect { x: 0, y: 0, width: 25, height: 30 },
            CropRect { x: 25, y: 0, width: 25, height: 30 },
            CropRect { x: 50, y: 0, width: 25, height: 30 },
            CropRect { x: 75, y: 0, width: 25, height: 30 },
        ]
    );
}

#[test]
fn part_box_with_three_centred_parts() {
    let rects = part_box_rects(103, 30, PartLayout::Three);
    assert_eq!(
        rects,
        vec![
            CropRect { x: 12, y: 0, width: 25, height: 30 },
            CropRect { x: 37, y: 0, width: 25, height: 30 },
            CropRect { x: 62, y: 0, width: 25, height: 30 },
        ]
    );
}

#[test]
fn split_part_box_crops_each_part() {
    let g = coordinate_grid(8, 2);
    let parts = split_part_box(&g, PartLayout::Three);
    assert_eq!(parts.len(), 3);
    assert_eq!((parts[0].width(), parts[0].height()), (2, 2));
    assert_eq!(parts[0].get(0, 0), c(1, 0, 7));
    assert_eq!(parts[2].get(1, 1), c(6, 1, 7));
}

#[test]
fn inventory_rows_and_blocks() {
    let rows = inventory_row_rects(900);
    assert_eq!(rows.len(), 4);
    assert_eq!(rows[0], CropRect { x: 76, y: 199, width: 900, height: 169 });
    assert_eq!(rows[3], CropRect { x: 76, y: 799, width: 900, height: 169 });
    let blocks = inventory_block_rects();
    assert_eq!(blocks.len(), 6);
    assert_eq!(blocks[1], CropRect { x: 211, y: 0, width: 169, height: 169 });
    assert_eq!(blocks[5], CropRect { x: 1055, y: 0, width: 169, height: 169 });
}

#[test]
fn split_inventory_row_cuts_blocks_to_the_row() {
    let g = coordinate_grid(300, 10);
    let blocks = split_inventory_row(&g);
    assert_eq!(blocks.len(), 6);
    assert_eq!((blocks[0].width(), blocks[0].height()), (169, 10));
    assert_eq!((blocks[1].width(), blocks[1].height()), (89, 10));
    assert_eq!(blocks[1].get(0, 3), c(211, 3, 7));
    assert_eq!((blocks[2].width(), blocks[2].height()), (0, 10));
}

#[test]
fn scaling_basis_follows_the_aspect_ratio() {
    assert_eq!(scaling_basis(1920, 1080), (1920, 1920));
    assert_eq!(scaling_basis(3440, 1440), (1440, 1080));
    assert_eq!(scaling_basis(1280, 1024), (1280, 1920));
}

#[test]
fn put_pixel_changes_one_pixel() {
    let mut g = coordinate_grid(3, 3);
    g.put_pixel(1, 2, c(9, 9, 9));
    assert_eq!(g.get(1, 2), c(9, 9, 9));
    assert_eq!(g.get(2, 1), c(2, 1, 7));
}

#[test]
fn histogram_is_drawn_in_green_from_the_left() {
    let mut g = coordinate_grid(4, 3);
    draw_histogram(&mut g, &vec![2, 0, 4]);
    assert_eq!(g.get(0, 0), c(0, 255, 0));
    assert_eq!(g.get(1, 0), c(0, 255, 0));
    assert_eq!(g.get(2, 0), c(2, 0, 7));
    assert_eq!(g.get(0, 1), c(0, 1, 7));
    assert_eq!(g.get(3, 2), c(0, 255, 0));
}

#[test]
fn rank_lines_are_red_and_later_lines_win() {
    let mut g = coordinate_grid(2, 6);
    draw_rank_lines(&mut g, &vec![1, 3, 1, 5, 0]);
    assert_eq!(g.get(0, 1), c(155, 0, 0));
    assert_eq!(g.get(1, 3), c(205, 0, 0));
    assert_eq!(g.get(0, 5), c(105, 0, 0));
    assert_eq!(g.get(1, 0), c(55, 0, 0));
    assert_eq!(g.get(0, 2), c(0, 2, 7));
}
