//! Image segmentation and text clean-up for reading item names off game
//! screenshots: pixel masks and their histograms, cropping and splitting
//! of reward and inventory panels, selection of the best-matching text
//! scales, and normalisation of recognised text.

pub mod crop;
pub mod draw;
pub mod grid;
pub mod histogram;
pub mod layout;
pub mod ranking;
pub mod text;

pub use crop::{crop, CropRect};
pub use draw::{draw_histogram, draw_rank_lines};
pub use grid::{Color, Mask, PixelGrid};
pub use histogram::{binarize, clamped_column_counts, row_counts};
pub use layout::{
    inventory_block_rects, inventory_row_rects, part_box_rects, scaling_basis, split_inventory_row,
    split_part_box, PartLayout,
};
pub use ranking::select_top_five;
pub use text::normalize_string;
