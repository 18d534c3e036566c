use vstd::prelude::*;

verus! {

/// An 8-bit RGB colour.
#[derive(Clone, Copy, Debug, PartialEq, Eq, Structural)]
pub struct Color {
    pub r: u8,
    pub g: u8,
    pub b: u8,
}

/// `(r, g, b)` as a colour.
pub open spec fn rgb(r: u8, g: u8, b: u8) -> Color {
    Color { r, g, b }
}

/// The grid's shape holds: `height` rows of `width` entries each.
pub open spec fn has_shape<T>(rows: Seq<Seq<T>>, width: int, height: int) -> bool {
    &&& rows.len() == height
    &&& forall|y: int| 0 <= y < height ==> (#[trigger] rows[y]).len() == width
}

/// A rectangular image of RGB pixels, stored row by row.
pub struct PixelGrid {
    width: u32,
    height: u32,
    rows: Vec<Vec<Color>>,
}

/// A rectangular field of flags, one per pixel, stored row by row: which
/// pixels of an image pass a colour filter.
pub struct Mask {
    width: u32,
    height: u32,
    rows: Vec<Vec<bool>>,
}

pub open spec fn rows_view<T>(rows: Seq<Vec<T>>) -> Seq<Seq<T>> {
    rows.map_values(|r: Vec<T>| r@)
}

impl PixelGrid {
    #[verifier::type_invariant]
    spec fn shaped(self) -> bool {
        has_shape(rows_view(self.rows@), self.width as int, self.height as int)
    }

    pub closed spec fn spec_width(&self) -> u32 {
        self.width
    }

    pub closed spec fn spec_height(&self) -> u32 {
        self.height
    }

    /// The pixels, row by row.
    pub closed spec fn pixels(&self) -> Seq<Seq<Color>> {
        rows_view(self.rows@)
    }

    /// The pixel in column `x` of row `y`.
    pub open spec fn at(&self, x: int, y: int) -> Color {
        self.pixels()[y][x]
    }

    #[verifier::when_used_as_spec(spec_width)]
    pub fn width(&self) -> (w: u32)
        ensures
            w == self.spec_width(),
            has_shape(self.pixels(), w as int, self.spec_height() as int),
    {
        proof {
            use_type_invariant(self);
        }
        self.width
    }

    #[verifier::when_used_as_spec(spec_height)]
    pub fn height(&self) -> (h: u32)
        ensures
            h == self.spec_height(),
            has_shape(self.pixels(), self.spec_width() as int, h as int),
    {
        proof {
            use_type_invariant(self);
        }
        self.height
    }

    /// A grid of the given rows, if there are `height` of them and each
    /// holds `width` pixels.
    pub fn new(width: u32, height: u32, rows: Vec<Vec<Color>>) -> (res: Option<PixelGrid>)
        ensures
            res is Some <==> has_shape(rows_view(rows@), width as int, height as int),
            res matches Some(g) ==> g.width() == width && g.height() == height && g.pixels()
                == rows_view(rows@),
    {
        if rows.len() != height as usize {
            return None;
        }
        let mut y: usize = 0;
        while y < rows.len()
            invariant
                rows.len() == height,
                0 <= y <= rows.len(),
                forall|k: int| 0 <= k < y ==> (#[trigger] rows@[k])@.len() == width,
            decreases rows.len() - y,
        {
            if rows[y].len() != width as usize {
                assert(rows_view(rows@)[y as int].len() != width);
                return None;
            }
            y = y + 1;
        }
        Some(PixelGrid { width, height, rows })
    }

    /// The grid of the given rows, which have its shape.
    pub fn from_rows(width: u32, height: u32, rows: Vec<Vec<Color>>) -> (g: PixelGrid)
        requires
            has_shape(rows_view(rows@), width as int, height as int),
        ensures
            g.width() == width,
            g.height() == height,
            g.pixels() == rows_view(rows@),
    {
        PixelGrid { width, height, rows }
    }

    /// The pixel in column `x` of row `y`.
    pub fn get(&self, x: u32, y: u32) -> (c: Color)
        requires
            x < self.width(),
            y < self.height(),
        ensures
            c == self.at(x as int, y as int),
    {
        proof {
            use_type_invariant(self);
        }
        assert(rows_view(self.rows@)[y as int] == self.rows@[y as int]@);
        self.rows[y as usize][x as usize]
    }

    /// Paints the pixel in column `x` of row `y` (`image::ImageBuffer::put_pixel`).
    pub fn put_pixel(&mut self, x: u32, y: u32, color: Color)
        requires
            x < old(self).width(),
            y < old(self).height(),
        ensures
            final(self).width() == old(self).width(),
            final(self).height() == old(self).height(),
            forall|i: int, j: int|
                #![trigger final(self).at(i, j)]
                0 <= i < final(self).width() && 0 <= j < final(self).height() ==> final(self).at(i, j)
                    == if i == x && j == y {
                    color
                } else {
                    old(self).at(i, j)
                },
    {
        proof {
            use_type_invariant(&*self);
        }
        let mut taken = PixelGrid { width: 0, height: 0, rows: Vec::new() };
        core::mem::swap(self, &mut taken);
        let PixelGrid { width, height, mut rows } = taken;
        let ghost before = rows@;
        assert(has_shape(rows_view(before), width as int, height as int));
        assert(rows_view(before)[y as int] == before[y as int]@);
        assert(before[y as int]@.len() == width);
        rows[y as usize][x as usize] = color;
        proof {
            assert forall|j: int| 0 <= j < rows@.len() implies (#[trigger] rows@[j])@ == if j == y {
                before[j]@.update(x as int, color)
            } else {
                before[j]@
            } by {}
            assert forall|j: int| 0 <= j < height implies (#[trigger] rows_view(rows@)[j]).len()
                == width by {
                assert(rows_view(before)[j] == before[j]@);
            }
        }
        *self = PixelGrid { width, height, rows };
    }

    /// The rows of pixels.
    pub fn into_rows(self) -> (rows: Vec<Vec<Color>>)
        ensures
            rows_view(rows@) == self.pixels(),
    {
        self.rows
    }
}

impl Mask {
    #[verifier::type_invariant]
    spec fn shaped(self) -> bool {
        has_shape(rows_view(self.rows@), self.width as int, self.height as int)
    }

    pub closed spec fn spec_width(&self) -> u32 {
        self.width
    }

    pub closed spec fn spec_height(&self) -> u32 {
        self.height
    }

    /// The flags, row by row.
    pub closed spec fn flags(&self) -> Seq<Seq<bool>> {
        rows_view(self.rows@)
    }

    /// The flag of the pixel in column `x` of row `y`.
    pub open spec fn at(&self, x: int, y: int) -> bool {
        self.flags()[y][x]
    }

    #[verifier::when_used_as_spec(spec_width)]
    pub fn width(&self) -> (w: u32)
        ensures
            w == self.spec_width(),
            has_shape(self.flags(), w as int, self.spec_height() as int),
    {
        proof {
            use_type_invariant(self);
        }
        self.width
    }

    #[verifier::when_used_as_spec(spec_height)]
    pub fn height(&self) -> (h: u32)
        ensures
            h == self.spec_height(),
            has_shape(self.flags(), self.spec_width() as int, h as int),
    {
        proof {
            use_type_invariant(self);
        }
        self.height
    }

    /// A mask of the given rows, if there are `height` of them and each
    /// holds `width` flags.
    pub fn new(width: u32, height: u32, rows: Vec<Vec<bool>>) -> (res: Option<Mask>)
        ensures
            res is Some <==> has_shape(rows_view(rows@), width as int, height as int),
            res matches Some(m) ==> m.width() == width && m.height() == height && m.flags()
                == rows_view(rows@),
    {
        if rows.len() != height as usize {
            return None;
        }
        let mut y: usize = 0;
        while y < rows.len()
            invariant
                rows.len() == height,
                0 <= y <= rows.len(),
                forall|k: int| 0 <= k < y ==> (#[trigger] rows@[k])@.len() == width,
            decreases rows.len() - y,
        {
            if rows[y].len() != width as usize {
                assert(rows_view(rows@)[y as int].len() != width);
                return None;
            }
            y = y + 1;
        }
        Some(Mask { width, height, rows })
    }

    /// The mask of the given rows, which have its shape.
    pub fn from_rows(width: u32, height: u32, rows: Vec<Vec<bool>>) -> (m: Mask)
        requires
            has_shape(rows_view(rows@), width as int, height as int),
        ensures
            m.width() == width,
            m.height() == height,
            m.flags() == rows_view(rows@),
    {
        Mask { width, height, rows }
    }

    /// The flag of the pixel in column `x` of row `y`.
    pub fn get(&self, x: u32, y: u32) -> (f: bool)
        requires
            x < self.width(),
            y < self.height(),
        ensures
            f == self.at(x as int, y as int),
    {
        proof {
            use_type_invariant(self);
        }
        assert(rows_view(self.rows@)[y as int] == self.rows@[y as int]@);
        self.rows[y as usize][x as usize]
    }
}

} // verus!
