//! A width × height grid of pixels with bounds-checked access.
use vstd::prelude::*;
use vstd::string::StringExecFns;
use crate::text::{decimal, push_decimal};

verus! {

/// One of the two coordinate axes of a canvas.
#[derive(Clone, Copy, Debug, PartialEq, Eq, Structural)]
pub enum Axis {
    X,
    Y,
}

/// A pixel coordinate that lies outside the canvas: the axis on which it
/// does, and the coordinate's value on that axis.
#[derive(Clone, Copy, Debug, PartialEq, Eq, Structural)]
pub struct OutOfRange {
    pub axis: Axis,
    pub value: usize,
}

/// The error that an access at `(x, y)` meets on a `width × height` canvas,
/// if any. The `x` coordinate is checked first.
pub open spec fn bounds_error(x: usize, y: usize, width: nat, height: nat) -> Option<OutOfRange> {
    if x >= width {
        Some(OutOfRange { axis: Axis::X, value: x })
    } else if y >= height {
        Some(OutOfRange { axis: Axis::Y, value: y })
    } else {
        None
    }
}

/// The text of an out-of-range error, such as `x 10 out of range`.
pub open spec fn out_of_range_text(e: OutOfRange) -> Seq<char> {
    let axis = match e.axis {
        Axis::X => 'x',
        Axis::Y => 'y',
    };
    seq![axis, ' '] + decimal(e.value as nat) + seq![
        ' ',
        'o',
        'u',
        't',
        ' ',
        'o',
        'f',
        ' ',
        'r',
        'a',
        'n',
        'g',
        'e',
    ]
}

impl OutOfRange {
    /// A message naming the axis and the offending coordinate.
    pub fn message(&self) -> (s: String)
        ensures
            s@ == out_of_range_text(*self),
    {
        let mut s = match self.axis {
            Axis::X => {
                proof { reveal_strlit("x "); }
                String::from_str("x ")
            },
            Axis::Y => {
                proof { reveal_strlit("y "); }
                String::from_str("y ")
            },
        };
        push_decimal(&mut s, self.value);
        proof { reveal_strlit(" out of range"); }
        s.append(" out of range");
        assert(s@ =~= out_of_range_text(*self));
        s
    }
}

/// A `width × height` grid of pixels, stored row after row.
pub struct Canvas<T> {
    width: usize,
    height: usize,
    pixels: Vec<T>,
}

impl<T> Canvas<T> {
    #[verifier::type_invariant]
    spec fn well_formed(self) -> bool {
        self.pixels@.len() == self.width * self.height
    }

    /// Number of columns.
    pub closed spec fn spec_width(&self) -> nat {
        self.width as nat
    }

    /// Number of rows.
    pub closed spec fn spec_height(&self) -> nat {
        self.height as nat
    }

    /// The pixel in column `x` of row `y`.
    pub closed spec fn pixel(&self, x: int, y: int) -> T {
        self.pixels@[y * self.width + x]
    }

    /// `self` is `before` with the pixel at `(x, y)` set to `color`.
    pub open spec fn is_write_of(&self, before: &Self, x: int, y: int, color: T) -> bool {
        &&& self.spec_width() == before.spec_width()
        &&& self.spec_height() == before.spec_height()
        &&& self@ == before@.update(y, before@[y].update(x, color))
    }

    /// The pixels, one sequence per row from top to bottom, each from left to right.
    pub open spec fn view(&self) -> Seq<Seq<T>> {
        Seq::new(self.spec_height(), |y: int| Seq::new(self.spec_width(), |x: int| self.pixel(x, y)))
    }
}

/// After a write at a coordinate inside the canvas, that pixel holds the
/// color written and every other pixel holds what it held before.
pub proof fn lemma_read_after_write<T>(
    before: Canvas<T>,
    after: Canvas<T>,
    x: int,
    y: int,
    color: T,
)
    requires
        0 <= x < before.spec_width(),
        0 <= y < before.spec_height(),
        after.is_write_of(&before, x, y, color),
    ensures
        after@[y][x] == color,
        forall|a: int, b: int|
            0 <= a < after.spec_width() && 0 <= b < after.spec_height() && (a != x || b != y)
                ==> #[trigger] after@[b][a] == before@[b][a],
{
}

/// On a canvas `width` pixels wide, column `width` lies outside it, whatever
/// the row: the access fails on the `x` axis with that coordinate.
pub proof fn lemma_column_past_edge(width: nat, height: nat, y: usize)
    requires
        width <= usize::MAX,
    ensures
        bounds_error(width as usize, y, width, height) == Some(
            OutOfRange { axis: Axis::X, value: width as usize },
        ),
{
}

proof fn lemma_index_in_range(x: int, y: int, width: int, height: int)
    requires
        0 <= x < width,
        0 <= y < height,
    ensures
        0 <= y * width + x < width * height,
{
    assert(y * width + x < width * height) by (nonlinear_arith)
        requires
            0 <= x < width,
            0 <= y < height,
    ;
}

proof fn lemma_index_distinct(x1: int, y1: int, x2: int, y2: int, width: int)
    requires
        0 <= x1 < width,
        0 <= x2 < width,
        0 <= y1,
        0 <= y2,
        y1 * width + x1 == y2 * width + x2,
    ensures
        x1 == x2,
        y1 == y2,
{
    if y1 < y2 {
        assert(y1 * width + width <= y2 * width) by (nonlinear_arith)
            requires
                y1 < y2,
                0 <= width,
        ;
    } else if y2 < y1 {
        assert(y2 * width + width <= y1 * width) by (nonlinear_arith)
            requires
                y2 < y1,
                0 <= width,
        ;
    }
}

impl<T: Copy> Canvas<T> {
    /// A `width × height` canvas with every pixel `background`.
    pub fn new(width: usize, height: usize, background: T) -> (c: Self)
        requires
            width * height <= usize::MAX,
        ensures
            c.spec_width() == width,
            c.spec_height() == height,
            forall|x: int, y: int|
                0 <= x < width && 0 <= y < height ==> #[trigger] c@[y][x] == background,
    {
        let n: usize = width * height;
        let mut pixels: Vec<T> = Vec::new();
        let mut i: usize = 0;
        while i < n
            invariant
                i <= n,
                pixels@ == Seq::new(i as nat, |k: int| background),
            decreases n - i,
        {
            pixels.push(background);
            i = i + 1;
            assert(pixels@ =~= Seq::new(i as nat, |k: int| background));
        }
        let c = Canvas { width, height, pixels };
        assert forall|x: int, y: int| 0 <= x < width && 0 <= y < height implies #[trigger] c@[y][x]
            == background by {
            lemma_index_in_range(x, y, width as int, height as int);
        }
        c
    }

    /// Number of columns.
    pub fn get_width(&self) -> (w: usize)
        ensures
            w == self.spec_width(),
    {
        self.width
    }

    /// Number of rows.
    pub fn get_height(&self) -> (h: usize)
        ensures
            h == self.spec_height(),
    {
        self.height
    }

    /// The pixel in column `x` of row `y`, or the error of a coordinate outside the canvas.
    pub fn get_pixel_at(&self, x: usize, y: usize) -> (r: Result<&T, OutOfRange>)
        ensures
            match r {
                Ok(p) => bounds_error(x, y, self.spec_width(), self.spec_height()) is None && *p
                    == self@[y as int][x as int],
                Err(e) => bounds_error(x, y, self.spec_width(), self.spec_height()) == Some(e),
            },
    {
        proof { use_type_invariant(self); }
        if x >= self.width {
            return Err(OutOfRange { axis: Axis::X, value: x });
        }
        if y >= self.height {
            return Err(OutOfRange { axis: Axis::Y, value: y });
        }
        let n: usize = self.pixels.len();
        proof { lemma_index_in_range(x as int, y as int, self.width as int, self.height as int); }
        Ok(&self.pixels[y * self.width + x])
    }

    /// Sets the pixel in column `x` of row `y` to `color`, or leaves the canvas
    /// unchanged and returns the error of a coordinate outside it.
    pub fn write_pixel_at(&mut self, x: usize, y: usize, color: T) -> (r: Result<(), OutOfRange>)
        ensures
            final(self).spec_width() == old(self).spec_width(),
            final(self).spec_height() == old(self).spec_height(),
            match bounds_error(x, y, old(self).spec_width(), old(self).spec_height()) {
                Some(e) => r == Err::<(), OutOfRange>(e) && final(self)@ == old(self)@,
                None => r is Ok && final(self).is_write_of(old(self), x as int, y as int, color),
            },
    {
        proof { use_type_invariant(&*self); }
        if x >= self.width {
            return Err(OutOfRange { axis: Axis::X, value: x });
        }
        if y >= self.height {
            return Err(OutOfRange { axis: Axis::Y, value: y });
        }
        let n: usize = self.pixels.len();
        proof { lemma_index_in_range(x as int, y as int, self.width as int, self.height as int); }
        let i: usize = y * self.width + x;
        let ghost before = *self;
        assert(before@[y as int].len() == self.width);
        let mut taken = Canvas { width: 0, height: 0, pixels: Vec::new() };
        std::mem::swap(self, &mut taken);
        let Canvas { width, height, mut pixels } = taken;
        pixels.set(i, color);
        *self = Canvas { width, height, pixels };
        proof {
            let expected = before@.update(y as int, before@[y as int].update(x as int, color));
            assert(expected.len() == self.height);
            assert forall|b: int| 0 <= b < self.height implies #[trigger] self@[b] == expected[b] by {
                assert(expected[b].len() == self.width);
                assert forall|a: int| 0 <= a < self.width implies #[trigger] self@[b][a]
                    == expected[b][a] by {
                    lemma_index_in_range(a, b, self.width as int, self.height as int);
                    if b * self.width + a == i {
                        lemma_index_distinct(a, b, x as int, y as int, self.width as int);
                    }
                }
                assert(self@[b] =~= expected[b]);
            }
            assert(self@ =~= expected);
            assert(self.is_write_of(&before, x as int, y as int, color));
        }
        Ok(())
    }
}

/// The text of one pixel: its three channels in decimal, each followed by a space.
pub open spec fn pixel_text(p: (u8, u8, u8)) -> Seq<char> {
    decimal(p.0 as nat) + seq![' '] + decimal(p.1 as nat) + seq![' '] + decimal(p.2 as nat) + seq![' ']
}

/// The text of a row of pixels, left to right.
pub open spec fn row_text(row: Seq<(u8, u8, u8)>) -> Seq<char>
    decreases row.len(),
{
    if row.len() == 0 {
        seq![]
    } else {
        row_text(row.drop_last()) + pixel_text(row.last())
    }
}

/// The text of rows of pixels, top to bottom, each ended by a newline.
pub open spec fn rows_text(rows: Seq<Seq<(u8, u8, u8)>>) -> Seq<char>
    decreases rows.len(),
{
    if rows.len() == 0 {
        seq![]
    } else {
        rows_text(rows.drop_last()) + row_text(rows.last()) + seq!['\n']
    }
}

/// The header of the plain text image format: its magic line, the width and
/// height, and the largest channel value.
pub open spec fn ppm_header(width: nat, height: nat) -> Seq<char> {
    seq!['P', '3', '\n'] + decimal(width) + seq![' '] + decimal(height) + seq![
        '\n',
        '2',
        '5',
        '5',
        '\n',
    ]
}

/// A whole image in the plain text format.
pub open spec fn ppm_text(width: nat, height: nat, rows: Seq<Seq<(u8, u8, u8)>>) -> Seq<char> {
    ppm_header(width, height) + rows_text(rows)
}

impl Canvas<(u8, u8, u8)> {
    /// The canvas in the plain text image format, its pixels being channel
    /// values from 0 to 255.
    pub fn to_ppm_string(&self) -> (s: String)
        ensures
            s@ == ppm_text(self.spec_width(), self.spec_height(), self@),
    {
        proof { use_type_invariant(self); }
        let n: usize = self.pixels.len();
        let width = self.width;
        let height = self.height;
        proof {
            reveal_strlit("P3\n");
            reveal_strlit(" ");
            reveal_strlit("\n255\n");
        }
        let mut s = String::from_str("P3\n");
        push_decimal(&mut s, width);
        s.append(" ");
        push_decimal(&mut s, height);
        s.append("\n255\n");
        assert(s@ =~= ppm_header(width as nat, height as nat));
        let ghost grid = self@;
        let mut y: usize = 0;
        while y < height
            invariant
                y <= height,
                width == self.spec_width(),
                height == self.spec_height(),
                n == self.pixels@.len(),
                n == width * height,
                grid == self@,
                s@ == ppm_header(width as nat, height as nat) + rows_text(grid.subrange(0, y as int)),
            decreases height - y,
        {
            let mut x: usize = 0;
            while x < width
                invariant
                    x <= width,
                    y < height,
                    width == self.spec_width(),
                    height == self.spec_height(),
                    n == self.pixels@.len(),
                    n == width * height,
                    grid == self@,
                    s@ == ppm_header(width as nat, height as nat) + rows_text(
                        grid.subrange(0, y as int),
                    ) + row_text(grid[y as int].subrange(0, x as int)),
                decreases width - x,
            {
                proof { lemma_index_in_range(x as int, y as int, width as int, height as int); }
                let p = self.pixels[y * width + x];
                assert(p == grid[y as int][x as int]);
                let ghost before = s@;
                proof { reveal_strlit(" "); }
                let mut t = String::new();
                push_decimal(&mut t, p.0 as usize);
                t.append(" ");
                push_decimal(&mut t, p.1 as usize);
                t.append(" ");
                push_decimal(&mut t, p.2 as usize);
                t.append(" ");
                assert(t@ =~= pixel_text(p));
                s.append(t.as_str());
                proof {
                    let row = grid[y as int].subrange(0, x as int + 1);
                    assert(row.drop_last() =~= grid[y as int].subrange(0, x as int));
                    assert(row.last() == p);
                    assert(row_text(row) == row_text(row.drop_last()) + pixel_text(p));
                    assert(s@ =~= before + pixel_text(p));
                }
                x = x + 1;
            }
            proof { reveal_strlit("\n"); }
            s.append("\n");
            proof {
                let rows = grid.subrange(0, y as int + 1);
                assert(rows.drop_last() =~= grid.subrange(0, y as int));
                assert(grid[y as int].subrange(0, width as int) =~= grid[y as int]);
                assert(rows.last() == grid[y as int]);
                assert(rows_text(rows) == rows_text(rows.drop_last()) + row_text(rows.last())
                    + seq!['\n']);
                assert(s@ =~= ppm_header(width as nat, height as nat) + rows_text(rows));
            }
            y = y + 1;
        }
        assert(grid.subrange(0, height as int) =~= grid);
        s
    }
}

} // verus!
