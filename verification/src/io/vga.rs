//! Text layout on the frame buffer: where the next character is drawn, and
//! which bytes of the buffer make a pixel.
//!
//! Characters are drawn in cells of `CHAR_WIDTH` by `CHAR_HEIGHT` pixels,
//! within a border that stays blank.

use vstd::prelude::*;

verus! {

/// Intensity of the background: black.
pub const BG_COLOR: u8 = 0x00;

pub const HORIZONTAL_BORDER_PADDING: usize = 30;

pub const VERTICAL_BORDER_PADDING: usize = 30;

pub const CHAR_SPACING: usize = 0;

/// Height of a character's cell in pixels: that of the font's rasters.
pub const CHAR_HEIGHT: usize = 16;

/// Width of a character's cell in pixels: that of the rasters of the
/// font's regular weight at this height.
pub const CHAR_WIDTH: usize = 7;

pub const LINE_SPACING: usize = 2;

/// The character that is drawn in place of one that the font does not know.
pub const UNKNOWN_CHAR: char = ' ';

/// The raster of a character in the regular weight at sixteen pixels of
/// height, row by row from the top, each pixel an intensity; nothing for a
/// character that the font does not know.
pub uninterp spec fn raster_of(c: char) -> Option<Seq<Seq<u8>>>;

/// The rows of a raster as sequences.
pub open spec fn rows_of(raster: Seq<Vec<u8>>) -> Seq<Seq<u8>> {
    raster.map_values(|row: Vec<u8>| row@)
}

/// Calls `noto_sans_mono_bitmap::get_raster` for the regular weight at
/// sixteen pixels of height, and copies the rows of the raster that it
/// returns. Taken on trust: the rows are those that `raster_of` names, and
/// there are none where the font does not know the character.
#[verifier::external_body]
fn rendered(c: char) -> (raster: Option<Vec<Vec<u8>>>)
    ensures
        match raster {
            Some(rows) => raster_of(c) == Some(rows_of(rows@)),
            None => raster_of(c).is_none(),
        },
{
    noto_sans_mono_bitmap::get_raster(
        c,
        noto_sans_mono_bitmap::FontWeight::Regular,
        noto_sans_mono_bitmap::RasterHeight::Size16,
    ).map(|pixels| pixels.raster().iter().map(|row| row.to_vec()).collect())
}

/// Layout of the frame buffer.
#[derive(Clone, Copy, Debug, PartialEq, Eq, Structural)]
pub struct FrameBufferInfo {
    /// Size of the buffer in bytes.
    pub byte_len: usize,
    /// Width of the screen in pixels.
    pub width: usize,
    /// Height of the screen in pixels.
    pub height: usize,
    /// Bytes of one pixel.
    pub bytes_per_pixel: usize,
    /// Pixels from the start of one line to the start of the next.
    pub stride: usize,
}

/// What the driver does for a character.
#[derive(Clone, Copy, Debug, PartialEq, Eq, Structural)]
pub enum PrintAction {
    /// Nothing is drawn: the cursor moved.
    Moved,
    /// The screen is filled with the background first, if `clear` is set;
    /// then the character is drawn with its upper left corner at `x`, `y`.
    Draw { clear: bool, x: usize, y: usize },
}

/// One pixel to write: `intensity` goes to the three bytes from `offset`.
#[derive(Clone, Copy, Debug, PartialEq, Eq, Structural)]
pub struct PixelWrite {
    pub offset: usize,
    pub intensity: u8,
}

/// The raster that is drawn for a character: its own, or that of
/// `UNKNOWN_CHAR` where the font does not know it.
pub open spec fn drawn_raster(c: char) -> Seq<Seq<u8>> {
    if raster_of(c).is_some() {
        raster_of(c).unwrap()
    } else {
        raster_of(UNKNOWN_CHAR).unwrap()
    }
}

/// The bitmap of `UNKNOWN_CHAR`, if the font knows it.
pub fn backup_char() -> (raster: Option<Vec<Vec<u8>>>)
    ensures
        raster.is_some() <==> raster_of(UNKNOWN_CHAR).is_some(),
        raster matches Some(rows) ==> raster_of(UNKNOWN_CHAR) == Some(rows_of(rows@)),
{
    rendered(UNKNOWN_CHAR)
}

/// Converts a character to its rendered bitmap. There is none where the
/// font does not know `UNKNOWN_CHAR`.
pub fn get_rendered_char(c: char) -> (raster: Option<Vec<Vec<u8>>>)
    ensures
        raster.is_some() <==> raster_of(UNKNOWN_CHAR).is_some(),
        raster matches Some(rows) ==> rows_of(rows@) == drawn_raster(c),
{
    let backup = backup_char();
    if backup.is_none() {
        return None;
    }
    let own = rendered(c);
    if own.is_some() {
        own
    } else {
        backup
    }
}

/// The writer's place on the screen.
#[derive(Clone, Copy, Debug, PartialEq, Eq, Structural)]
pub struct VGAWriter {
    pub info: FrameBufferInfo,
    pub cur_x: usize,
    pub cur_y: usize,
}

impl VGAWriter {
    /// The screen is wide and high enough for its border.
    pub open spec fn wf(&self) -> bool {
        &&& self.info.bytes_per_pixel == 3
        &&& self.info.width >= HORIZONTAL_BORDER_PADDING
        &&& self.info.height >= VERTICAL_BORDER_PADDING
    }

    /// The cursor can move by a line and by a character without leaving the
    /// range of its coordinates.
    pub open spec fn can_move(&self) -> bool {
        &&& self.cur_x + CHAR_WIDTH + CHAR_SPACING <= usize::MAX
        &&& self.cur_y + 2 * CHAR_HEIGHT + LINE_SPACING <= usize::MAX
    }

    /// The pixel at `x`, `y` has coordinates that fit a machine word and
    /// lies within the buffer.
    pub open spec fn visible(&self, x: int, y: int) -> bool {
        x <= usize::MAX && y <= usize::MAX && self.pixel_offset(x, y).is_some()
    }

    /// Every pixel of the raster, drawn with its upper left corner at `x`,
    /// `y`, is visible.
    pub open spec fn drawable(&self, raster: Seq<Seq<u8>>, x: int, y: int) -> bool {
        forall|yi: int, xi: int|
            0 <= yi < raster.len() && 0 <= xi < raster[yi].len() ==> #[trigger] self.visible(
                x + xi,
                y + yi,
            )
    }

    /// The writes for the first `n` pixels of a row drawn from `x`, `y`.
    pub open spec fn row_writes(&self, row: Seq<u8>, x: int, y: int, n: int) -> Seq<PixelWrite>
        decreases n,
    {
        if n <= 0 {
            Seq::empty()
        } else {
            self.row_writes(row, x, y, n - 1).push(
                PixelWrite {
                    offset: self.pixel_offset(x + n - 1, y).unwrap(),
                    intensity: row[n - 1],
                },
            )
        }
    }

    /// The writes for the first `m` rows of a raster drawn with its upper
    /// left corner at `x`, `y`: row after row, each from left to right.
    pub open spec fn glyph_writes(&self, raster: Seq<Seq<u8>>, x: int, y: int, m: int) -> Seq<
        PixelWrite,
    >
        decreases m,
    {
        if m <= 0 {
            Seq::empty()
        } else {
            self.glyph_writes(raster, x, y, m - 1) + self.row_writes(
                raster[m - 1],
                x,
                y + m - 1,
                raster[m - 1].len() as int,
            )
        }
    }

    /// The character at the cursor would reach into the right border.
    pub open spec fn wraps(&self) -> bool {
        self.cur_x + CHAR_WIDTH > self.info.width - HORIZONTAL_BORDER_PADDING
    }

    /// The writer at the start of the next line.
    pub open spec fn on_next_line(&self) -> VGAWriter {
        VGAWriter {
            info: self.info,
            cur_x: HORIZONTAL_BORDER_PADDING,
            cur_y: (self.cur_y + CHAR_HEIGHT + LINE_SPACING) as usize,
        }
    }

    /// The writer in the upper left corner.
    pub open spec fn at_origin(&self) -> VGAWriter {
        VGAWriter {
            info: self.info,
            cur_x: HORIZONTAL_BORDER_PADDING,
            cur_y: VERTICAL_BORDER_PADDING,
        }
    }

    /// The writer where a character that is neither a newline nor a
    /// carriage return is drawn: on the next line if the character would
    /// reach into the right border, and then in the upper left corner if it
    /// would reach into the bottom border.
    pub open spec fn placed(&self) -> VGAWriter {
        let line = if self.wraps() {
            self.on_next_line()
        } else {
            *self
        };
        if line.cur_y + CHAR_HEIGHT > line.info.height - VERTICAL_BORDER_PADDING {
            line.at_origin()
        } else {
            line
        }
    }

    /// The screen is cleared before such a character is drawn.
    pub open spec fn clears(&self) -> bool {
        let line = if self.wraps() {
            self.on_next_line()
        } else {
            *self
        };
        line.cur_y + CHAR_HEIGHT > line.info.height - VERTICAL_BORDER_PADDING
    }

    /// Offset in the buffer of the first of the three bytes of the pixel at
    /// `x`, `y`, where all three lie within the buffer.
    pub open spec fn pixel_offset(&self, x: int, y: int) -> Option<usize> {
        let idx = (y * self.info.stride + x) * self.info.bytes_per_pixel;
        if idx + 2 < self.info.byte_len {
            Some(idx as usize)
        } else {
            None
        }
    }

    /// A writer for a screen of three bytes per pixel, with its cursor in
    /// the upper left corner. The driver clears the screen.
    pub fn init(info: FrameBufferInfo) -> (writer: VGAWriter)
        requires
            info.bytes_per_pixel == 3,
        ensures
            writer.info == info,
            writer.cur_x == HORIZONTAL_BORDER_PADDING,
            writer.cur_y == VERTICAL_BORDER_PADDING,
    {
        VGAWriter { info, cur_x: HORIZONTAL_BORDER_PADDING, cur_y: VERTICAL_BORDER_PADDING }
    }

    /// Puts the cursor back in the upper left corner. The driver fills the
    /// buffer with `BG_COLOR`.
    pub fn clear(&mut self)
        ensures
            *final(self) == old(self).at_origin(),
    {
        self.cur_x = HORIZONTAL_BORDER_PADDING;
        self.cur_y = VERTICAL_BORDER_PADDING;
    }

    /// Moves the cursor for the character `c` and tells the driver what to
    /// draw. Every character is as wide as its cell.
    pub fn print_char(&mut self, c: char) -> (action: PrintAction)
        requires
            old(self).wf(),
            old(self).can_move(),
        ensures
            final(self).info == old(self).info,
            c == '\n' ==> action == PrintAction::Moved && *final(self) == old(self).on_next_line(),
            c == '\r' ==> action == PrintAction::Moved && final(self).cur_x
                == HORIZONTAL_BORDER_PADDING && final(self).cur_y == old(self).cur_y,
            c != '\n' && c != '\r' ==> {
                let at = old(self).placed();
                &&& action == (PrintAction::Draw { clear: old(self).clears(), x: at.cur_x, y: at.cur_y })
                &&& final(self).cur_x == at.cur_x + CHAR_WIDTH + CHAR_SPACING
                &&& final(self).cur_y == at.cur_y
            },
    {
        if c == '\n' {
            self.newline();
            return PrintAction::Moved;
        }
        if c == '\r' {
            self.carriage_return();
            return PrintAction::Moved;
        }
        // If the char will go over the right border, do a newline
        let new_x: usize = self.cur_x + CHAR_WIDTH;
        if new_x > self.info.width - HORIZONTAL_BORDER_PADDING {
            self.newline();
        }
        // If the char will go over the bottom border, clear the screen.
        let new_y: usize = self.cur_y + CHAR_HEIGHT;
        let clear = new_y > self.info.height - VERTICAL_BORDER_PADDING;
        if clear {
            self.clear();
        }
        let action = PrintAction::Draw { clear, x: self.cur_x, y: self.cur_y };
        self.cur_x = self.cur_x + CHAR_WIDTH + CHAR_SPACING;
        action
    }

    /// Tells which bytes of the buffer make the pixel at `x`, `y`: the
    /// offset of the first of three, or nothing where they do not all lie
    /// within the buffer.
    pub fn write_pixel(&self, x: usize, y: usize) -> (offset: Option<usize>)
        requires
            self.info.bytes_per_pixel == 3,
        ensures
            offset == self.pixel_offset(x as int, y as int),
    {
        let Some(line) = y.checked_mul(self.info.stride) else {
            return None;
        };
        let Some(pixel) = line.checked_add(x) else {
            return None;
        };
        let Some(idx) = pixel.checked_mul(self.info.bytes_per_pixel) else {
            return None;
        };
        if self.info.byte_len >= 3 && idx < self.info.byte_len - 2 {
            Some(idx)
        } else {
            None
        }
    }

    /// Lists the writes that draw a raster with its upper left corner at
    /// `x`, `y`: none where a pixel of it would lie outside the buffer.
    pub fn write_rendered_char(&self, raster: &Vec<Vec<u8>>, x: usize, y: usize) -> (writes: Option<
        Vec<PixelWrite>,
    >)
        requires
            self.info.bytes_per_pixel == 3,
        ensures
            writes.is_some() <==> self.drawable(rows_of(raster@), x as int, y as int),
            writes matches Some(w) ==> w@ == self.glyph_writes(
                rows_of(raster@),
                x as int,
                y as int,
                raster@.len() as int,
            ),
    {
        let ghost rows = rows_of(raster@);
        let mut writes: Vec<PixelWrite> = Vec::new();
        let mut yi: usize = 0;
        while yi < raster.len()
            invariant
                self.info.bytes_per_pixel == 3,
                rows == rows_of(raster@),
                yi <= raster@.len(),
                writes@ == self.glyph_writes(rows, x as int, y as int, yi as int),
                forall|a: int, b: int|
                    0 <= a < yi && 0 <= b < rows[a].len() ==> #[trigger] self.visible(
                        x + b,
                        y + a,
                    ),
            decreases raster.len() - yi,
        {
            let row = &raster[yi];
            let ghost done = writes@;
            assert(rows[yi as int] == row@);
            let mut xi: usize = 0;
            while xi < row.len()
                invariant
                    self.info.bytes_per_pixel == 3,
                    yi < raster@.len(),
                    rows == rows_of(raster@),
                    rows[yi as int] == row@,
                    xi <= row@.len(),
                    writes@ == done + self.row_writes(row@, x as int, y + yi, xi as int),
                    forall|b: int| 0 <= b < xi ==> #[trigger] self.visible(x + b, y + yi),
                decreases row.len() - xi,
            {
                let offset = match (x.checked_add(xi), y.checked_add(yi)) {
                    (Some(px), Some(py)) => self.write_pixel(px, py),
                    _ => None,
                };
                let Some(offset) = offset else {
                    assert(!self.visible(x + xi, y + yi));
                    return None;
                };
                let ghost row_done = self.row_writes(row@, x as int, y + yi, xi as int);
                writes.push(PixelWrite { offset, intensity: row[xi] });
                assert(done + row_done.push(PixelWrite { offset, intensity: row@[xi as int] })
                    == (done + row_done).push(PixelWrite { offset, intensity: row@[xi as int] }));
                xi += 1;
            }
            yi += 1;
        }
        Some(writes)
    }

    /// Lists the writes that draw the character `c` with its upper left
    /// corner at `x`, `y`: none where the font knows neither `c` nor
    /// `UNKNOWN_CHAR`, or where a pixel would lie outside the buffer.
    pub fn draw_char(&self, c: char, x: usize, y: usize) -> (writes: Option<Vec<PixelWrite>>)
        requires
            self.info.bytes_per_pixel == 3,
        ensures
            writes.is_some() <==> raster_of(UNKNOWN_CHAR).is_some() && self.drawable(
                drawn_raster(c),
                x as int,
                y as int,
            ),
            writes matches Some(w) ==> w@ == self.glyph_writes(
                drawn_raster(c),
                x as int,
                y as int,
                drawn_raster(c).len() as int,
            ),
    {
        match get_rendered_char(c) {
            Some(raster) => self.write_rendered_char(&raster, x, y),
            None => None,
        }
    }

    /// Goes to the beginning of the next line.
    pub fn newline(&mut self)
        requires
            old(self).cur_y + CHAR_HEIGHT + LINE_SPACING <= usize::MAX,
        ensures
            *final(self) == old(self).on_next_line(),
    {
        self.cur_y = self.cur_y + (CHAR_HEIGHT + LINE_SPACING);
        self.carriage_return();
    }

    /// Returns to the beginning of the current line.
    pub fn carriage_return(&mut self)
        ensures
            final(self).info == old(self).info,
            final(self).cur_y == old(self).cur_y,
            final(self).cur_x == HORIZONTAL_BORDER_PADDING,
    {
        self.cur_x = HORIZONTAL_BORDER_PADDING;
    }
}

} // verus!
