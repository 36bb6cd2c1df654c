use vstd::prelude::*;

verus! {

use vstd::string::StringSliceAdditionalSpecFns;

/// Width and height, in characters, of the standard VGA text screen.
pub const VGA_DEFAULT_SCREEN_SIZE: (usize, usize) = (80, 24);

/// The attribute byte (in the high byte of a cell) of a fresh writer and of
/// the reset code: white on black.
pub const DEFAULT_COLOR: u16 = 0x0f00;

/// The foreground nibble of a cell's attribute byte.
pub const FOREGROUND_MASK: u16 = 0x0f00;

/// The background nibble of a cell's attribute byte.
pub const BACKGROUND_MASK: u16 = 0xf000;

/// The byte that opens an ANSI escape sequence.
pub const ESCAPE: u8 = 0x1b;

/// A write that found no room for its character.
#[derive(Debug, PartialEq, Eq, Clone, Copy)]
pub struct WriteError;

/// What a writer shows: the cells of the screen row by row, the cell that
/// the next character goes to, and the attribute that it gets.
pub struct Screen {
    pub cells: Seq<u16>,
    pub cursor: int,
    pub color: u16,
    pub width: int,
    pub height: int,
}

impl Screen {
    /// A screen of at least one row and one column, whose cursor lies on it
    /// or just past its last cell, and whose attribute leaves the character
    /// byte free.
    pub open spec fn valid(self) -> bool {
        &&& self.width > 0
        &&& self.height > 0
        &&& self.cells.len() == self.width * self.height
        &&& 0 <= self.cursor <= self.cells.len()
        &&& self.color & 0xffu16 == 0u16
    }
}

/// The state of the escape-sequence reader between two bytes: whether it is
/// inside a sequence, and the number that it has read so far.
pub struct Escape {
    pub active: bool,
    pub code: int,
}

/// The reader's state at the start of every write.
pub open spec fn escape_start() -> Escape {
    Escape { active: false, code: 0 }
}

pub open spec fn is_digit(c: u8) -> bool {
    0x30 <= c <= 0x39
}

/// How the reader's state changes on byte `c`.
pub open spec fn escape_step(e: Escape, c: u8) -> Escape {
    if c == ESCAPE {
        Escape { active: true, code: e.code }
    } else if !e.active {
        e
    } else if c == 0x5b {
        Escape { active: true, code: 0 }
    } else if c == 0x6d {
        Escape { active: false, code: 0 }
    } else if c == 0x3b {
        Escape { active: true, code: 0 }
    } else if is_digit(c) {
        Escape { active: true, code: e.code * 10 + (c - 0x30) }
    } else {
        e
    }
}

/// The reader's state after `bytes`, from the start state `e`.
pub open spec fn escape_from(e: Escape, bytes: Seq<u8>) -> Escape
    decreases bytes.len(),
{
    if bytes.len() == 0 {
        e
    } else {
        escape_step(escape_from(e, bytes.drop_last()), bytes.last())
    }
}

/// Whether byte `c` read in state `e` keeps the number read within 16 bits.
pub open spec fn escape_step_fits(e: Escape, c: u8) -> bool {
    (e.active && c != ESCAPE && is_digit(c)) ==> e.code * 10 + (c - 0x30) <= 0xffff
}

/// Whether every number inside the escape sequences of `bytes`, read from
/// state `e`, fits in 16 bits.
pub open spec fn escape_codes_fit_from(e: Escape, bytes: Seq<u8>) -> bool
    decreases bytes.len(),
{
    bytes.len() == 0 || (escape_codes_fit_from(e, bytes.drop_last()) && escape_step_fits(
        escape_from(e, bytes.drop_last()),
        bytes.last(),
    ))
}

/// Whether every number inside the escape sequences of `bytes` fits in 16
/// bits, as a write reads them.
pub open spec fn escape_codes_fit(bytes: Seq<u8>) -> bool {
    escape_codes_fit_from(escape_start(), bytes)
}

/// `color` with its foreground nibble set to `k`.
pub open spec fn with_foreground(color: u16, k: u16) -> u16 {
    (color & 0xf0ffu16) | (k << 8u16)
}

/// `color` with its background nibble set to `k`.
pub open spec fn with_background(color: u16, k: u16) -> u16 {
    (color & 0x0fffu16) | (k << 12u16)
}

/// The attribute after the SGR code `code`: 30-37 and 90-97 pick the
/// foreground (the latter the bright colors 8-15), 40-47 and 100-107 the
/// background, 0 resets to white on black, anything else changes nothing.
pub open spec fn apply_code(color: u16, code: int) -> u16 {
    if 30 <= code <= 37 {
        with_foreground(color, (code - 30) as u16)
    } else if 90 <= code <= 97 {
        with_foreground(color, (code - 82) as u16)
    } else if 40 <= code <= 47 {
        with_background(color, (code - 40) as u16)
    } else if 100 <= code <= 107 {
        with_background(color, (code - 92) as u16)
    } else if code == 0 {
        DEFAULT_COLOR
    } else {
        color
    }
}

/// The cell that shows byte `c` in attribute `color`.
pub open spec fn cell(color: u16, c: u8) -> u16 {
    (color + c) as u16
}

/// The cells moved up by one row; the last row keeps what it showed.
pub open spec fn scrolled(cells: Seq<u16>, width: int) -> Seq<u16> {
    cells.subrange(width, cells.len() as int) + cells.subrange(
        cells.len() - width,
        cells.len() as int,
    )
}

/// Byte `c` written at the cursor; a full screen first scrolls by a row.
pub open spec fn put(s: Screen, c: u8) -> Screen {
    if s.cursor < s.cells.len() {
        Screen { cells: s.cells.update(s.cursor, cell(s.color, c)), cursor: s.cursor + 1, ..s }
    } else {
        Screen {
            cells: scrolled(s.cells, s.width).update(s.cursor - s.width, cell(s.color, c)),
            cursor: s.cursor - s.width + 1,
            ..s
        }
    }
}

/// The end of the cursor's row when the cursor is inside a row.
pub open spec fn row_end(s: Screen) -> int {
    s.cursor + (s.width - s.cursor % s.width)
}

/// A newline: inside a row, the rest of the row is filled with blanks and
/// the cursor moves to the start of the next row; at the start of a row
/// nothing changes.
pub open spec fn newline(s: Screen) -> Screen {
    if s.cursor % s.width == 0 {
        s
    } else {
        Screen {
            cells: Seq::new(
                s.cells.len(),
                |j: int|
                    if s.cursor <= j < row_end(s) {
                        cell(s.color, 0x20)
                    } else {
                        s.cells[j]
                    },
            ),
            cursor: row_end(s),
            ..s
        }
    }
}

/// What byte `c`, read in escape state `e`, does to the screen.
pub open spec fn screen_step(s: Screen, e: Escape, c: u8) -> Screen {
    if c == ESCAPE {
        s
    } else if e.active {
        if c == 0x6d || c == 0x3b {
            Screen { color: apply_code(s.color, e.code), ..s }
        } else {
            s
        }
    } else if c == 0x0a {
        newline(s)
    } else {
        put(s, c)
    }
}

/// The screen after `bytes`, read from escape state `e`.
pub open spec fn screen_from(s: Screen, e: Escape, bytes: Seq<u8>) -> Screen
    decreases bytes.len(),
{
    if bytes.len() == 0 {
        s
    } else {
        screen_step(
            screen_from(s, e, bytes.drop_last()),
            escape_from(e, bytes.drop_last()),
            bytes.last(),
        )
    }
}

/// The screen after one write of `bytes`.
pub open spec fn screen_after(s: Screen, bytes: Seq<u8>) -> Screen {
    screen_from(s, escape_start(), bytes)
}

/// A prefix of bytes whose escape numbers fit has escape numbers that fit.
pub proof fn lemma_escape_codes_fit_prefix(e: Escape, bytes: Seq<u8>, k: int)
    requires
        escape_codes_fit_from(e, bytes),
        0 <= k <= bytes.len(),
    ensures
        escape_codes_fit_from(e, bytes.take(k)),
    decreases bytes.len(),
{
    if k == bytes.len() {
        assert(bytes.take(k) =~= bytes);
    } else {
        assert(bytes.drop_last().take(k) =~= bytes.take(k));
        lemma_escape_codes_fit_prefix(e, bytes.drop_last(), k);
    }
}

/// An attribute with a free character byte leaves room for any character.
proof fn lemma_cell_fits(color: u16, c: u8)
    requires
        color & 0xffu16 == 0u16,
    ensures
        color + c <= 0xffff,
{
    assert(color & 0xffu16 == 0u16 ==> color <= 0xff00u16) by (bit_vector);
}

/// The masked update that picks a foreground color sets the foreground
/// nibble and keeps the character byte free.
proof fn lemma_set_foreground(color: u16, k: u16)
    requires
        k < 16,
    ensures
        (color & !0x0f00u16) ^ (0x0f00u16 & (k << 8u16)) == with_foreground(color, k),
        with_foreground(color, k) & 0xffu16 == color & 0xffu16,
{
    assert((color & !0x0f00u16) ^ (0x0f00u16 & (k << 8u16)) == (color & 0xf0ffu16) | (k << 8u16))
        by (bit_vector)
        requires
            k < 16,
    ;
    assert(((color & 0xf0ffu16) | (k << 8u16)) & 0xffu16 == color & 0xffu16) by (bit_vector)
        requires
            k < 16,
    ;
}

/// The masked update that picks a background color sets the background
/// nibble and keeps the character byte free.
proof fn lemma_set_background(color: u16, k: u16)
    requires
        k < 16,
    ensures
        (color & !0xf000u16) ^ (0xf000u16 & (k << 12u16)) == with_background(color, k),
        with_background(color, k) & 0xffu16 == color & 0xffu16,
{
    assert((color & !0xf000u16) ^ (0xf000u16 & (k << 12u16)) == (color & 0x0fffu16) | (k
        << 12u16)) by (bit_vector)
        requires
            k < 16,
    ;
    assert(((color & 0x0fffu16) | (k << 12u16)) & 0xffu16 == color & 0xffu16) by (bit_vector)
        requires
            k < 16,
    ;
}

/// Every SGR code leaves the character byte of the attribute free.
pub proof fn lemma_apply_code_keeps_char_byte(color: u16, code: int)
    requires
        color & 0xffu16 == 0u16,
    ensures
        apply_code(color, code) & 0xffu16 == 0u16,
{
    if 30 <= code <= 37 {
        lemma_set_foreground(color, (code - 30) as u16);
    } else if 90 <= code <= 97 {
        lemma_set_foreground(color, (code - 82) as u16);
    } else if 40 <= code <= 47 {
        lemma_set_background(color, (code - 40) as u16);
    } else if 100 <= code <= 107 {
        lemma_set_background(color, (code - 92) as u16);
    } else if code == 0 {
        assert(0x0f00u16 & 0xffu16 == 0u16) by (bit_vector);
    }
}

/// Inside a row, the end of the row lies on the screen and starts a row.
proof fn lemma_row_end(cursor: int, width: int, height: int)
    requires
        width > 0,
        height > 0,
        0 <= cursor < width * height,
    ensures
        cursor < cursor + (width - cursor % width) <= width * height,
        (cursor + (width - cursor % width)) % width == 0,
{
    let q = cursor / width;
    let r = cursor % width;
    vstd::arithmetic::div_mod::lemma_fundamental_div_mod(cursor, width);
    assert(0 <= r < width) by {
        vstd::arithmetic::div_mod::lemma_mod_bound(cursor, width);
    }
    assert(q < height) by (nonlinear_arith)
        requires
            cursor == width * q + r,
            0 <= r,
            cursor < width * height,
            width > 0,
    ;
    assert(cursor + (width - r) == width * (q + 1)) by {
        vstd::arithmetic::mul::lemma_mul_is_distributive_add(width, q, 1);
    }
    assert(width * (q + 1) <= width * height) by {
        vstd::arithmetic::mul::lemma_mul_inequality(q + 1, height, width);
        vstd::arithmetic::mul::lemma_mul_is_commutative(width, q + 1);
        vstd::arithmetic::mul::lemma_mul_is_commutative(width, height);
    }
    vstd::arithmetic::div_mod::lemma_mod_multiples_basic(q + 1, width);
    vstd::arithmetic::mul::lemma_mul_is_commutative(width, q + 1);
}

/// A text-mode writer: a buffer of `width * height` cells, each an
/// attribute byte over a character byte, a cursor, and the attribute that
/// the next character gets.
pub struct VgaOut {
    writing_idx: usize,
    vga_buff: Vec<u16>,
    screen_size: (usize, usize),
    current_color: u16,
}

impl View for VgaOut {
    type V = Screen;

    closed spec fn view(&self) -> Screen {
        Screen {
            cells: self.vga_buff@,
            cursor: self.writing_idx as int,
            color: self.current_color,
            width: self.screen_size.0 as int,
            height: self.screen_size.1 as int,
        }
    }
}

impl VgaOut {
    #[verifier::type_invariant]
    spec fn inv(self) -> bool {
        self@.valid()
    }

    /// Every writer shows a valid screen. The call does nothing at run
    /// time; it brings the writer's invariant to the caller's proof.
    pub fn ensure_valid(&self)
        ensures
            self@.valid(),
    {
        proof {
            use_type_invariant(self);
        }
    }

    /// A writer over `buffer`, a screen of `screen_size.0` columns and
    /// `screen_size.1` rows, with the cursor at the first cell.
    pub fn new(screen_size: (usize, usize), buffer: Vec<u16>) -> (r: Self)
        requires
            screen_size.0 > 0,
            screen_size.1 > 0,
            buffer@.len() == screen_size.0 * screen_size.1,
        ensures
            r@ == (Screen {
                cells: buffer@,
                cursor: 0,
                color: DEFAULT_COLOR,
                width: screen_size.0 as int,
                height: screen_size.1 as int,
            }),
    {
        assert(0x0f00u16 & 0xffu16 == 0u16) by (bit_vector);
        Self { writing_idx: 0, vga_buff: buffer, screen_size, current_color: 0x0f00 }
    }

    /// The cells, row by row.
    pub fn buffer(&self) -> (r: &[u16])
        ensures
            r@ == self@.cells,
    {
        self.vga_buff.as_slice()
    }

    /// The index of the cell that the next character goes to.
    pub fn writing_idx(&self) -> (r: usize)
        ensures
            r == self@.cursor,
    {
        self.writing_idx
    }

    /// The attribute that the next character gets.
    pub fn current_color(&self) -> (r: u16)
        ensures
            r == self@.color,
    {
        self.current_color
    }

    /// Columns and rows.
    pub fn screen_size(&self) -> (r: (usize, usize))
        ensures
            r.0 == self@.width,
            r.1 == self@.height,
    {
        self.screen_size
    }

    /// Writes `c` at the cursor in the current attribute and advances the
    /// cursor; past the last cell there is no room, and nothing changes.
    pub fn write_char_to_writing_idx(&mut self, c: u8) -> (r: Result<(), WriteError>)
        ensures
            old(self)@.cursor < old(self)@.cells.len() ==> r is Ok && final(self)@ == put(
                old(self)@,
                c,
            ),
            old(self)@.cursor >= old(self)@.cells.len() ==> r == Err::<(), WriteError>(WriteError)
                && final(self)@ == old(self)@,
    {
        proof {
            use_type_invariant(&*self);
        }
        let idx = self.writing_idx;
        if idx < self.vga_buff.len() {
            proof {
                lemma_cell_fits(self.current_color, c);
            }
            let value = self.current_color + c as u16;
            self.vga_buff[idx] = value;
            self.writing_idx = idx + 1;
            Ok(())
        } else {
            Err(WriteError)
        }
    }

    /// Moves every row up by one; the last row keeps what it showed.
    fn scroll_one_row(&mut self)
        ensures
            final(self)@ == (Screen { cells: scrolled(old(self)@.cells, old(self)@.width), ..old(self)@ }),
    {
        proof {
            use_type_invariant(&*self);
            vstd::arithmetic::mul::lemma_mul_inequality(1, self@.height, self@.width);
        }
        let width = self.screen_size.0;
        let len = self.vga_buff.len();
        let kept = len - width;
        let mut i: usize = 0;
        while i < kept
            invariant
                width == old(self)@.width,
                len == old(self)@.cells.len(),
                kept == len - width,
                0 < width <= len,
                i <= kept,
                self@.cells.len() == len,
                self@.cursor == old(self)@.cursor,
                self@.color == old(self)@.color,
                self@.width == old(self)@.width,
                self@.height == old(self)@.height,
                forall|j: int| 0 <= j < i ==> self@.cells[j] == old(self)@.cells[j + width],
                forall|j: int| i <= j < len ==> self@.cells[j] == old(self)@.cells[j],
            decreases kept - i,
        {
            proof {
                use_type_invariant(&*self);
            }
            let v = self.vga_buff[i + width];
            self.vga_buff[i] = v;
            i = i + 1;
        }
        assert(self@.cells =~= scrolled(old(self)@.cells, old(self)@.width));
    }

    /// Writes byte `c` at the cursor; on a full screen the rows first move
    /// up by one.
    fn put_byte(&mut self, c: u8) -> (r: Result<(), WriteError>)
        ensures
            r is Ok,
            final(self)@ == put(old(self)@, c),
    {
        proof {
            use_type_invariant(&*self);
        }
        if self.writing_idx < self.vga_buff.len() {
            self.write_char_to_writing_idx(c)
        } else {
            proof {
                vstd::arithmetic::mul::lemma_mul_inequality(1, self@.height, self@.width);
                vstd::arithmetic::mul::lemma_mul_is_commutative(self@.height, self@.width);
            }
            self.scroll_one_row();
            self.writing_idx -= self.screen_size.0;
            self.write_char_to_writing_idx(c)
        }
    }

    /// Fills the rest of the cursor's row with blanks, unless the cursor
    /// is at the start of a row.
    fn new_line(&mut self) -> (r: Result<(), WriteError>)
        ensures
            r is Ok,
            final(self)@ == newline(old(self)@),
    {
        proof {
            use_type_invariant(&*self);
        }
        let width = self.screen_size.0;
        if self.writing_idx % width != 0 {
            let num_spaces = width - (self.writing_idx % width);
            let ghost s0 = self@;
            proof {
                vstd::arithmetic::div_mod::lemma_mod_multiples_basic(s0.height, s0.width);
                vstd::arithmetic::mul::lemma_mul_is_commutative(s0.height, s0.width);
                lemma_row_end(s0.cursor, s0.width, s0.height);
            }
            let mut k: usize = 0;
            while k < num_spaces
                invariant
                    s0 == old(self)@,
                    s0.valid(),
                    width == s0.width,
                    s0.cursor % s0.width != 0,
                    num_spaces == s0.width - s0.cursor % s0.width,
                    row_end(s0) <= s0.cells.len(),
                    k <= num_spaces,
                    self@.cursor == s0.cursor + k,
                    self@.color == s0.color,
                    self@.width == s0.width,
                    self@.height == s0.height,
                    self@.cells.len() == s0.cells.len(),
                    forall|j: int|
                        0 <= j < s0.cells.len() ==> #[trigger] self@.cells[j] == if s0.cursor <= j
                            < s0.cursor + k {
                            cell(s0.color, 0x20)
                        } else {
                            s0.cells[j]
                        },
                decreases num_spaces - k,
            {
                self.put_byte(0x20u8)?;
                k = k + 1;
            }
            assert(self@.cells =~= newline(s0).cells);
        }
        Ok(())
    }

    /// Applies the SGR code `partial_color` to the current attribute.
    fn apply_color_code(&mut self, partial_color: u16)
        ensures
            final(self)@ == (Screen { color: apply_code(old(self)@.color, partial_color as int), ..old(self)@ }),
    {
        proof {
            use_type_invariant(&*self);
            lemma_apply_code_keeps_char_byte(self.current_color, partial_color as int);
        }
        // Color is foreground
        if partial_color >= 30 && partial_color <= 37 {
            let vga_color = (partial_color - 30) << 8;
            proof {
                lemma_set_foreground(self.current_color, (partial_color - 30) as u16);
            }
            self.current_color = (self.current_color & !FOREGROUND_MASK) ^ (FOREGROUND_MASK
                & vga_color);
        }
        // Color is foreground, bright
        if partial_color >= 90 && partial_color <= 97 {
            let vga_color = (partial_color - 82) << 8;
            proof {
                lemma_set_foreground(self.current_color, (partial_color - 82) as u16);
            }
            self.current_color = (self.current_color & !FOREGROUND_MASK) ^ (FOREGROUND_MASK
                & vga_color);
        }
        // Color is background
        if partial_color >= 40 && partial_color <= 47 {
            let vga_color = (partial_color - 40) << 12;
            proof {
                lemma_set_background(self.current_color, (partial_color - 40) as u16);
            }
            self.current_color = (self.current_color & !BACKGROUND_MASK) ^ (BACKGROUND_MASK
                & vga_color);
        }
        // Color is background, bright
        if partial_color >= 100 && partial_color <= 107 {
            let vga_color = (partial_color - 92) << 12;
            proof {
                lemma_set_background(self.current_color, (partial_color - 92) as u16);
            }
            self.current_color = (self.current_color & !BACKGROUND_MASK) ^ (BACKGROUND_MASK
                & vga_color);
        }
        if partial_color == 0 {
            self.current_color = 0x0f00;
        }
    }

    /// Whether every number inside the escape sequences of `data` fits in
    /// 16 bits, so that `write_str` can take it.
    pub fn accepts(data: &str) -> (r: bool)
        ensures
            r == escape_codes_fit(data.spec_bytes()),
    {
        let bytes = data.as_bytes();
        let mut is_color = false;
        let mut partial_color: u16 = 0;
        let mut i: usize = 0;
        while i < bytes.len()
            invariant
                bytes@ == data.spec_bytes(),
                i <= bytes@.len(),
                escape_codes_fit(bytes@.take(i as int)),
                is_color == escape_from(escape_start(), bytes@.take(i as int)).active,
                partial_color == escape_from(escape_start(), bytes@.take(i as int)).code,
            decreases bytes.len() - i,
        {
            let c = bytes[i];
            proof {
                assert(bytes@.take(i + 1).drop_last() =~= bytes@.take(i as int));
            }
            if c == ESCAPE {
                is_color = true;
            } else if is_color {
                if c == 0x5b || c == 0x3b {
                    partial_color = 0;
                } else if c == 0x6d {
                    partial_color = 0;
                    is_color = false;
                } else if c >= 0x30 && c <= 0x39 {
                    let next = partial_color as u32 * 10 + (c - 0x30) as u32;
                    if next > 0xffff {
                        proof {
                            assert forall|k: int| i < k <= bytes@.len() implies !escape_codes_fit(
                                #[trigger] bytes@.take(k),
                            ) by {
                                if escape_codes_fit(bytes@.take(k)) {
                                    lemma_escape_codes_fit_prefix(
                                        escape_start(),
                                        bytes@.take(k),
                                        i + 1,
                                    );
                                    assert(bytes@.take(k).take(i + 1) =~= bytes@.take(i + 1));
                                }
                            }
                            assert(bytes@.take(bytes@.len() as int) =~= bytes@);
                        }
                        return false;
                    }
                    partial_color = next as u16;
                }
            }
            i = i + 1;
        }
        proof {
            assert(bytes@.take(bytes@.len() as int) =~= bytes@);
        }
        true
    }

    /// Writes `data`: printable bytes at the cursor (scrolling a full
    /// screen by a row), a newline by blanking the rest of the row, and
    /// the ANSI sequences `ESC [ n ; ... m` by changing the attribute.
    pub fn write_str(&mut self, data: &str) -> (r: Result<(), WriteError>)
        requires
            escape_codes_fit(data.spec_bytes()),
        ensures
            r is Ok,
            final(self)@ == screen_after(old(self)@, data.spec_bytes()),
            final(self)@.valid(),
            final(self)@.width == old(self)@.width,
            final(self)@.height == old(self)@.height,
    {
        proof {
            use_type_invariant(&*self);
            law_write_keeps_screen_valid(self@, escape_start(), data.spec_bytes());
        }
        let bytes = data.as_bytes();
        let mut is_color = false;
        let mut partial_color = 0u16;
        let mut i: usize = 0;
        while i < bytes.len()
            invariant
                bytes@ == data.spec_bytes(),
                escape_codes_fit(bytes@),
                i <= bytes@.len(),
                self@ == screen_after(old(self)@, bytes@.take(i as int)),
                is_color == escape_from(escape_start(), bytes@.take(i as int)).active,
                partial_color == escape_from(escape_start(), bytes@.take(i as int)).code,
            decreases bytes.len() - i,
        {
            let c = bytes[i];
            proof {
                assert(bytes@.take(i + 1).drop_last() =~= bytes@.take(i as int));
                lemma_escape_codes_fit_prefix(escape_start(), bytes@, i + 1);
            }
            if c == ESCAPE {
                // ANSI color escape sequence \033 in string
                is_color = true;
            } else if is_color {
                if c == 0x5b {
                    partial_color = 0;
                } else {
                    if c == 0x6d || c == 0x3b {
                        self.apply_color_code(partial_color);
                        partial_color = 0;
                    }
                    if c >= 0x30 && c <= 0x39 {
                        partial_color *= 10;
                        partial_color += c as u16 - 0x30u16;
                    }
                    if c == 0x6d {
                        is_color = false;
                    }
                }
            } else {
                if c == 0x0a {
                    self.new_line()?;
                } else {
                    self.put_byte(c)?;
                }
            }
            i = i + 1;
        }
        proof {
            assert(bytes@.take(bytes@.len() as int) =~= bytes@);
        }
        return Ok(());
    }
}

/// Reading `a` then `b` leaves the reader where reading `a + b` does.
pub proof fn lemma_escape_from_concat(e: Escape, a: Seq<u8>, b: Seq<u8>)
    ensures
        escape_from(e, a + b) == escape_from(escape_from(e, a), b),
    decreases b.len(),
{
    if b.len() == 0 {
        assert(a + b =~= a);
    } else {
        assert((a + b).drop_last() =~= a + b.drop_last());
        lemma_escape_from_concat(e, a, b.drop_last());
    }
}

/// The numbers of `a + b` fit exactly when those of `a` fit and, from
/// where `a` leaves the reader, those of `b` fit.
pub proof fn lemma_escape_codes_fit_concat(e: Escape, a: Seq<u8>, b: Seq<u8>)
    ensures
        escape_codes_fit_from(e, a + b) == (escape_codes_fit_from(e, a) && escape_codes_fit_from(
            escape_from(e, a),
            b,
        )),
    decreases b.len(),
{
    if b.len() == 0 {
        assert(a + b =~= a);
    } else {
        assert((a + b).drop_last() =~= a + b.drop_last());
        lemma_escape_codes_fit_concat(e, a, b.drop_last());
        lemma_escape_from_concat(e, a, b.drop_last());
    }
}

/// Showing `a + b` is showing `a`, then `b` from where `a` left the reader.
pub proof fn lemma_screen_from_concat(s: Screen, e: Escape, a: Seq<u8>, b: Seq<u8>)
    ensures
        screen_from(s, e, a + b) == screen_from(screen_from(s, e, a), escape_from(e, a), b),
    decreases b.len(),
{
    if b.len() == 0 {
        assert(a + b =~= a);
    } else {
        assert((a + b).drop_last() =~= a + b.drop_last());
        lemma_screen_from_concat(s, e, a, b.drop_last());
        lemma_escape_from_concat(e, a, b.drop_last());
    }
}

/// Outside an escape sequence the reader holds no number.
pub proof fn lemma_idle_reader_is_fresh(bytes: Seq<u8>)
    ensures
        !escape_from(escape_start(), bytes).active ==> escape_from(escape_start(), bytes)
            == escape_start(),
    decreases bytes.len(),
{
    if bytes.len() > 0 {
        lemma_idle_reader_is_fresh(bytes.drop_last());
    }
}

/// Writing a text in two pieces shows what writing it at once shows, and
/// is accepted exactly when the whole is, provided the first piece does
/// not end inside an escape sequence.
pub proof fn law_split_write(s: Screen, a: Seq<u8>, b: Seq<u8>)
    requires
        !escape_from(escape_start(), a).active,
    ensures
        screen_after(s, a + b) == screen_after(screen_after(s, a), b),
        escape_codes_fit(a + b) == (escape_codes_fit(a) && escape_codes_fit(b)),
{
    lemma_idle_reader_is_fresh(a);
    lemma_screen_from_concat(s, escape_start(), a, b);
    lemma_escape_codes_fit_concat(escape_start(), a, b);
}

/// One byte keeps a screen valid, with its size.
proof fn lemma_screen_step_valid(s: Screen, e: Escape, c: u8)
    requires
        s.valid(),
    ensures
        screen_step(s, e, c).valid(),
        screen_step(s, e, c).width == s.width,
        screen_step(s, e, c).height == s.height,
{
    vstd::arithmetic::mul::lemma_mul_inequality(1, s.height, s.width);
    vstd::arithmetic::mul::lemma_mul_is_commutative(s.height, s.width);
    lemma_apply_code_keeps_char_byte(s.color, e.code);
    if s.cursor % s.width != 0 {
        vstd::arithmetic::div_mod::lemma_mod_multiples_basic(s.height, s.width);
        lemma_row_end(s.cursor, s.width, s.height);
    }
}

/// A write keeps a screen valid: its size stays, its cursor stays on it,
/// and its attribute leaves the character byte free.
pub proof fn law_write_keeps_screen_valid(s: Screen, e: Escape, bytes: Seq<u8>)
    requires
        s.valid(),
    ensures
        screen_from(s, e, bytes).valid(),
        screen_from(s, e, bytes).width == s.width,
        screen_from(s, e, bytes).height == s.height,
    decreases bytes.len(),
{
    if bytes.len() > 0 {
        law_write_keeps_screen_valid(s, e, bytes.drop_last());
        lemma_screen_step_valid(
            screen_from(s, e, bytes.drop_last()),
            escape_from(e, bytes.drop_last()),
            bytes.last(),
        );
    }
}

/// Whether `text` holds neither an escape byte nor a newline.
pub open spec fn is_plain(text: Seq<u8>) -> bool {
    forall|i: int| 0 <= i < text.len() ==> text[i] != ESCAPE && text[i] != 0x0a
}

/// A plain text that fits before the end of the screen lands in the cells
/// from the cursor on, in the current attribute, and the cursor moves past
/// it.
pub proof fn law_plain_text(s: Screen, text: Seq<u8>)
    requires
        s.valid(),
        is_plain(text),
        s.cursor + text.len() <= s.cells.len(),
    ensures
        escape_codes_fit(text),
        escape_from(escape_start(), text) == escape_start(),
        screen_after(s, text) == (Screen {
            cells: Seq::new(
                s.cells.len(),
                |j: int|
                    if s.cursor <= j < s.cursor + text.len() {
                        cell(s.color, text[j - s.cursor])
                    } else {
                        s.cells[j]
                    },
            ),
            cursor: s.cursor + text.len(),
            ..s
        }),
    decreases text.len(),
{
    if text.len() > 0 {
        let prefix = text.drop_last();
        assert(is_plain(prefix));
        law_plain_text(s, prefix);
        let before = screen_after(s, prefix);
        assert(before.cursor < before.cells.len());
        assert(screen_after(s, text).cells =~= Seq::new(
            s.cells.len(),
            |j: int|
                if s.cursor <= j < s.cursor + text.len() {
                    cell(s.color, text[j - s.cursor])
                } else {
                    s.cells[j]
                },
        ));
    } else {
        assert(s.cells =~= Seq::new(
            s.cells.len(),
            |j: int|
                if s.cursor <= j < s.cursor + text.len() {
                    cell(s.color, text[j - s.cursor])
                } else {
                    s.cells[j]
                },
        ));
    }
}

/// The decimal digits of `n`, most significant first.
pub open spec fn decimal(n: nat) -> Seq<u8>
    decreases n,
{
    if n < 10 {
        seq![(0x30 + n) as u8]
    } else {
        decimal(n / 10).push((0x30 + n % 10) as u8)
    }
}

/// The parameters of an SGR sequence: the codes in decimal, separated by
/// semicolons.
pub open spec fn sgr_params(codes: Seq<nat>) -> Seq<u8>
    decreases codes.len(),
{
    if codes.len() == 0 {
        seq![]
    } else if codes.len() == 1 {
        decimal(codes[0])
    } else {
        sgr_params(codes.drop_last()).push(0x3b) + decimal(codes.last())
    }
}

/// The SGR sequence `ESC [ c1 ; c2 ; ... m`.
pub open spec fn sgr(codes: Seq<nat>) -> Seq<u8> {
    seq![ESCAPE, 0x5b] + sgr_params(codes) + seq![0x6du8]
}

/// The attribute after the codes, applied in order.
pub open spec fn apply_codes(color: u16, codes: Seq<nat>) -> u16
    decreases codes.len(),
{
    if codes.len() == 0 {
        color
    } else {
        apply_code(apply_codes(color, codes.drop_last()), codes.last() as int)
    }
}

/// Inside a sequence, the digits of `n` build up the number `n` and touch
/// nothing on the screen.
proof fn lemma_read_decimal(s: Screen, n: nat)
    requires
        n <= 0xffff,
    ensures
        escape_from(Escape { active: true, code: 0 }, decimal(n)) == (Escape {
            active: true,
            code: n as int,
        }),
        screen_from(s, Escape { active: true, code: 0 }, decimal(n)) == s,
        escape_codes_fit_from(Escape { active: true, code: 0 }, decimal(n)),
    decreases n,
{
    let e0 = Escape { active: true, code: 0 };
    let d = decimal(n);
    if n < 10 {
        assert(d.drop_last() =~= Seq::<u8>::empty());
        assert(escape_from(e0, d.drop_last()) == e0);
        assert(screen_from(s, e0, d.drop_last()) == s);
        assert(escape_codes_fit_from(e0, d.drop_last()));
        assert(d.last() == (0x30 + n) as u8);
    } else {
        lemma_read_decimal(s, n / 10);
        assert(d.drop_last() =~= decimal(n / 10));
        assert(d.last() == (0x30 + n % 10) as u8);
        assert((n / 10) * 10 + n % 10 == n);
    }
}

/// Inside a sequence, the parameters leave the number of the last code to
/// read, and the attribute with every earlier code applied.
proof fn lemma_read_sgr_params(s: Screen, codes: Seq<nat>)
    requires
        codes.len() >= 1,
        forall|i: int| 0 <= i < codes.len() ==> codes[i] <= 0xffff,
    ensures
        escape_from(Escape { active: true, code: 0 }, sgr_params(codes)) == (Escape {
            active: true,
            code: codes.last() as int,
        }),
        screen_from(s, Escape { active: true, code: 0 }, sgr_params(codes)) == (Screen {
            color: apply_codes(s.color, codes.drop_last()),
            ..s
        }),
        escape_codes_fit_from(Escape { active: true, code: 0 }, sgr_params(codes)),
    decreases codes.len(),
{
    let e0 = Escape { active: true, code: 0 };
    if codes.len() == 1 {
        lemma_read_decimal(s, codes[0]);
        assert(codes.drop_last() =~= Seq::<nat>::empty());
    } else {
        let init = codes.drop_last();
        lemma_read_sgr_params(s, init);
        let head = sgr_params(init).push(0x3b);
        let mid = Screen { color: apply_codes(s.color, init), ..s };
        assert(head.drop_last() =~= sgr_params(init));
        assert(escape_from(e0, head) == e0);
        assert(screen_from(s, e0, head) == mid);
        lemma_read_decimal(mid, codes.last());
        lemma_escape_from_concat(e0, head, decimal(codes.last()));
        lemma_screen_from_concat(s, e0, head, decimal(codes.last()));
        lemma_escape_codes_fit_concat(e0, head, decimal(codes.last()));
    }
}

/// An SGR sequence `ESC [ c1 ; ... ; cn m` with at least one code applies
/// its codes in order to the attribute and changes nothing else; it is
/// accepted when its codes fit in 16 bits, and leaves the reader outside
/// any sequence.
pub proof fn law_sgr_sequence(s: Screen, codes: Seq<nat>)
    requires
        codes.len() >= 1,
        forall|i: int| 0 <= i < codes.len() ==> codes[i] <= 0xffff,
    ensures
        screen_after(s, sgr(codes)) == (Screen { color: apply_codes(s.color, codes), ..s }),
        escape_codes_fit(sgr(codes)),
        escape_from(escape_start(), sgr(codes)) == escape_start(),
{
    let e = escape_start();
    let open = seq![ESCAPE, 0x5bu8];
    let params = sgr_params(codes);
    let e0 = Escape { active: true, code: 0 };
    assert(open.drop_last() =~= seq![ESCAPE]);
    assert(seq![ESCAPE].drop_last() =~= Seq::<u8>::empty());
    assert(escape_from(e, Seq::<u8>::empty()) == e);
    assert(screen_from(s, e, Seq::<u8>::empty()) == s);
    assert(escape_from(e, seq![ESCAPE]) == Escape { active: true, code: 0 });
    assert(screen_from(s, e, seq![ESCAPE]) == s);
    assert(escape_from(e, open) == e0);
    assert(screen_from(s, e, open) == s);
    assert(escape_codes_fit_from(e, Seq::<u8>::empty()));
    assert(escape_codes_fit_from(e, seq![ESCAPE]));
    assert(escape_codes_fit_from(e, open));
    lemma_read_sgr_params(s, codes);
    lemma_escape_from_concat(e, open, params);
    lemma_screen_from_concat(s, e, open, params);
    lemma_escape_codes_fit_concat(e, open, params);
    let close = seq![0x6du8];
    assert(close.drop_last() =~= Seq::<u8>::empty());
    let mid = screen_from(s, e, open + params);
    let emid = escape_from(e, open + params);
    assert(mid == Screen { color: apply_codes(s.color, codes.drop_last()), ..s });
    assert(emid == Escape { active: true, code: codes.last() as int });
    assert(screen_from(mid, emid, Seq::<u8>::empty()) == mid);
    assert(escape_from(emid, Seq::<u8>::empty()) == emid);
    assert(escape_codes_fit_from(emid, Seq::<u8>::empty()));
    assert(screen_from(mid, emid, close) == Screen { color: apply_codes(s.color, codes), ..s });
    assert(escape_from(emid, close) == e);
    assert(escape_codes_fit_from(emid, close));
    lemma_escape_from_concat(e, open + params, close);
    lemma_screen_from_concat(s, e, open + params, close);
    lemma_escape_codes_fit_concat(e, open + params, close);
}

/// A newline outside an escape sequence puts the cursor at the start of a
/// row, at or after where it was and less than a row further, and blanks
/// the cells it passes.
pub proof fn law_newline_starts_row(s: Screen)
    requires
        s.valid(),
    ensures
        ({
            let t = screen_after(s, seq![0x0au8]);
            &&& t.cursor % s.width == 0
            &&& s.cursor <= t.cursor < s.cursor + s.width
            &&& t.color == s.color
            &&& t.cells.len() == s.cells.len()
            &&& forall|j: int|
                0 <= j < s.cells.len() ==> #[trigger] t.cells[j] == if s.cursor <= j < t.cursor {
                    cell(s.color, 0x20)
                } else {
                    s.cells[j]
                }
        }),
{
    let nl = seq![0x0au8];
    assert(nl.drop_last() =~= Seq::<u8>::empty());
    assert(screen_from(s, escape_start(), Seq::<u8>::empty()) == s);
    assert(escape_from(escape_start(), Seq::<u8>::empty()) == escape_start());
    assert(screen_after(s, nl) == newline(s));
    if s.cursor % s.width != 0 {
        vstd::arithmetic::mul::lemma_mul_is_commutative(s.height, s.width);
        vstd::arithmetic::div_mod::lemma_mod_multiples_basic(s.height, s.width);
        lemma_row_end(s.cursor, s.width, s.height);
    }
}

/// Each normal foreground code 30-37 sets the foreground nibble to
/// `code - 30` (black, red, green, brown, blue, magenta, cyan, light grey)
/// and keeps the background and the character byte.
pub proof fn law_normal_foreground_code(color: u16, code: int)
    requires
        30 <= code <= 37,
    ensures
        apply_code(color, code) == (color & 0xf0ffu16) | (((code - 30) as u16) << 8u16),
        (apply_code(color, code) >> 8u16) & 0xfu16 == code - 30,
        apply_code(color, code) & 0xf0ffu16 == color & 0xf0ffu16,
{
    let k = (code - 30) as u16;
    assert(((color & 0xf0ffu16) | (k << 8u16)) >> 8u16 & 0xfu16 == k) by (bit_vector)
        requires
            k < 8,
    ;
    assert(((color & 0xf0ffu16) | (k << 8u16)) & 0xf0ffu16 == color & 0xf0ffu16) by (bit_vector)
        requires
            k < 8,
    ;
}

/// Each bright foreground code 90-97 sets the foreground nibble to
/// `code - 82`, the colors 8-15 (dark grey to white), and keeps the
/// background and the character byte.
pub proof fn law_bright_foreground_code(color: u16, code: int)
    requires
        90 <= code <= 97,
    ensures
        apply_code(color, code) == (color & 0xf0ffu16) | (((code - 82) as u16) << 8u16),
        (apply_code(color, code) >> 8u16) & 0xfu16 == code - 82,
        apply_code(color, code) & 0xf0ffu16 == color & 0xf0ffu16,
{
    let k = (code - 82) as u16;
    assert(((color & 0xf0ffu16) | (k << 8u16)) >> 8u16 & 0xfu16 == k) by (bit_vector)
        requires
            k < 16,
    ;
    assert(((color & 0xf0ffu16) | (k << 8u16)) & 0xf0ffu16 == color & 0xf0ffu16) by (bit_vector)
        requires
            k < 16,
    ;
}

/// Each normal background code 40-47 sets the background nibble to
/// `code - 40` and keeps the foreground and the character byte.
pub proof fn law_normal_background_code(color: u16, code: int)
    requires
        40 <= code <= 47,
    ensures
        apply_code(color, code) == (color & 0x0fffu16) | (((code - 40) as u16) << 12u16),
        apply_code(color, code) >> 12u16 == code - 40,
        apply_code(color, code) & 0x0fffu16 == color & 0x0fffu16,
{
    let k = (code - 40) as u16;
    assert(((color & 0x0fffu16) | (k << 12u16)) >> 12u16 == k) by (bit_vector)
        requires
            k < 8,
    ;
    assert(((color & 0x0fffu16) | (k << 12u16)) & 0x0fffu16 == color & 0x0fffu16) by (bit_vector)
        requires
            k < 8,
    ;
}

/// Each bright background code 100-107 sets the background nibble to
/// `code - 92`, the colors 8-15, and keeps the foreground and the character
/// byte.
pub proof fn law_bright_background_code(color: u16, code: int)
    requires
        100 <= code <= 107,
    ensures
        apply_code(color, code) == (color & 0x0fffu16) | (((code - 92) as u16) << 12u16),
        apply_code(color, code) >> 12u16 == code - 92,
        apply_code(color, code) & 0x0fffu16 == color & 0x0fffu16,
{
    let k = (code - 92) as u16;
    assert(((color & 0x0fffu16) | (k << 12u16)) >> 12u16 == k) by (bit_vector)
        requires
            k < 16,
    ;
    assert(((color & 0x0fffu16) | (k << 12u16)) & 0x0fffu16 == color & 0x0fffu16) by (bit_vector)
        requires
            k < 16,
    ;
}

/// Code 0 resets the attribute to white on black; every other code outside
/// the color ranges leaves the attribute as it is.
pub proof fn law_reset_and_other_codes(color: u16, code: int)
    ensures
        code == 0 ==> apply_code(color, code) == 0x0f00u16,
        (code != 0 && !(30 <= code <= 37) && !(40 <= code <= 47) && !(90 <= code <= 97) && !(100
            <= code <= 107)) ==> apply_code(color, code) == color,
{
}

/// The cell written for a character holds the attribute in its high byte
/// and the character in its low byte.
pub proof fn law_cell_holds_attribute_and_char(color: u16, c: u8)
    requires
        color & 0xffu16 == 0u16,
    ensures
        cell(color, c) & 0xff00u16 == color,
        cell(color, c) & 0xffu16 == c as u16,
        cell(color, c) == color | (c as u16),
{
    assert(color & 0xffu16 == 0u16 ==> color <= 0xff00u16) by (bit_vector);
    let x = c as u16;
    assert(cell(color, c) == color + x);
    assert((color + x) as u16 & 0xff00u16 == color && (color + x) as u16 & 0xffu16 == x && (color
        + x) as u16 == color | x) by (bit_vector)
        requires
            color & 0xffu16 == 0u16,
            x < 256,
    ;
}

/// Scrolling moves every row up by one and keeps the last row: cell `j`
/// takes the cell one row below it, and the cells of the last row stay.
pub proof fn law_scroll_moves_rows_up(cells: Seq<u16>, width: int)
    requires
        0 < width <= cells.len(),
    ensures
        scrolled(cells, width).len() == cells.len(),
        forall|j: int| 0 <= j < cells.len() - width ==> #[trigger] scrolled(cells, width)[j] == cells[j
            + width],
        forall|j: int|
            cells.len() - width <= j < cells.len() ==> #[trigger] scrolled(cells, width)[j]
                == cells[j],
{
}

/// A character written to a full screen scrolls it: every row moves up by
/// one, the character goes to the start of the last row, the rest of the
/// last row keeps what it showed, and the cursor moves just past it.
pub proof fn law_write_on_full_screen_scrolls(s: Screen, c: u8)
    requires
        s.valid(),
        s.cursor == s.cells.len(),
    ensures
        ({
            let t = put(s, c);
            let len = s.cells.len() as int;
            &&& t.cells.len() == len
            &&& t.cursor == len - s.width + 1
            &&& t.color == s.color
            &&& t.cells[len - s.width] == s.color | (c as u16)
            &&& forall|j: int| 0 <= j < len - s.width ==> #[trigger] t.cells[j] == s.cells[j + s.width]
            &&& forall|j: int| len - s.width < j < len ==> #[trigger] t.cells[j] == s.cells[j]
        }),
{
    vstd::arithmetic::mul::lemma_mul_inequality(1, s.height, s.width);
    vstd::arithmetic::mul::lemma_mul_is_commutative(s.height, s.width);
    law_cell_holds_attribute_and_char(s.color, c);
}

/// A character written before the end of the screen goes to the cursor's
/// cell, as the attribute over the character, and nothing else changes but
/// the cursor, which moves one cell on.
pub proof fn law_write_before_end(s: Screen, c: u8)
    requires
        s.valid(),
        s.cursor < s.cells.len(),
    ensures
        ({
            let t = put(s, c);
            &&& t.cells.len() == s.cells.len()
            &&& t.cursor == s.cursor + 1
            &&& t.color == s.color
            &&& t.cells[s.cursor] == s.color | (c as u16)
            &&& forall|j: int| 0 <= j < s.cells.len() && j != s.cursor ==> #[trigger] t.cells[j]
                == s.cells[j]
        }),
{
    law_cell_holds_attribute_and_char(s.color, c);
}

/// How the escape reader moves: the escape byte opens a sequence and keeps
/// the number read so far; inside a sequence `[` and `;` start a new number,
/// a digit appends to the number in decimal, `m` closes the sequence, and
/// any other byte is skipped; outside a sequence only the escape byte
/// matters.
pub proof fn law_escape_reader(e: Escape, c: u8)
    ensures
        c == 0x1b ==> escape_step(e, c) == (Escape { active: true, code: e.code }),
        c != 0x1b && !e.active ==> escape_step(e, c) == e,
        c != 0x1b && e.active && (c == 0x5b || c == 0x3b) ==> escape_step(e, c) == (Escape {
            active: true,
            code: 0,
        }),
        c != 0x1b && e.active && 0x30 <= c <= 0x39 ==> escape_step(e, c) == (Escape {
            active: true,
            code: e.code * 10 + (c - 0x30),
        }),
        c != 0x1b && e.active && c == 0x6d ==> escape_step(e, c) == (Escape { active: false, code: 0 }),
        c != 0x1b && e.active && c != 0x5b && c != 0x3b && c != 0x6d && !(0x30 <= c <= 0x39)
            ==> escape_step(e, c) == e,
{
}

/// What a byte does to the screen: the escape byte and the bytes inside a
/// sequence show nothing, `m` and `;` inside a sequence apply the number
/// read, a newline outside a sequence ends the row, and any other byte
/// outside a sequence is written at the cursor.
pub proof fn law_byte_on_screen(s: Screen, e: Escape, c: u8)
    ensures
        c == 0x1b ==> screen_step(s, e, c) == s,
        c != 0x1b && e.active && (c == 0x6d || c == 0x3b) ==> screen_step(s, e, c) == (Screen {
            color: apply_code(s.color, e.code),
            ..s
        }),
        c != 0x1b && e.active && c != 0x6d && c != 0x3b ==> screen_step(s, e, c) == s,
        c != 0x1b && !e.active && c == 0x0a ==> screen_step(s, e, c) == newline(s),
        c != 0x1b && !e.active && c != 0x0a ==> screen_step(s, e, c) == put(s, c),
{
}

} // verus!
