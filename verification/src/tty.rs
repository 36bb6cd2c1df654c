use vstd::prelude::*;

verus! {

/// A terminal of `screen_size` characters over a buffer of `MAX_BUFF_SIZE`
/// bytes, blank in `background_char`.
pub struct Tty<const MAX_BUFF_SIZE: usize> {
    screen_size: (usize, usize),
    background_char: u8,
    buffer: [u8; MAX_BUFF_SIZE],
}

impl<const MAX_BUFF_SIZE: usize> Tty<MAX_BUFF_SIZE> {
    /// A terminal whose whole buffer holds `background_char`.
    pub fn new(screen_size: (usize, usize), background_char: u8) -> (r: Tty<MAX_BUFF_SIZE>)
        ensures
            r.screen_size() == screen_size,
            r.background_char() == background_char,
            r.buffer() == Seq::new(MAX_BUFF_SIZE as nat, |i: int| background_char),
    {
        let r = Tty { screen_size, background_char, buffer: [background_char;MAX_BUFF_SIZE] };
        assert(r.buffer@ =~= Seq::new(MAX_BUFF_SIZE as nat, |i: int| background_char));
        return r;
    }

    pub closed spec fn screen_size(&self) -> (usize, usize) {
        self.screen_size
    }

    pub closed spec fn background_char(&self) -> u8 {
        self.background_char
    }

    pub closed spec fn buffer(&self) -> Seq<u8> {
        self.buffer@
    }

    /// Columns and rows.
    pub fn get_screen_size(&self) -> (r: (usize, usize))
        ensures
            r == self.screen_size(),
    {
        self.screen_size
    }

    /// The byte that fills an empty terminal.
    pub fn get_background_char(&self) -> (r: u8)
        ensures
            r == self.background_char(),
    {
        self.background_char
    }

    /// The terminal's bytes.
    pub fn get_buffer(&self) -> (r: &[u8])
        ensures
            r@ == self.buffer(),
    {
        self.buffer.as_slice()
    }
}

} // verus!
