use vstd::prelude::*;

verus! {

use vstd::string::StringSliceAdditionalSpecFns;

/// Cells in a row of the VGA text screen.
pub const SCREEN_WIDTH: usize = 80;

/// Cells of the VGA text screen that a panic clears.
pub const SCREEN_CELLS: usize = 1920;

/// Cells that the panic banner takes: three rows.
pub const BANNER_CELLS: usize = 240;

/// Attribute of the banner written straight into screen memory: white on red.
pub const BANNER_ATTRIBUTE: u8 = 0x4f;

/// Attribute of the panic message written straight into screen memory:
/// white on black.
pub const MESSAGE_ATTRIBUTE: u8 = 0x0f;

/// What to do on a panic, given how many panics came before.
pub enum PanicAction {
    /// Print the banner and the panic's description through the writer.
    Banner,
    /// The writer may itself have failed: put these bytes, character and
    /// attribute by turns, straight into screen memory from its start.
    RawScreen(Vec<u8>),
    /// Panicking keeps failing: show nothing.
    Silent,
}

/// The title in the middle row of the banner.
pub open spec fn banner_title() -> Seq<u8> {
    seq![0x4bu8, 0x45, 0x52, 0x4e, 0x45, 0x4c, 0x20, 0x50, 0x41, 0x4e, 0x49, 0x43, 0x45, 0x44]
}

/// The banner, three rows of 80 characters: a row of `#`, the title in the
/// middle of a row of blanks, a row of `#`.
pub open spec fn panic_banner() -> Seq<u8> {
    Seq::new(
        BANNER_CELLS as nat,
        |i: int|
            if i < 80 || i >= 160 {
                0x23u8
            } else if 113 <= i < 127 {
                banner_title()[i - 113]
            } else {
                0x20u8
            },
    )
}

/// The message shown on the screen after `count` earlier panics: only
/// after exactly one.
pub open spec fn shown_message(count: int, message: Option<Seq<u8>>) -> Option<Seq<u8>> {
    if count == 1 {
        message
    } else {
        None
    }
}

/// How many cells the raw screen covers.
pub open spec fn raw_screen_cells(count: int, message: Option<Seq<u8>>) -> int {
    match shown_message(count, message) {
        Some(m) => if BANNER_CELLS + m.len() > SCREEN_CELLS {
            BANNER_CELLS + m.len()
        } else {
            SCREEN_CELLS as int
        },
        None => SCREEN_CELLS as int,
    }
}

/// Screen memory after a repeated panic: the banner in white on red over the
/// first three rows, every later cell of the screen cleared, and, after
/// exactly one earlier panic, the message in white on black from the fourth
/// row on.
pub open spec fn raw_panic_screen(count: int, message: Option<Seq<u8>>) -> Seq<u8> {
    Seq::new(
        (2 * raw_screen_cells(count, message)) as nat,
        |j: int|
            {
                let c = j / 2;
                let is_attribute = j % 2 == 1;
                match shown_message(count, message) {
                    Some(m) if BANNER_CELLS <= c < BANNER_CELLS + m.len() => if is_attribute {
                        MESSAGE_ATTRIBUTE
                    } else {
                        m[c - BANNER_CELLS]
                    },
                    _ => if c < BANNER_CELLS {
                        if is_attribute {
                            BANNER_ATTRIBUTE
                        } else {
                            panic_banner()[c]
                        }
                    } else {
                        0u8
                    },
                }
            },
    )
}

/// The bytes of a message, if there is one.
pub open spec fn message_bytes(message: Option<&str>) -> Option<Seq<u8>> {
    match message {
        Some(m) => Some(m.spec_bytes()),
        None => None,
    }
}

/// Character `i` of the banner.
fn banner_byte(i: usize) -> (b: u8)
    requires
        i < BANNER_CELLS,
    ensures
        b == panic_banner()[i as int],
{
    let title: [u8; 14] = [0x4b, 0x45, 0x52, 0x4e, 0x45, 0x4c, 0x20, 0x50, 0x41, 0x4e, 0x49, 0x43, 0x45, 0x44];
    if i < 80 || i >= 160 {
        0x23
    } else if 113 <= i && i < 127 {
        proof {
            assert(title@ =~= banner_title());
        }
        title[i - 113]
    } else {
        0x20
    }
}

/// Decides what a panic shows, from the number of panics before it, and
/// returns the new count. After more than two earlier panics nothing is
/// shown; after none, the banner goes through the writer; otherwise screen
/// memory is written directly, as `raw_panic_screen` says.
pub fn panic_action(count: usize, message: Option<&str>) -> (r: (usize, PanicAction))
    requires
        count < usize::MAX,
        count == 1 ==> (message matches Some(m) ==> 2 * (m.spec_bytes().len() + BANNER_CELLS)
            <= isize::MAX + 1),
    ensures
        r.0 == count + 1,
        count > 2 ==> r.1 is Silent,
        count == 0 ==> r.1 is Banner,
        1 <= count <= 2 ==> (r.1 matches PanicAction::RawScreen(b) && b@ == raw_panic_screen(
            count as int,
            message_bytes(message),
        )),
{
    if count > 2 {
        return (count + 1, PanicAction::Silent);
    }
    if count == 0 {
        return (count + 1, PanicAction::Banner);
    }
    let ghost shown = shown_message(count as int, message_bytes(message));
    let mut shown_len: usize = 0;
    let mut msg: &[u8] = &[];
    if count == 1 {
        if let Some(m) = message {
            msg = m.as_bytes();
            shown_len = msg.len();
        }
    }
    assert(shown matches Some(m) ==> m == msg@);
    assert(shown is None ==> shown_len == 0);
    let cells = if BANNER_CELLS + shown_len > SCREEN_CELLS {
        BANNER_CELLS + shown_len
    } else {
        SCREEN_CELLS
    };
    assert(cells == raw_screen_cells(count as int, message_bytes(message)));
    let mut out: Vec<u8> = Vec::new();
    let mut c: usize = 0;
    while c < cells
        invariant
            c <= cells,
            cells == raw_screen_cells(count as int, message_bytes(message)),
            2 * cells <= isize::MAX + 1,
            shown == shown_message(count as int, message_bytes(message)),
            shown matches Some(m) ==> m == msg@ && shown_len == msg@.len(),
            shown is None ==> shown_len == 0,
            out@.len() == 2 * c,
            forall|j: int|
                0 <= j < 2 * c ==> out@[j] == raw_panic_screen(
                    count as int,
                    message_bytes(message),
                )[j],
        decreases cells - c,
    {
        let (ch, attr) = if BANNER_CELLS <= c && c < BANNER_CELLS + shown_len {
            (msg[c - BANNER_CELLS], MESSAGE_ATTRIBUTE)
        } else if c < BANNER_CELLS {
            (banner_byte(c), BANNER_ATTRIBUTE)
        } else {
            (0u8, 0u8)
        };
        out.push(ch);
        out.push(attr);
        proof {
            let screen = raw_panic_screen(count as int, message_bytes(message));
            assert((2 * c) / 2 == c && (2 * c) % 2 == 0);
            assert((2 * c + 1) / 2 == c && (2 * c + 1) % 2 == 1);
            assert(out@[2 * c as int] == screen[2 * c as int]);
            assert(out@[2 * c + 1] == screen[2 * c + 1]);
        }
        c = c + 1;
    }
    assert(out@ =~= raw_panic_screen(count as int, message_bytes(message)));
    (count + 1, PanicAction::RawScreen(out))
}

/// A repeated panic (the second or third) draws the whole banner over the
/// first three rows in white on red: a row of `#`, the row with
/// `KERNEL PANICED` in the middle (cells 113 to 126) among blanks, and a
/// row of `#`, whatever the message; the screen holds at least 1920 cells.
pub proof fn law_repeated_panic_draws_banner(count: int, message: Option<Seq<u8>>)
    requires
        1 <= count <= 2,
    ensures
        raw_panic_screen(count, message).len() >= 2 * 1920,
        forall|c: int|
            0 <= c < 240 ==> #[trigger] raw_panic_screen(count, message)[2 * c + 1] == 0x4fu8,
        forall|c: int|
            (0 <= c < 80 || 160 <= c < 240) ==> #[trigger] raw_panic_screen(count, message)[2 * c]
                == 0x23u8,
        forall|c: int|
            (80 <= c < 113 || 127 <= c < 160) ==> #[trigger] raw_panic_screen(count, message)[2
                * c] == 0x20u8,
        forall|k: int|
            0 <= k < 14 ==> #[trigger] raw_panic_screen(count, message)[2 * (113 + k)] == seq![
                0x4bu8,
                0x45,
                0x52,
                0x4e,
                0x45,
                0x4c,
                0x20,
                0x50,
                0x41,
                0x4e,
                0x49,
                0x43,
                0x45,
                0x44,
            ][k],
{
    assert forall|c: int| 0 <= c < 240 implies #[trigger] raw_panic_screen(count, message)[2 * c
        + 1] == 0x4fu8 by {
        assert((2 * c + 1) / 2 == c && (2 * c + 1) % 2 == 1);
    }
    assert forall|c: int| 0 <= c < 240 implies #[trigger] raw_panic_screen(count, message)[2 * c]
        == panic_banner()[c] by {
        assert((2 * c) / 2 == c && (2 * c) % 2 == 0);
    }
    assert forall|k: int| 0 <= k < 14 implies #[trigger] raw_panic_screen(count, message)[2 * (113
        + k)] == seq![
        0x4bu8,
        0x45,
        0x52,
        0x4e,
        0x45,
        0x4c,
        0x20,
        0x50,
        0x41,
        0x4e,
        0x49,
        0x43,
        0x45,
        0x44,
    ][k] by {
        assert(raw_panic_screen(count, message)[2 * (113 + k)] == panic_banner()[113 + k]);
    }
}

/// After the banner, a repeated panic clears the rest of the screen; after
/// exactly one earlier panic the message follows the banner in white on
/// black, and the cells after it up to the end of the screen are cleared.
pub proof fn law_repeated_panic_clears_and_shows_message(count: int, message: Option<Seq<u8>>)
    requires
        1 <= count <= 2,
    ensures
        ({
            let shown: Seq<u8> = if count == 1 && message is Some {
                message->0
            } else {
                Seq::empty()
            };
            let raw = raw_panic_screen(count, message);
            &&& raw.len() == 2 * (if 240 + shown.len() > 1920 {
                240 + shown.len()
            } else {
                1920
            })
            &&& forall|k: int|
                0 <= k < shown.len() ==> #[trigger] raw[2 * (240 + k)] == shown[k] && raw[2 * (240
                    + k) + 1] == 0x0fu8
            &&& forall|j: int| 2 * (240 + shown.len()) <= j < raw.len() ==> #[trigger] raw[j] == 0u8
        }),
{
    let shown: Seq<u8> = if count == 1 && message is Some {
        message->0
    } else {
        Seq::empty()
    };
    let raw = raw_panic_screen(count, message);
    assert forall|k: int| 0 <= k < shown.len() implies #[trigger] raw[2 * (240 + k)] == shown[k]
        && raw[2 * (240 + k) + 1] == 0x0fu8 by {
        assert((2 * (240 + k)) / 2 == 240 + k && (2 * (240 + k)) % 2 == 0);
        assert((2 * (240 + k) + 1) / 2 == 240 + k && (2 * (240 + k) + 1) % 2 == 1);
    }
    assert forall|j: int| 2 * (240 + shown.len()) <= j < raw.len() implies #[trigger] raw[j]
        == 0u8 by {
        assert(j / 2 >= 240 + shown.len());
    }
}

} // verus!
