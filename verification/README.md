# ef_os

The logic of a small teaching kernel, verified with Verus.

- `src/vga.rs`: a VGA text-mode writer. Writing a string puts its
  characters on the screen in the current attribute, scrolls a full screen
  by a row, blanks the rest of a row on a newline, and reads ANSI SGR
  sequences (`ESC [ n ; ... m`) to change the foreground and background.
  The screen is modelled by `Screen`; `write_str` is specified by
  `screen_after`, and the laws about writes (splitting a write, plain text,
  SGR sequences, newlines, validity) are proved over that model.
- `src/page_alloc.rs`: a page manager over a fixed pool of page buffers,
  with the models of its searches and of `allocate`. Its steps behave as
  the models say, and that leaves `allocate` few inputs:
  `get_size_of_free_region` counts the pages *in use* from a page up to
  the next free one, so every region that a search records has size 0;
  `find_memory` underflows when the cached region is smaller than the
  request, and its search for a larger region never ends when a free page
  follows the request and the request is not empty; `mark_as_used(begin,
  size)` marks `[begin, size)`. The `requires` of these functions leave out
  exactly those inputs. On a fresh pool of 4 pages, `allocate(4)` and
  `allocate(0)` are admitted and `allocate(2)` is not; once the cache has
  been refilled by a search, no allocation of one page or more is admitted
  while a free page remains. `deallocate(idx)` releases page `idx` alone.
- `src/panic_screen.rs`: what a panic shows, from the count of earlier
  panics: the banner through the writer, the banner (and message) written
  straight into screen memory, or nothing.
- `src/demo.rs`: the fizz-buzz decision for one number.
- `src/tty.rs`: a terminal buffer.
- `src/io/error.rs`: the I/O error type.
- `app/main.rs`: the demo program, run in a process: a global locked
  writer (`spin`, `lazy_static`), the `print!`/`println!` macros, the panic
  hook with its counter, and the fizz-buzz demo loop, with the screen shown
  on standard output.
