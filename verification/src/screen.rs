//! Screen state: header, footer and message text plus the character
//! buffer, and the viewport computation that turns a symbol map into the
//! message text centered on the player.
//!
//! Drawing to the terminal and reading input happen outside this crate;
//! this module owns only the text and buffer state they display.

use vstd::prelude::*;

verus! {

pub const COLUMN_WIDTH: usize = 80;

pub const ROW_HEIGHT: usize = 25;

/// Relies on std's `String::push`: appends one character.
pub assume_specification[ String::push ](s: &mut String, ch: char)
    ensures
        final(s)@ == old(s)@.push(ch),
;

/// Which kind of prompt the screen is showing.
#[derive(Clone, Copy, Debug, PartialEq, Eq, Structural)]
pub enum ScreenType {
    Display,
    ChooseYesNo,
    ChooseNumber,
    EnterString,
}

impl Default for ScreenType {
    fn default() -> (t: ScreenType)
        ensures
            t == ScreenType::Display,
    {
        ScreenType::Display
    }
}

/// The text and buffer state of the display.
pub struct Screen {
    pub header: String,
    pub footer: String,
    pub msg: String,
    pub screen_type: ScreenType,
    pub buffer: Vec<Vec<char>>,
}

impl Default for Screen {
    /// A cleared screen: empty texts and a blank character buffer.
    fn default() -> (s: Screen)
        ensures
            s.header@.len() == 0,
            s.footer@.len() == 0,
            s.msg@.len() == 0,
            s.screen_type == ScreenType::Display,
            s.buffer@.len() == ROW_HEIGHT,
            forall|r: int|
                0 <= r < ROW_HEIGHT ==> (#[trigger] s.buffer@[r])@ == Seq::new(
                    COLUMN_WIDTH as nat,
                    |i: int| ' ',
                ),
    {
        let template: Vec<char> = vec![' '; COLUMN_WIDTH];
        let buffer: Vec<Vec<char>> = vec![template; ROW_HEIGHT];
        proof {
            assert(forall|r: int| 0 <= r < ROW_HEIGHT ==> #[trigger] buffer@[r]@ == template@);
            assert(template@ =~= Seq::new(COLUMN_WIDTH as nat, |i: int| ' '));
        }
        Screen {
            header: String::new(),
            footer: String::new(),
            msg: String::new(),
            screen_type: ScreenType::Display,
            buffer,
        }
    }
}

/// The character shown at map cell `(x, y)` in a viewport with the player
/// at `(px, py)`: blank beyond the map's edge, the player marker at the
/// player's own cell, else the map symbol.
pub open spec fn viewport_char(map: Seq<Vec<char>>, px: int, py: int, y: int, x: int) -> char {
    if y < 0 || x < 0 || y >= map.len() || x >= map[y]@.len() {
        ' '
    } else if x == px && y == py {
        '@'
    } else {
        map[y]@[x]
    }
}

/// One full viewport row starting at column `top_x`.
pub open spec fn viewport_row(map: Seq<Vec<char>>, px: int, py: int, top_x: int, y: int) -> Seq<
    char,
> {
    Seq::new(COLUMN_WIDTH as nat, |i: int| viewport_char(map, px, py, y, top_x + i))
}

/// The first `k` viewport rows, joined with newlines.
pub open spec fn viewport_text(
    map: Seq<Vec<char>>,
    px: int,
    py: int,
    top_x: int,
    top_y: int,
    k: int,
) -> Seq<char>
    decreases k,
{
    if k <= 0 {
        Seq::<char>::empty()
    } else if k == 1 {
        viewport_row(map, px, py, top_x, top_y)
    } else {
        viewport_text(map, px, py, top_x, top_y, k - 1) + seq!['\n'] + viewport_row(
            map,
            px,
            py,
            top_x,
            top_y + k - 1,
        )
    }
}

impl Screen {
    pub fn get_header(&self) -> (h: String)
        ensures
            h@ == self.header@,
    {
        self.header.clone()
    }

    pub fn set_header(&mut self, header: &str)
        ensures
            final(self).header@ == header@,
            final(self).footer == old(self).footer,
            final(self).msg == old(self).msg,
            final(self).screen_type == old(self).screen_type,
            final(self).buffer == old(self).buffer,
    {
        self.header = header.to_owned();
    }

    pub fn set_footer(&mut self, footer: &str)
        ensures
            final(self).footer@ == footer@,
            final(self).header == old(self).header,
            final(self).msg == old(self).msg,
            final(self).screen_type == old(self).screen_type,
            final(self).buffer == old(self).buffer,
    {
        self.footer = footer.to_owned();
    }

    pub fn set_msg(&mut self, msg: &str)
        ensures
            final(self).msg@ == msg@,
            final(self).header == old(self).header,
            final(self).footer == old(self).footer,
            final(self).screen_type == old(self).screen_type,
            final(self).buffer == old(self).buffer,
    {
        self.msg = msg.to_owned();
    }

    /// Replaces the message with a viewport into the symbol map, centered
    /// on the given position: a fixed block of text one screen wide and
    /// the screen's height less the header, footer and spacers tall, with
    /// the player marker at the center position, blanks beyond the map's
    /// edge, and rows joined by newlines.
    pub fn set_map(&mut self, map_vec: Vec<Vec<char>>, position_x: i32, position_y: i32)
        requires
            i32::MIN + 100 <= position_x <= i32::MAX - 100,
            i32::MIN + 100 <= position_y <= i32::MAX - 100,
            map_vec@.len() <= i32::MAX,
            forall|r: int| 0 <= r < map_vec@.len() ==> (#[trigger] map_vec@[r])@.len() <= i32::MAX,
        ensures
            final(self).msg@ == viewport_text(
                map_vec@,
                position_x as int,
                position_y as int,
                position_x - (COLUMN_WIDTH / 2) as int,
                position_y - ((ROW_HEIGHT - 4) / 2) as int,
                (ROW_HEIGHT - 4) as int,
            ),
            final(self).header == old(self).header,
            final(self).footer == old(self).footer,
            final(self).screen_type == old(self).screen_type,
            final(self).buffer == old(self).buffer,
    {
        // the message area: a header line, a spacer, the map, a bottom
        // spacer and a footer line
        let msg_area_width: usize = COLUMN_WIDTH;
        let msg_area_height: usize = ROW_HEIGHT - 4;

        let top_pos_x: i32 = position_x - (msg_area_width / 2) as i32;
        let top_pos_y: i32 = position_y - (msg_area_height / 2) as i32;

        let ghost px = position_x as int;
        let ghost py = position_y as int;
        let ghost tx = top_pos_x as int;
        let ghost ty = top_pos_y as int;

        let mut msg_string = String::new();
        let mut k: usize = 0;
        while k < msg_area_height
            invariant
                msg_area_width == COLUMN_WIDTH,
                msg_area_height == ROW_HEIGHT - 4,
                i32::MIN + 100 <= position_x <= i32::MAX - 100,
                i32::MIN + 100 <= position_y <= i32::MAX - 100,
                map_vec@.len() <= i32::MAX,
                forall|r: int|
                    0 <= r < map_vec@.len() ==> (#[trigger] map_vec@[r])@.len() <= i32::MAX,
                px == position_x as int,
                py == position_y as int,
                tx == top_pos_x as int,
                ty == top_pos_y as int,
                tx == px - (COLUMN_WIDTH / 2) as int,
                ty == py - ((ROW_HEIGHT - 4) / 2) as int,
                k <= msg_area_height,
                msg_string@ == viewport_text(map_vec@, px, py, tx, ty, k as int),
            decreases msg_area_height - k,
        {
            if k > 0 {
                msg_string.push('\n');
            }
            let y: i32 = top_pos_y + k as i32;
            let ghost row_start = msg_string@;
            let mut i: usize = 0;
            while i < msg_area_width
                invariant
                    msg_area_width == COLUMN_WIDTH,
                    i32::MIN + 100 <= position_x <= i32::MAX - 100,
                    i32::MIN + 100 <= position_y <= i32::MAX - 100,
                    map_vec@.len() <= i32::MAX,
                    forall|r: int|
                        0 <= r < map_vec@.len() ==> (#[trigger] map_vec@[r])@.len() <= i32::MAX,
                    px == position_x as int,
                    py == position_y as int,
                    tx == top_pos_x as int,
                    tx == px - (COLUMN_WIDTH / 2) as int,
                    ty == py - ((ROW_HEIGHT - 4) / 2) as int,
                    k < ROW_HEIGHT - 4,
                    y == ty + k,
                    i <= msg_area_width,
                    msg_string@ == row_start + viewport_row(map_vec@, px, py, tx, ty + k).subrange(
                        0,
                        i as int,
                    ),
                decreases msg_area_width - i,
            {
                let x: i32 = top_pos_x + i as i32;
                let ch: char = if y < 0 || x < 0 || y >= map_vec.len() as i32 || x >= map_vec[
                    y as usize
                ].len() as i32 {
                    ' '
                } else if x == position_x && y == position_y {
                    '@'
                } else {
                    map_vec[y as usize][x as usize]
                };
                proof {
                    assert(ch == viewport_char(map_vec@, px, py, ty + k, tx + i));
                }
                msg_string.push(ch);
                proof {
                    let row = viewport_row(map_vec@, px, py, tx, ty + k);
                    assert(row.subrange(0, i + 1) =~= row.subrange(0, i as int).push(
                        viewport_char(map_vec@, px, py, ty + k, tx + i),
                    ));
                }
                i += 1;
            }
            proof {
                let row = viewport_row(map_vec@, px, py, tx, ty + k);
                assert(row.subrange(0, COLUMN_WIDTH as int) =~= row);
                if k == 0 {
                    assert(msg_string@ =~= viewport_text(map_vec@, px, py, tx, ty, k + 1));
                } else {
                    assert(msg_string@ =~= viewport_text(map_vec@, px, py, tx, ty, k + 1));
                }
            }
            k += 1;
        }
        self.msg = msg_string;
    }
}

} // verus!
