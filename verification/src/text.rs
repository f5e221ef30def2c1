//! What a viewer needs on the way from keys to glyphs on a line: the
//! text that is typed, and where the glyph of each character goes.
//!
//! Glyphs are put side by side, each as wide as the right edge of its
//! bounding box says.

use vstd::prelude::*;
use crate::font_loader::{FontFile, GlyphDescription, GlyphView};
use crate::glyph::glyph_views;

verus! {

/// The character that a backspace key sends.
pub const BACKSPACE: char = '\u{8}';

/// What reaches a window.
#[derive(Debug, PartialEq, Eq)]
pub enum WindowInput {
    /// The window is asked to close.
    CloseRequested,
    /// The window is asked to draw itself.
    RedrawRequested,
    /// A key went down: whether it is the escape key, and the text that
    /// it stands for, if any.
    KeyPressed { escape: bool, text: Option<Vec<char>> },
    /// Anything else.
    Other,
}

/// What a window does about an input.
#[derive(Debug, Clone, Copy, PartialEq, Eq)]
pub struct Reaction {
    /// Leave the event loop.
    pub exit: bool,
    /// Draw the text now.
    pub render: bool,
    /// Ask for the window to be drawn again.
    pub request_redraw: bool,
}

/// The text after a key that stands for `typed`: a backspace takes the
/// last character away, if there is one; anything else is put at the end.
pub open spec fn after_typing(text: Seq<char>, typed: Seq<char>) -> Seq<char> {
    if typed == seq![BACKSPACE] {
        if text.len() > 0 {
            text.drop_last()
        } else {
            text
        }
    } else {
        text + typed
    }
}

/// The text after an input. Only a key that stands for text changes it.
pub open spec fn text_after(text: Seq<char>, input: WindowInput) -> Seq<char> {
    match input {
        WindowInput::KeyPressed { escape, text: Some(typed) } => after_typing(text, typed@),
        _ => text,
    }
}

/// What the window does about an input: it leaves on a request to close
/// and on the escape key, draws on a request to draw, and asks to be
/// drawn again after every key that stands for text.
pub open spec fn reaction_to(input: WindowInput) -> Reaction {
    match input {
        WindowInput::CloseRequested => Reaction {
            exit: true,
            render: false,
            request_redraw: false,
        },
        WindowInput::RedrawRequested => Reaction {
            exit: false,
            render: true,
            request_redraw: false,
        },
        WindowInput::KeyPressed { escape, text } => Reaction {
            exit: escape,
            render: false,
            request_redraw: text is Some,
        },
        WindowInput::Other => Reaction { exit: false, render: false, request_redraw: false },
    }
}

/// Takes an input: changes the text that was typed so far and says what
/// the window is to do.
pub fn react(text: &mut Vec<char>, input: &WindowInput) -> (reaction: Reaction)
    ensures
        final(text)@ == text_after(old(text)@, *input),
        reaction == reaction_to(*input),
{
    match input {
        WindowInput::CloseRequested => Reaction {
            exit: true,
            render: false,
            request_redraw: false,
        },
        WindowInput::RedrawRequested => Reaction {
            exit: false,
            render: true,
            request_redraw: false,
        },
        WindowInput::KeyPressed { escape, text: typed } => {
            match typed {
                Some(typed) => {
                    if typed.len() == 1 && typed[0] == BACKSPACE {
                        assert(typed@ =~= seq![BACKSPACE]);
                        if text.len() > 0 {
                            text.pop();
                        }
                    } else {
                        let ghost before = text@;
                        let mut i: usize = 0;
                        while i < typed.len()
                            invariant
                                i <= typed.len(),
                                text@ == before + typed@.take(i as int),
                            decreases typed.len() - i,
                        {
                            text.push(typed[i]);
                            i = i + 1;
                        }
                    }
                    Reaction { exit: *escape, render: false, request_redraw: true }
                },
                None => Reaction { exit: *escape, render: false, request_redraw: false },
            }
        },
        WindowInput::Other => Reaction { exit: false, render: false, request_redraw: false },
    }
}

/// The two ways of drawing a text.
#[derive(Debug, Clone, Copy, PartialEq, Eq)]
pub enum Layout {
    /// Filled glyphs on lines that are `line_height` apart, downwards.
    /// A tab is as wide as four spaces. Positions are unsigned numbers of
    /// 32 bits.
    Filled { line_height: i16 },
    /// Outlines on lines that are 1000 units apart, upwards. A tab is a
    /// character like any other. Positions are signed numbers of 32 bits.
    Outlined,
}

impl Layout {
    /// What a carriage return adds to the vertical position.
    pub open spec fn line_step(self) -> int {
        match self {
            Layout::Filled { line_height } => line_height as int,
            Layout::Outlined => -1000,
        }
    }

    /// Whether a tab moves the pen by four spaces.
    pub open spec fn has_tabs(self) -> bool {
        self is Filled
    }

    /// The least position that a pen can have.
    pub open spec fn lowest(self) -> int {
        match self {
            Layout::Filled { .. } => 0,
            Layout::Outlined => i32::MIN as int,
        }
    }

    /// The greatest position that a pen can have.
    pub open spec fn highest(self) -> int {
        match self {
            Layout::Filled { .. } => u32::MAX as int,
            Layout::Outlined => i32::MAX as int,
        }
    }

    /// Whether a pen can have this position.
    pub open spec fn holds(self, position: int) -> bool {
        self.lowest() <= position <= self.highest()
    }
}

/// Where the glyph of one character goes.
#[derive(Debug, Clone, Copy, PartialEq, Eq)]
pub struct Placement {
    /// The index of the glyph.
    pub glyph: u16,
    /// Where its origin lies, in design units.
    pub x: i64,
    pub y: i64,
}

/// The space character, whose glyph gives a tab its width.
pub const SPACE: char = ' ';

/// The index of the glyph of a character: what the character map gives
/// for its codepoint. There is none where the codepoint has more than
/// 16 bits, where the map has no entry for it, and where the font has no
/// glyph of that index.
pub open spec fn glyph_index(map: Map<u16, u16>, glyphs: int, c: char) -> Option<u16> {
    if c as u32 <= 0xffff && map.contains_key(c as u32 as u16) && map[c as u32 as u16] < glyphs {
        Some(map[c as u32 as u16])
    } else {
        None
    }
}

/// A pen on its way through a text: what it has placed, and where it is.
pub struct Pen {
    pub placed: Seq<Placement>,
    pub x: int,
    pub y: int,
}

/// The pen moved to the right by `by`, if it can be there.
pub open spec fn moved(pen: Pen, by: int, layout: Layout) -> Option<Pen> {
    if layout.holds(pen.x + by) {
        Some(Pen { x: pen.x + by, ..pen })
    } else {
        None
    }
}

/// The pen after one more character.
///
/// A carriage return takes it to the start of the next line. A space
/// moves it by the width of the glyph of the space. A tab, where the
/// layout has tabs, moves it by four times that width. Any other
/// character has its glyph placed where the pen is, and moves the pen by
/// the width of the glyph. The width of a glyph is the right edge of its
/// bounding box.
///
/// There is no such pen where a glyph that is needed is missing, and
/// where the pen would leave the positions of the layout.
pub open spec fn pen_after(
    pen: Pen,
    c: char,
    map: Map<u16, u16>,
    glyphs: Seq<GlyphView>,
    layout: Layout,
) -> Option<Pen> {
    if c == '\r' {
        if layout.holds(pen.y + layout.line_step()) {
            Some(Pen { x: 0, y: pen.y + layout.line_step(), ..pen })
        } else {
            None
        }
    } else if c == '\t' && layout.has_tabs() {
        match glyph_index(map, glyphs.len() as int, SPACE) {
            Some(space) => moved(pen, 4 * glyphs[space as int].xmax, layout),
            None => None,
        }
    } else {
        match glyph_index(map, glyphs.len() as int, c) {
            Some(glyph) => moved(
                if c == SPACE {
                    pen
                } else {
                    Pen {
                        placed: pen.placed.push(
                            Placement { glyph, x: pen.x as i64, y: pen.y as i64 },
                        ),
                        ..pen
                    }
                },
                glyphs[glyph as int].xmax as int,
                layout,
            ),
            None => None,
        }
    }
}

/// The pen after the first `count` characters of a text, starting at the
/// origin.
pub open spec fn pen_through(
    text: Seq<char>,
    count: int,
    map: Map<u16, u16>,
    glyphs: Seq<GlyphView>,
    layout: Layout,
) -> Option<Pen>
    decreases count,
{
    if count <= 0 {
        Some(Pen { placed: Seq::empty(), x: 0, y: 0 })
    } else {
        match pen_through(text, count - 1, map, glyphs, layout) {
            Some(pen) => pen_after(pen, text[count - 1], map, glyphs, layout),
            None => None,
        }
    }
}

/// Once the pen cannot go on, it cannot get through more of the text.
pub proof fn lemma_pen_stuck(
    text: Seq<char>,
    stuck: int,
    count: int,
    map: Map<u16, u16>,
    glyphs: Seq<GlyphView>,
    layout: Layout,
)
    requires
        0 <= stuck <= count,
        pen_through(text, stuck, map, glyphs, layout) is None,
    ensures
        pen_through(text, count, map, glyphs, layout) is None,
    decreases count,
{
    if count > stuck {
        lemma_pen_stuck(text, stuck, count - 1, map, glyphs, layout);
    }
}

/// Finds the glyph of a character: its index and the glyph itself.
pub fn find_glyph(font: &FontFile, c: char) -> (r: Option<(u16, &GlyphDescription)>)
    ensures
        match r {
            Some((index, glyph)) => glyph_index(
                font.unicode_to_glyph_index_map@,
                font.glyphs.len() as int,
                c,
            ) == Some(index) && *glyph == font.glyphs[index as int],
            None => glyph_index(font.unicode_to_glyph_index_map@, font.glyphs.len() as int, c)
                is None,
        },
{
    let code: u32 = c as u32;
    if code > 0xffff {
        return None;
    }
    let key: u16 = code as u16;
    match font.unicode_to_glyph_index_map.get(&key) {
        Some(index) => {
            if (*index as usize) < font.glyphs.len() {
                Some((*index, &font.glyphs[*index as usize]))
            } else {
                None
            }
        },
        None => None,
    }
}

/// Places the glyphs of a text, character by character from the origin.
/// It gives nothing where the font lacks a glyph that the text needs, or
/// where the text does not fit into the positions of the layout.
pub fn layout_text(font: &FontFile, text: &Vec<char>, layout: Layout) -> (r: Option<Vec<Placement>>)
    ensures
        match r {
            Some(placed) => {
                &&& pen_through(
                    text@,
                    text.len() as int,
                    font.unicode_to_glyph_index_map@,
                    glyph_views(font.glyphs@),
                    layout,
                ) matches Some(pen)
                &&& placed@ == pen.placed
                &&& forall|i: int|
                    0 <= i < placed.len() ==> {
                        &&& layout.holds((#[trigger] placed@[i]).x as int)
                        &&& layout.holds(placed@[i].y as int)
                        &&& placed@[i].glyph < font.glyphs.len()
                    }
            },
            None => pen_through(
                text@,
                text.len() as int,
                font.unicode_to_glyph_index_map@,
                glyph_views(font.glyphs@),
                layout,
            ) is None,
        },
{
    let ghost map = font.unicode_to_glyph_index_map@;
    let ghost glyphs = glyph_views(font.glyphs@);
    let (step, tabs, lowest, highest): (i64, bool, i64, i64) = match layout {
        Layout::Filled { line_height } => (line_height as i64, true, 0, 0xffff_ffff),
        Layout::Outlined => (-1000, false, -0x8000_0000, 0x7fff_ffff),
    };
    let mut placed: Vec<Placement> = Vec::new();
    let mut x: i64 = 0;
    let mut y: i64 = 0;
    let mut i: usize = 0;
    while i < text.len()
        invariant
            i <= text.len(),
            map == font.unicode_to_glyph_index_map@,
            glyphs == glyph_views(font.glyphs@),
            step == layout.line_step(),
            tabs == layout.has_tabs(),
            lowest == layout.lowest(),
            highest == layout.highest(),
            layout.holds(x as int),
            layout.holds(y as int),
            pen_through(text@, i as int, map, glyphs, layout) == Some(
                Pen { placed: placed@, x: x as int, y: y as int },
            ),
            forall|k: int|
                0 <= k < placed.len() ==> {
                    &&& layout.holds((#[trigger] placed@[k]).x as int)
                    &&& layout.holds(placed@[k].y as int)
                    &&& placed@[k].glyph < font.glyphs.len()
                },
        decreases text.len() - i,
    {
        let c = text[i];
        let by: i64;
        if c == '\r' {
            if y + step < lowest || y + step > highest {
                proof {
                    lemma_pen_stuck(text@, i + 1, text.len() as int, map, glyphs, layout);
                }
                return None;
            }
            x = 0;
            y = y + step;
            by = 0;
        } else if c == '\t' && tabs {
            match find_glyph(font, SPACE) {
                Some((_, space)) => {
                    by = 4 * (space.xmax as i64);
                },
                None => {
                    proof {
                        lemma_pen_stuck(text@, i + 1, text.len() as int, map, glyphs, layout);
                    }
                    return None;
                },
            }
        } else {
            match find_glyph(font, c) {
                Some((index, glyph)) => {
                    by = glyph.xmax as i64;
                    if x + by >= lowest && x + by <= highest && c != SPACE {
                        placed.push(Placement { glyph: index, x, y });
                    }
                },
                None => {
                    proof {
                        lemma_pen_stuck(text@, i + 1, text.len() as int, map, glyphs, layout);
                    }
                    return None;
                },
            }
        }
        if x + by < lowest || x + by > highest {
            proof {
                lemma_pen_stuck(text@, i + 1, text.len() as int, map, glyphs, layout);
            }
            return None;
        }
        x = x + by;
        i = i + 1;
    }
    Some(placed)
}

} // verus!
