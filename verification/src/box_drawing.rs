//! Box-drawing glyph detection: cells whose first character belongs to
//! the box-drawing repertoire are rendered natively (lines, blocks,
//! shades, powerline glyphs) instead of going through the font.

use vstd::prelude::*;

verus! {

/// The box-drawing repertoire: the box-drawing and block-element
/// blocks (minus a few unhandled codepoints), the private-use powerline
/// glyphs, and the legacy-computing block pieces that the native
/// renderer knows how to draw.
pub open spec fn spec_is_box_drawing_char(c: char) -> bool {
    ||| '\u{2500}' <= c <= '\u{2503}'
    ||| '\u{2505}' <= c <= '\u{253B}'
    ||| '\u{254C}' <= c <= '\u{2551}'
    ||| c == '\u{255E}'
    ||| '\u{2560}' <= c <= '\u{2561}'
    ||| c == '\u{2563}'
    ||| '\u{2565}' <= c <= '\u{2566}'
    ||| '\u{2568}' <= c <= '\u{2595}'
    ||| '\u{25D6}' <= c <= '\u{25D7}'
    ||| '\u{25E2}' <= c <= '\u{25E5}'
    ||| '\u{E0B0}' <= c <= '\u{E0BF}'
    ||| '\u{E0D6}' <= c <= '\u{E0D7}'
    ||| '\u{EE00}' <= c <= '\u{EE05}'
    ||| c == '\u{1FB7C}'
    ||| '\u{1FB7E}' <= c <= '\u{1FB94}'
    ||| '\u{1FB98}' <= c <= '\u{1FB99}'
    ||| '\u{1FB9C}' <= c <= '\u{1FB9F}'
}

/// Does this cell text start with a natively drawn box character?
pub fn is_box_char(text: &str) -> (r: bool)
    ensures
        r == (text@.len() > 0 && spec_is_box_drawing_char(text@[0])),
{
    let n = text.unicode_len();
    if n == 0 {
        return false;
    }
    let c = text.get_char(0);
    ('\u{2500}' <= c && c <= '\u{2503}') || ('\u{2505}' <= c && c <= '\u{253B}') || ('\u{254C}' <= c
        && c <= '\u{2551}') || c == '\u{255E}' || ('\u{2560}' <= c && c <= '\u{2561}') || c
        == '\u{2563}' || ('\u{2565}' <= c && c <= '\u{2566}') || ('\u{2568}' <= c && c
        <= '\u{2595}') || ('\u{25D6}' <= c && c <= '\u{25D7}') || ('\u{25E2}' <= c && c
        <= '\u{25E5}') || ('\u{E0B0}' <= c && c <= '\u{E0BF}') || ('\u{E0D6}' <= c && c
        <= '\u{E0D7}') || ('\u{EE00}' <= c && c <= '\u{EE05}') || c == '\u{1FB7C}' || ('\u{1FB7E}'
        <= c && c <= '\u{1FB94}') || ('\u{1FB98}' <= c && c <= '\u{1FB99}') || ('\u{1FB9C}' <= c
        && c <= '\u{1FB9F}')
}

} // verus!
