//! The color tables of the render pass: a closed mapping from color names
//! to canonical hex values, with white as the fallback, and the default
//! color of each line kind.

use vstd::prelude::*;
use crate::buffer::LineType;
use crate::strutil::str_eq;

verus! {

/// The canonical value of a named color: the closed table, then raw hex or
/// `rgb` values passed through, then white.
pub open spec fn color_value(c: Seq<char>) -> Seq<char> {
    if c == "red"@ {
        "#ff0000"@
    } else if c == "green"@ {
        "#00ff00"@
    } else if c == "blue"@ {
        "#0000ff"@
    } else if c == "yellow"@ {
        "#ffff00"@
    } else if c == "cyan"@ {
        "#00ffff"@
    } else if c == "magenta"@ {
        "#ff00ff"@
    } else if c == "white"@ {
        "#ffffff"@
    } else if c == "gray"@ || c == "grey"@ {
        "#808080"@
    } else if c == "boot-line"@ || c == "typing-line"@ {
        "#ffffff"@
    } else if c == "command"@ {
        "#8be9fd"@
    } else if c == "completion"@ {
        "#f8f8f2"@
    } else if c == "error"@ {
        "#ff4444"@
    } else if c == "success"@ {
        "#44ff44"@
    } else if c == "warning"@ {
        "#ffaa00"@
    } else if c.len() >= 1 && c[0] == '#' {
        c
    } else if c.len() >= 3 && c.subrange(0, 3) == "rgb"@ {
        c
    } else {
        "#ffffff"@
    }
}

/// Resolves a color name to its canonical value.
pub fn get_color_value(color: &str) -> (r: String)
    ensures
        r@ == color_value(color@),
{
    if str_eq(color, "red") {
        "#ff0000".to_owned()
    } else if str_eq(color, "green") {
        "#00ff00".to_owned()
    } else if str_eq(color, "blue") {
        "#0000ff".to_owned()
    } else if str_eq(color, "yellow") {
        "#ffff00".to_owned()
    } else if str_eq(color, "cyan") {
        "#00ffff".to_owned()
    } else if str_eq(color, "magenta") {
        "#ff00ff".to_owned()
    } else if str_eq(color, "white") {
        "#ffffff".to_owned()
    } else if str_eq(color, "gray") || str_eq(color, "grey") {
        "#808080".to_owned()
    } else if str_eq(color, "boot-line") || str_eq(color, "typing-line") {
        "#ffffff".to_owned()
    } else if str_eq(color, "command") {
        "#8be9fd".to_owned()
    } else if str_eq(color, "completion") {
        "#f8f8f2".to_owned()
    } else if str_eq(color, "error") {
        "#ff4444".to_owned()
    } else if str_eq(color, "success") {
        "#44ff44".to_owned()
    } else if str_eq(color, "warning") {
        "#ffaa00".to_owned()
    } else {
        let n = color.unicode_len();
        let hash = n >= 1 && color.get_char(0) == '#';
        let rgb = n >= 3 && color.get_char(0) == 'r' && color.get_char(1) == 'g'
            && color.get_char(2) == 'b';
        proof {
            reveal_strlit("#");
            reveal_strlit("rgb");
            if n >= 3 {
                let p = color@.subrange(0, 3);
                assert(p.len() == 3 && p[0] == color@[0] && p[1] == color@[1] && p[2] == color@[2]);
                if color@[0] == 'r' && color@[1] == 'g' && color@[2] == 'b' {
                    assert(p =~= "rgb"@);
                } else {
                    assert(p != "rgb"@) by {
                        if p == "rgb"@ {
                            assert(p[0] == 'r' && p[1] == 'g' && p[2] == 'b');
                        }
                    }
                }
            }
        }
        if hash || rgb {
            color.to_owned()
        } else {
            "#ffffff".to_owned()
        }
    }
}

/// The default color of a line kind, overridden by a custom color.
pub open spec fn kind_color(lt: LineType, custom: Option<Seq<char>>) -> Seq<char> {
    match custom {
        Option::Some(c) => color_value(c),
        Option::None => match lt {
            LineType::Command => "#00ffff"@,
            LineType::Output => "#ffffff"@,
            LineType::_Error => "#ff0000"@,
            LineType::System => "#ffff00"@,
            LineType::Boot => "#ffffff"@,
            LineType::Typing => "#ffffff"@,
            LineType::_Prompt => "#00ffff"@,
            LineType::Normal => "#ffffff"@,
        },
    }
}

/// Resolves the drawing color of a line: its custom color if it has one,
/// else the default of its kind.
pub fn get_color(line_type: &LineType, custom_color: Option<&str>) -> (r: String)
    ensures
        r@ == kind_color(*line_type, match custom_color {
            Option::Some(c) => Option::Some(c@),
            Option::None => Option::None,
        }),
{
    match custom_color {
        Option::Some(c) => get_color_value(c),
        Option::None => match line_type {
            LineType::Command => "#00ffff".to_owned(),
            LineType::Output => "#ffffff".to_owned(),
            LineType::_Error => "#ff0000".to_owned(),
            LineType::System => "#ffff00".to_owned(),
            LineType::Boot => "#ffffff".to_owned(),
            LineType::Typing => "#ffffff".to_owned(),
            LineType::_Prompt => "#00ffff".to_owned(),
            LineType::Normal => "#ffffff".to_owned(),
        },
    }
}

} // verus!
