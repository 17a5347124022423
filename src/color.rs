use vstd::prelude::*;

verus! {

/// The side a square's occupant belongs to; `NONE` marks an empty square.
#[allow(non_camel_case_types)]
#[derive(PartialEq, Eq, Structural, Copy, Clone, Debug)]
pub enum Color {
    WHITE,
    BLACK,
    NONE,
}

/// The opponent of `color`; anything but `WHITE` maps to `WHITE`.
pub open spec fn opponent(color: Color) -> Color {
    if color == Color::WHITE {
        Color::BLACK
    } else {
        Color::WHITE
    }
}

/// Returns the side that moves after `color`.
pub fn inverse_color(color: Color) -> (r: Color)
    ensures
        r == opponent(color),
        color == Color::WHITE ==> r == Color::BLACK,
        color == Color::BLACK ==> r == Color::WHITE,
{
    if color == Color::WHITE {
        Color::BLACK
    } else {
        Color::WHITE
    }
}

/// The letter that names a side to move; nothing for `NONE`.
pub open spec fn color_text(color: Color) -> Seq<char> {
    match color {
        Color::WHITE => seq!['w'],
        Color::BLACK => seq!['b'],
        Color::NONE => seq![],
    }
}

/// The side that a one-letter text names, in either case: `w` white, `b`
/// black, `.` none.
pub open spec fn color_of_text(cs: Seq<char>) -> Option<Color> {
    if cs.len() != 1 {
        None
    } else {
        match cs[0] {
            'w' | 'W' => Some(Color::WHITE),
            'b' | 'B' => Some(Color::BLACK),
            '.' => Some(Color::NONE),
            _ => None,
        }
    }
}

impl Color {
    /// The side that `s` names; see [`color_of_text`].
    pub fn from_str(s: &str) -> (r: Result<Color, ()>)
        ensures
            r == match color_of_text(s@) {
                Some(c) => Ok(c),
                None => Err::<Color, ()>(()),
            },
    {
        if s.unicode_len() != 1 {
            return Err(());
        }
        match s.get_char(0) {
            'w' | 'W' => Ok(Color::WHITE),
            'b' | 'B' => Ok(Color::BLACK),
            '.' => Ok(Color::NONE),
            _ => Err(()),
        }
    }

    /// `w` for white, `b` for black, the empty string for `NONE`.
    pub fn to_text(&self) -> (r: &'static str)
        ensures
            r@ == color_text(*self),
    {
        proof {
            reveal_strlit("w");
            reveal_strlit("b");
            reveal_strlit("");
        }
        match self {
            Color::WHITE => "w",
            Color::BLACK => "b",
            Color::NONE => "",
        }
    }
}

} // verus!
