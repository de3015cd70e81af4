//! The floor plan: where each torch stands in the room, keyed by its
//! address. The web layer asks it, by color group, row and side — spelled
//! as text in any letter case — which address to drive.
use vstd::prelude::*;

verus! {

use crate::client::Address;

/// The color group a torch belongs to.
#[derive(Debug, Clone, Copy, PartialEq, Eq, Structural)]
pub enum Color {
    Red,
    Green,
    Blue,
    Purple,
    Yellow,
    White,
}

/// Which side of the room a torch stands on.
#[derive(Debug, Clone, Copy, PartialEq, Eq, Structural)]
pub enum Side {
    Left,
    Right,
}

/// One area of the floor: a color group and how many rows it has.
#[derive(Debug, Clone, Copy, PartialEq, Eq, Structural)]
pub struct Area {
    pub color: Color,
    pub rows: u8,
}

/// One torch's place: its color group, side, and row.
#[derive(Debug, Clone, Copy, PartialEq, Eq, Structural)]
pub struct Torch {
    pub color: Color,
    pub side: Side,
    pub row: u8,
}

/// The floor plan: a torch per mapped address, and the areas of the room.
#[derive(Debug)]
pub struct Floorplan {
    pub mapping: Vec<(Address, Torch)>,
    pub areas: Vec<Area>,
}

/// Whether a character is the given lowercase ASCII letter, in either
/// case.
pub open spec fn ci(c: char, lower: char, upper: char) -> bool {
    c == lower || c == upper
}

/// The color group a string names, case-insensitively.
pub open spec fn spec_color_name(s: Seq<char>) -> Option<Color> {
    if s.len() == 3 && ci(s[0], 'r', 'R') && ci(s[1], 'e', 'E') && ci(s[2], 'd', 'D') {
        Some(Color::Red)
    } else if s.len() == 5 && ci(s[0], 'g', 'G') && ci(s[1], 'r', 'R') && ci(s[2], 'e', 'E') && ci(
        s[3],
        'e',
        'E',
    ) && ci(s[4], 'n', 'N') {
        Some(Color::Green)
    } else if s.len() == 4 && ci(s[0], 'b', 'B') && ci(s[1], 'l', 'L') && ci(s[2], 'u', 'U') && ci(
        s[3],
        'e',
        'E',
    ) {
        Some(Color::Blue)
    } else if s.len() == 6 && ci(s[0], 'p', 'P') && ci(s[1], 'u', 'U') && ci(s[2], 'r', 'R') && ci(
        s[3],
        'p',
        'P',
    ) && ci(s[4], 'l', 'L') && ci(s[5], 'e', 'E') {
        Some(Color::Purple)
    } else if s.len() == 6 && ci(s[0], 'y', 'Y') && ci(s[1], 'e', 'E') && ci(s[2], 'l', 'L') && ci(
        s[3],
        'l',
        'L',
    ) && ci(s[4], 'o', 'O') && ci(s[5], 'w', 'W') {
        Some(Color::Yellow)
    } else if s.len() == 5 && ci(s[0], 'w', 'W') && ci(s[1], 'h', 'H') && ci(s[2], 'i', 'I') && ci(
        s[3],
        't',
        'T',
    ) && ci(s[4], 'e', 'E') {
        Some(Color::White)
    } else {
        None
    }
}

/// The side a string names, case-insensitively.
pub open spec fn spec_side_name(s: Seq<char>) -> Option<Side> {
    if s.len() == 4 && ci(s[0], 'l', 'L') && ci(s[1], 'e', 'E') && ci(s[2], 'f', 'F') && ci(
        s[3],
        't',
        'T',
    ) {
        Some(Side::Left)
    } else if s.len() == 5 && ci(s[0], 'r', 'R') && ci(s[1], 'i', 'I') && ci(s[2], 'g', 'G') && ci(
        s[3],
        'h',
        'H',
    ) && ci(s[4], 't', 'T') {
        Some(Side::Right)
    } else {
        None
    }
}

fn ci_at(s: &str, i: usize, lower: char, upper: char) -> (r: bool)
    requires
        i < s@.len(),
    ensures
        r == ci(s@[i as int], lower, upper),
{
    let c = s.get_char(i);
    c == lower || c == upper
}

/// Parse a color group's name, in any letter case.
pub fn color_name(s: &str) -> (r: Option<Color>)
    ensures
        r == spec_color_name(s@),
{
    let n = s.unicode_len();
    if n == 3 && ci_at(s, 0, 'r', 'R') && ci_at(s, 1, 'e', 'E') && ci_at(s, 2, 'd', 'D') {
        Some(Color::Red)
    } else if n == 5 && ci_at(s, 0, 'g', 'G') && ci_at(s, 1, 'r', 'R') && ci_at(s, 2, 'e', 'E')
        && ci_at(s, 3, 'e', 'E') && ci_at(s, 4, 'n', 'N') {
        Some(Color::Green)
    } else if n == 4 && ci_at(s, 0, 'b', 'B') && ci_at(s, 1, 'l', 'L') && ci_at(s, 2, 'u', 'U')
        && ci_at(s, 3, 'e', 'E') {
        Some(Color::Blue)
    } else if n == 6 && ci_at(s, 0, 'p', 'P') && ci_at(s, 1, 'u', 'U') && ci_at(s, 2, 'r', 'R')
        && ci_at(s, 3, 'p', 'P') && ci_at(s, 4, 'l', 'L') && ci_at(s, 5, 'e', 'E') {
        Some(Color::Purple)
    } else if n == 6 && ci_at(s, 0, 'y', 'Y') && ci_at(s, 1, 'e', 'E') && ci_at(s, 2, 'l', 'L')
        && ci_at(s, 3, 'l', 'L') && ci_at(s, 4, 'o', 'O') && ci_at(s, 5, 'w', 'W') {
        Some(Color::Yellow)
    } else if n == 5 && ci_at(s, 0, 'w', 'W') && ci_at(s, 1, 'h', 'H') && ci_at(s, 2, 'i', 'I')
        && ci_at(s, 3, 't', 'T') && ci_at(s, 4, 'e', 'E') {
        Some(Color::White)
    } else {
        None
    }
}

/// Parse a side's name, in any letter case.
pub fn side_name(s: &str) -> (r: Option<Side>)
    ensures
        r == spec_side_name(s@),
{
    let n = s.unicode_len();
    if n == 4 && ci_at(s, 0, 'l', 'L') && ci_at(s, 1, 'e', 'E') && ci_at(s, 2, 'f', 'F') && ci_at(
        s,
        3,
        't',
        'T',
    ) {
        Some(Side::Left)
    } else if n == 5 && ci_at(s, 0, 'r', 'R') && ci_at(s, 1, 'i', 'I') && ci_at(s, 2, 'g', 'G')
        && ci_at(s, 3, 'h', 'H') && ci_at(s, 4, 't', 'T') {
        Some(Side::Right)
    } else {
        None
    }
}

/// Index of the first mapping entry whose torch has this color, side and
/// row, or the length when there is none.
pub open spec fn torch_idx(m: Seq<(Address, Torch)>, c: Color, row: u8, sd: Side) -> int
    decreases m.len(),
{
    if m.len() == 0 {
        0
    } else if m[0].1.color == c && m[0].1.side == sd && m[0].1.row == row {
        0
    } else {
        1 + torch_idx(m.drop_first(), c, row, sd)
    }
}

/// Whether some mapped torch has this color, side and row.
pub open spec fn has_torch(m: Seq<(Address, Torch)>, c: Color, row: u8, sd: Side) -> bool {
    torch_idx(m, c, row, sd) < m.len()
}

pub proof fn lemma_torch_idx(m: Seq<(Address, Torch)>, c: Color, row: u8, sd: Side)
    ensures
        0 <= torch_idx(m, c, row, sd) <= m.len(),
        torch_idx(m, c, row, sd) < m.len() ==> ({
            let t = m[torch_idx(m, c, row, sd)].1;
            t.color == c && t.side == sd && t.row == row
        }),
        forall|j: int|
            0 <= j < torch_idx(m, c, row, sd) ==> !((#[trigger] m[j].1).color == c && m[j].1.side
                == sd && m[j].1.row == row),
    decreases m.len(),
{
    if m.len() > 0 && !(m[0].1.color == c && m[0].1.side == sd && m[0].1.row == row) {
        lemma_torch_idx(m.drop_first(), c, row, sd);
        assert forall|j: int|
            0 <= j < torch_idx(m, c, row, sd) implies !((#[trigger] m[j].1).color == c
            && m[j].1.side == sd && m[j].1.row == row) by {
            if j > 0 {
                assert(m.drop_first()[j - 1] == m[j]);
            }
        }
    }
}

impl Floorplan {
    /// The address of the first mapped torch standing at the named color
    /// group, row and side; nothing when a name does not parse or no
    /// torch stands there.
    #[verifier::loop_isolation(false)]
    pub fn get_ip(&self, color: &str, row: u8, side: &str) -> (r: Option<Address>)
        ensures
            r is Some <==> spec_color_name(color@) is Some && spec_side_name(side@) is Some
                && has_torch(
                self.mapping@,
                spec_color_name(color@)->Some_0,
                row,
                spec_side_name(side@)->Some_0,
            ),
            r matches Some(a) ==> a == self.mapping@[torch_idx(
                self.mapping@,
                spec_color_name(color@)->Some_0,
                row,
                spec_side_name(side@)->Some_0,
            )].0,
    {
        let c = match color_name(color) {
            Some(c) => c,
            None => {
                return None;
            },
        };
        let sd = match side_name(side) {
            Some(sd) => sd,
            None => {
                return None;
            },
        };
        let ghost m = self.mapping@;
        proof {
            lemma_torch_idx(m, c, row, sd);
        }
        let mut i: usize = 0;
        while i < self.mapping.len()
            invariant
                0 <= i <= m.len(),
                forall|j: int|
                    0 <= j < i ==> !((#[trigger] m[j].1).color == c && m[j].1.side == sd
                        && m[j].1.row == row),
            decreases m.len() - i,
        {
            let entry = &self.mapping[i];
            if entry.1.color == c && entry.1.side == sd && entry.1.row == row {
                assert(torch_idx(m, c, row, sd) == i);
                return Some(entry.0);
            }
            i = i + 1;
        }
        assert(!has_torch(m, c, row, sd)) by {
            if torch_idx(m, c, row, sd) < m.len() {
                assert(m[torch_idx(m, c, row, sd)].1.color == c);
            }
        }
        None
    }
}

} // verus!
