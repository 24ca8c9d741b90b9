//! Opening protocols and the catalog of the 26 canonical Renju openings.
//!
//! The named openings are constructed from the standard direct/indirect
//! scheme: stone 1 sits on the center, stone 2 is placed *orthogonally*
//! adjacent for a **direct** opening or *diagonally* adjacent for an
//! **indirect** opening, and stone 3 takes one of the symmetry-distinct cells
//! within the central 5x5 area. Each scheme yields exactly 13 distinct stone-3
//! placements, for 26 openings in total. The name to position assignment
//! follows this construction and round-trips through [`OpeningName::identify`].

use vstd::prelude::*;
use crate::point::Point;
use crate::stone::Player;

verus! {

/// The action a game expects next while an opening protocol is in progress.
#[derive(Debug, Clone, PartialEq, Eq)]
pub enum OpeningAction {
    /// Play a stone of `color` (via `Game::play`); it must satisfy `constraint`.
    PlaceStone {
        /// The color of the stone to place.
        color: Player,
        /// Where the stone may be placed.
        constraint: Constraint,
    },
    /// Choose which color to continue as (`Game::choose_color`).
    ChooseColor,
    /// Make the Swap2 three-way decision (`Game::swap2_decision`).
    Swap2Decision,
    /// Announce the number of 5th-move candidates (`Game::announce_fifth_count`).
    AnnounceCount,
    /// Offer `count` candidate 5th moves (`Game::propose_fifths`).
    ProposeFifths {
        /// How many distinct candidate moves must be offered.
        count: u8,
    },
    /// Select one of the offered 5th moves (`Game::choose_fifth`).
    SelectFifth {
        /// The candidate moves previously proposed.
        options: Vec<Point>,
    },
    /// No opening action pending; play proceeds normally.
    NoAction,
}

/// The model of an [`OpeningAction`]: the proposed moves as a sequence.
pub enum ActionModel {
    /// Play a stone of `color` satisfying `constraint`.
    PlaceStone { color: Player, constraint: Constraint },
    /// Choose which color to continue as.
    ChooseColor,
    /// Make the Swap2 decision.
    Swap2Decision,
    /// Announce the number of 5th-move candidates.
    AnnounceCount,
    /// Offer `count` candidate 5th moves.
    ProposeFifths { count: u8 },
    /// Select one of `options`.
    SelectFifth { options: Seq<Point> },
    /// Nothing pending.
    NoAction,
}

impl View for OpeningAction {
    type V = ActionModel;

    open spec fn view(&self) -> ActionModel {
        match self {
            OpeningAction::PlaceStone { color, constraint } => ActionModel::PlaceStone {
                color: *color,
                constraint: *constraint,
            },
            OpeningAction::ChooseColor => ActionModel::ChooseColor,
            OpeningAction::Swap2Decision => ActionModel::Swap2Decision,
            OpeningAction::AnnounceCount => ActionModel::AnnounceCount,
            OpeningAction::ProposeFifths { count } => ActionModel::ProposeFifths { count: *count },
            OpeningAction::SelectFifth { options } => ActionModel::SelectFifth { options: options@ },
            OpeningAction::NoAction => ActionModel::NoAction,
        }
    }
}

/// A placement restriction on an opening move.
#[derive(Debug, Clone, Copy, PartialEq, Eq, Structural)]
pub enum Constraint {
    /// May be played on any empty point.
    Anywhere,
    /// Must be the center intersection.
    Center,
    /// Must be at least this Chebyshev distance from the center.
    MinDistance(u8),
}

/// The absolute value of an integer.
pub open spec fn abs(v: int) -> int {
    if v < 0 {
        -v
    } else {
        v
    }
}

/// Whether `p` satisfies constraint `c` on a board with the given `center`.
pub open spec fn constraint_allows(c: Constraint, p: Point, center: Point) -> bool {
    match c {
        Constraint::Anywhere => true,
        Constraint::Center => p == center,
        Constraint::MinDistance(d) => abs(p.x - center.x) >= d || abs(p.y - center.y) >= d,
    }
}

impl Constraint {
    /// Whether `p` satisfies this constraint on a board with the given `center`.
    pub fn allows(self, p: Point, center: Point) -> (r: bool)
        ensures
            r == constraint_allows(self, p, center),
    {
        match self {
            Constraint::Anywhere => true,
            Constraint::Center => p == center,
            Constraint::MinDistance(d) => {
                let dx: i16 = p.x as i16 - center.x as i16;
                let dy: i16 = p.y as i16 - center.y as i16;
                let ax: u16 = if dx < 0 {
                    (-dx) as u16
                } else {
                    dx as u16
                };
                let ay: u16 = if dy < 0 {
                    (-dy) as u16
                } else {
                    dy as u16
                };
                let m = if ax > ay {
                    ax
                } else {
                    ay
                };
                m >= d as u16
            },
        }
    }
}

/// Player 2's choice in the Swap2 opening.
#[derive(Debug, Clone, Copy, PartialEq, Eq, Structural)]
pub enum Swap2Choice {
    /// Take White and continue (no swap).
    PlayWhite,
    /// Take Black (swap).
    SwapToBlack,
    /// Place two more stones (White then Black) and pass the color choice back.
    PlaceTwoMore,
}

/// One of the 26 canonical Renju openings. The first 13 are *direct*, the
/// last 13 are *indirect*.
#[derive(Debug, Clone, Copy, PartialEq, Eq, Structural)]
pub enum OpeningName {
    /// Direct opening Kansei.
    Kansei,
    /// Direct opening Keigetsu.
    Keigetsu,
    /// Direct opening Sosei.
    Sosei,
    /// Direct opening Kagetsu.
    Kagetsu,
    /// Direct opening Zangetsu.
    Zangetsu,
    /// Direct opening Ugetsu.
    Ugetsu,
    /// Direct opening Kinsei.
    Kinsei,
    /// Direct opening Shougetsu.
    Shougetsu,
    /// Direct opening Kyuugetsu.
    Kyuugetsu,
    /// Direct opening Shingetsu.
    Shingetsu,
    /// Direct opening Zuisei.
    Zuisei,
    /// Direct opening Sangetsu.
    Sangetsu,
    /// Direct opening Yuusei.
    Yuusei,
    /// Indirect opening Chousei.
    Chousei,
    /// Indirect opening Kyougetsu.
    Kyougetsu,
    /// Indirect opening Kousei.
    Kousei,
    /// Indirect opening Suigetsu.
    Suigetsu,
    /// Indirect opening Ryuusei.
    Ryuusei,
    /// Indirect opening Ungetsu.
    Ungetsu,
    /// Indirect opening Hogetsu.
    Hogetsu,
    /// Indirect opening Rangetsu.
    Rangetsu,
    /// Indirect opening Gingetsu.
    Gingetsu,
    /// Indirect opening Myoujou.
    Myoujou,
    /// Indirect opening Shagetsu.
    Shagetsu,
    /// Indirect opening Meigetsu.
    Meigetsu,
    /// Indirect opening Suisei.
    Suisei,
}

/// All 26 openings, direct first then indirect.
pub const ALL_OPENINGS: [OpeningName; 26] = [
    OpeningName::Kansei,
    OpeningName::Keigetsu,
    OpeningName::Sosei,
    OpeningName::Kagetsu,
    OpeningName::Zangetsu,
    OpeningName::Ugetsu,
    OpeningName::Kinsei,
    OpeningName::Shougetsu,
    OpeningName::Kyuugetsu,
    OpeningName::Shingetsu,
    OpeningName::Zuisei,
    OpeningName::Sangetsu,
    OpeningName::Yuusei,
    OpeningName::Chousei,
    OpeningName::Kyougetsu,
    OpeningName::Kousei,
    OpeningName::Suigetsu,
    OpeningName::Ryuusei,
    OpeningName::Ungetsu,
    OpeningName::Hogetsu,
    OpeningName::Rangetsu,
    OpeningName::Gingetsu,
    OpeningName::Myoujou,
    OpeningName::Shagetsu,
    OpeningName::Meigetsu,
    OpeningName::Suisei,
];

/// The position of an opening in [`ALL_OPENINGS`].
pub open spec fn name_index(n: OpeningName) -> int {
    match n {
        OpeningName::Kansei => 0,
        OpeningName::Keigetsu => 1,
        OpeningName::Sosei => 2,
        OpeningName::Kagetsu => 3,
        OpeningName::Zangetsu => 4,
        OpeningName::Ugetsu => 5,
        OpeningName::Kinsei => 6,
        OpeningName::Shougetsu => 7,
        OpeningName::Kyuugetsu => 8,
        OpeningName::Shingetsu => 9,
        OpeningName::Zuisei => 10,
        OpeningName::Sangetsu => 11,
        OpeningName::Yuusei => 12,
        OpeningName::Chousei => 13,
        OpeningName::Kyougetsu => 14,
        OpeningName::Kousei => 15,
        OpeningName::Suigetsu => 16,
        OpeningName::Ryuusei => 17,
        OpeningName::Ungetsu => 18,
        OpeningName::Hogetsu => 19,
        OpeningName::Rangetsu => 20,
        OpeningName::Gingetsu => 21,
        OpeningName::Myoujou => 22,
        OpeningName::Shagetsu => 23,
        OpeningName::Meigetsu => 24,
        OpeningName::Suisei => 25,
    }
}

/// The opening at position `i` of [`ALL_OPENINGS`] (`0 <= i < 26`).
pub open spec fn name_at(i: int) -> OpeningName {
    if i == 0 {
        OpeningName::Kansei
    } else if i == 1 {
        OpeningName::Keigetsu
    } else if i == 2 {
        OpeningName::Sosei
    } else if i == 3 {
        OpeningName::Kagetsu
    } else if i == 4 {
        OpeningName::Zangetsu
    } else if i == 5 {
        OpeningName::Ugetsu
    } else if i == 6 {
        OpeningName::Kinsei
    } else if i == 7 {
        OpeningName::Shougetsu
    } else if i == 8 {
        OpeningName::Kyuugetsu
    } else if i == 9 {
        OpeningName::Shingetsu
    } else if i == 10 {
        OpeningName::Zuisei
    } else if i == 11 {
        OpeningName::Sangetsu
    } else if i == 12 {
        OpeningName::Yuusei
    } else if i == 13 {
        OpeningName::Chousei
    } else if i == 14 {
        OpeningName::Kyougetsu
    } else if i == 15 {
        OpeningName::Kousei
    } else if i == 16 {
        OpeningName::Suigetsu
    } else if i == 17 {
        OpeningName::Ryuusei
    } else if i == 18 {
        OpeningName::Ungetsu
    } else if i == 19 {
        OpeningName::Hogetsu
    } else if i == 20 {
        OpeningName::Rangetsu
    } else if i == 21 {
        OpeningName::Gingetsu
    } else if i == 22 {
        OpeningName::Myoujou
    } else if i == 23 {
        OpeningName::Shagetsu
    } else if i == 24 {
        OpeningName::Meigetsu
    } else {
        OpeningName::Suisei
    }
}

/// The romaji name of an opening.
pub open spec fn romaji_text(n: OpeningName) -> Seq<char> {
    match n {
        OpeningName::Kansei => "Kansei"@,
        OpeningName::Keigetsu => "Keigetsu"@,
        OpeningName::Sosei => "Sosei"@,
        OpeningName::Kagetsu => "Kagetsu"@,
        OpeningName::Zangetsu => "Zangetsu"@,
        OpeningName::Ugetsu => "Ugetsu"@,
        OpeningName::Kinsei => "Kinsei"@,
        OpeningName::Shougetsu => "Shougetsu"@,
        OpeningName::Kyuugetsu => "Kyuugetsu"@,
        OpeningName::Shingetsu => "Shingetsu"@,
        OpeningName::Zuisei => "Zuisei"@,
        OpeningName::Sangetsu => "Sangetsu"@,
        OpeningName::Yuusei => "Yuusei"@,
        OpeningName::Chousei => "Chousei"@,
        OpeningName::Kyougetsu => "Kyougetsu"@,
        OpeningName::Kousei => "Kousei"@,
        OpeningName::Suigetsu => "Suigetsu"@,
        OpeningName::Ryuusei => "Ryuusei"@,
        OpeningName::Ungetsu => "Ungetsu"@,
        OpeningName::Hogetsu => "Hogetsu"@,
        OpeningName::Rangetsu => "Rangetsu"@,
        OpeningName::Gingetsu => "Gingetsu"@,
        OpeningName::Myoujou => "Myoujou"@,
        OpeningName::Shagetsu => "Shagetsu"@,
        OpeningName::Meigetsu => "Meigetsu"@,
        OpeningName::Suisei => "Suisei"@,
    }
}

/// The Japanese (kanji) name of an opening.
pub open spec fn kanji_text(n: OpeningName) -> Seq<char> {
    match n {
        OpeningName::Kansei => "\u{5bd2}\u{661f}"@,
        OpeningName::Keigetsu => "\u{6e13}\u{6708}"@,
        OpeningName::Sosei => "\u{758f}\u{661f}"@,
        OpeningName::Kagetsu => "\u{82b1}\u{6708}"@,
        OpeningName::Zangetsu => "\u{6b8b}\u{6708}"@,
        OpeningName::Ugetsu => "\u{96e8}\u{6708}"@,
        OpeningName::Kinsei => "\u{91d1}\u{661f}"@,
        OpeningName::Shougetsu => "\u{677e}\u{6708}"@,
        OpeningName::Kyuugetsu => "\u{4e18}\u{6708}"@,
        OpeningName::Shingetsu => "\u{65b0}\u{6708}"@,
        OpeningName::Zuisei => "\u{745e}\u{661f}"@,
        OpeningName::Sangetsu => "\u{5c71}\u{6708}"@,
        OpeningName::Yuusei => "\u{904a}\u{661f}"@,
        OpeningName::Chousei => "\u{9577}\u{661f}"@,
        OpeningName::Kyougetsu => "\u{5ce1}\u{6708}"@,
        OpeningName::Kousei => "\u{6052}\u{661f}"@,
        OpeningName::Suigetsu => "\u{6c34}\u{6708}"@,
        OpeningName::Ryuusei => "\u{6d41}\u{661f}"@,
        OpeningName::Ungetsu => "\u{96f2}\u{6708}"@,
        OpeningName::Hogetsu => "\u{6d66}\u{6708}"@,
        OpeningName::Rangetsu => "\u{5d50}\u{6708}"@,
        OpeningName::Gingetsu => "\u{9280}\u{6708}"@,
        OpeningName::Myoujou => "\u{660e}\u{661f}"@,
        OpeningName::Shagetsu => "\u{659c}\u{6708}"@,
        OpeningName::Meigetsu => "\u{540d}\u{6708}"@,
        OpeningName::Suisei => "\u{5f57}\u{661f}"@,
    }
}

/// The offset of stone 3 from the center.
pub open spec fn stone3(n: OpeningName) -> (int, int) {
    match n {
        OpeningName::Kansei => (-2, 0),
        OpeningName::Keigetsu => (-1, 0),
        OpeningName::Sosei => (2, 0),
        OpeningName::Kagetsu => (-2, 1),
        OpeningName::Zangetsu => (-1, 1),
        OpeningName::Ugetsu => (0, 1),
        OpeningName::Kinsei => (1, 1),
        OpeningName::Shougetsu => (2, 1),
        OpeningName::Kyuugetsu => (-2, 2),
        OpeningName::Shingetsu => (-1, 2),
        OpeningName::Zuisei => (0, 2),
        OpeningName::Sangetsu => (1, 2),
        OpeningName::Yuusei => (2, 2),
        OpeningName::Chousei => (-2, -2),
        OpeningName::Kyougetsu => (-2, -1),
        OpeningName::Kousei => (-1, -1),
        OpeningName::Suigetsu => (-2, 0),
        OpeningName::Ryuusei => (-1, 0),
        OpeningName::Ungetsu => (-2, 1),
        OpeningName::Hogetsu => (-1, 1),
        OpeningName::Rangetsu => (0, 1),
        OpeningName::Gingetsu => (-2, 2),
        OpeningName::Myoujou => (-1, 2),
        OpeningName::Shagetsu => (0, 2),
        OpeningName::Meigetsu => (1, 2),
        OpeningName::Suisei => (2, 2),
    }
}

impl OpeningName {
    /// The position of this opening in [`ALL_OPENINGS`].
    pub fn index(self) -> (i: usize)
        ensures
            i == name_index(self),
            i < 26,
    {
        match self {
            OpeningName::Kansei => 0,
            OpeningName::Keigetsu => 1,
            OpeningName::Sosei => 2,
            OpeningName::Kagetsu => 3,
            OpeningName::Zangetsu => 4,
            OpeningName::Ugetsu => 5,
            OpeningName::Kinsei => 6,
            OpeningName::Shougetsu => 7,
            OpeningName::Kyuugetsu => 8,
            OpeningName::Shingetsu => 9,
            OpeningName::Zuisei => 10,
            OpeningName::Sangetsu => 11,
            OpeningName::Yuusei => 12,
            OpeningName::Chousei => 13,
            OpeningName::Kyougetsu => 14,
            OpeningName::Kousei => 15,
            OpeningName::Suigetsu => 16,
            OpeningName::Ryuusei => 17,
            OpeningName::Ungetsu => 18,
            OpeningName::Hogetsu => 19,
            OpeningName::Rangetsu => 20,
            OpeningName::Gingetsu => 21,
            OpeningName::Myoujou => 22,
            OpeningName::Shagetsu => 23,
            OpeningName::Meigetsu => 24,
            OpeningName::Suisei => 25,
        }
    }

    /// Whether this is a direct opening (stone 2 orthogonally adjacent).
    pub fn is_direct(self) -> (r: bool)
        ensures
            r == (name_index(self) < 13),
    {
        self.index() < 13
    }

    /// The romaji name, e.g. `"Kansei"`.
    pub fn romaji(self) -> (s: &'static str)
        ensures
            s@ == romaji_text(self),
    {
        match self {
            OpeningName::Kansei => "Kansei",
            OpeningName::Keigetsu => "Keigetsu",
            OpeningName::Sosei => "Sosei",
            OpeningName::Kagetsu => "Kagetsu",
            OpeningName::Zangetsu => "Zangetsu",
            OpeningName::Ugetsu => "Ugetsu",
            OpeningName::Kinsei => "Kinsei",
            OpeningName::Shougetsu => "Shougetsu",
            OpeningName::Kyuugetsu => "Kyuugetsu",
            OpeningName::Shingetsu => "Shingetsu",
            OpeningName::Zuisei => "Zuisei",
            OpeningName::Sangetsu => "Sangetsu",
            OpeningName::Yuusei => "Yuusei",
            OpeningName::Chousei => "Chousei",
            OpeningName::Kyougetsu => "Kyougetsu",
            OpeningName::Kousei => "Kousei",
            OpeningName::Suigetsu => "Suigetsu",
            OpeningName::Ryuusei => "Ryuusei",
            OpeningName::Ungetsu => "Ungetsu",
            OpeningName::Hogetsu => "Hogetsu",
            OpeningName::Rangetsu => "Rangetsu",
            OpeningName::Gingetsu => "Gingetsu",
            OpeningName::Myoujou => "Myoujou",
            OpeningName::Shagetsu => "Shagetsu",
            OpeningName::Meigetsu => "Meigetsu",
            OpeningName::Suisei => "Suisei",
        }
    }

    /// The Japanese (kanji) name.
    pub fn kanji(self) -> (s: &'static str)
        ensures
            s@ == kanji_text(self),
    {
        match self {
            OpeningName::Kansei => "\u{5bd2}\u{661f}",
            OpeningName::Keigetsu => "\u{6e13}\u{6708}",
            OpeningName::Sosei => "\u{758f}\u{661f}",
            OpeningName::Kagetsu => "\u{82b1}\u{6708}",
            OpeningName::Zangetsu => "\u{6b8b}\u{6708}",
            OpeningName::Ugetsu => "\u{96e8}\u{6708}",
            OpeningName::Kinsei => "\u{91d1}\u{661f}",
            OpeningName::Shougetsu => "\u{677e}\u{6708}",
            OpeningName::Kyuugetsu => "\u{4e18}\u{6708}",
            OpeningName::Shingetsu => "\u{65b0}\u{6708}",
            OpeningName::Zuisei => "\u{745e}\u{661f}",
            OpeningName::Sangetsu => "\u{5c71}\u{6708}",
            OpeningName::Yuusei => "\u{904a}\u{661f}",
            OpeningName::Chousei => "\u{9577}\u{661f}",
            OpeningName::Kyougetsu => "\u{5ce1}\u{6708}",
            OpeningName::Kousei => "\u{6052}\u{661f}",
            OpeningName::Suigetsu => "\u{6c34}\u{6708}",
            OpeningName::Ryuusei => "\u{6d41}\u{661f}",
            OpeningName::Ungetsu => "\u{96f2}\u{6708}",
            OpeningName::Hogetsu => "\u{6d66}\u{6708}",
            OpeningName::Rangetsu => "\u{5d50}\u{6708}",
            OpeningName::Gingetsu => "\u{9280}\u{6708}",
            OpeningName::Myoujou => "\u{660e}\u{661f}",
            OpeningName::Shagetsu => "\u{659c}\u{6708}",
            OpeningName::Meigetsu => "\u{540d}\u{6708}",
            OpeningName::Suisei => "\u{5f57}\u{661f}",
        }
    }

    /// The offset of stone 3 from the center.
    fn third_offset(self) -> (r: (i8, i8))
        ensures
            r.0 as int == stone3(self).0,
            r.1 as int == stone3(self).1,
    {
        match self {
            OpeningName::Kansei => (-2, 0),
            OpeningName::Keigetsu => (-1, 0),
            OpeningName::Sosei => (2, 0),
            OpeningName::Kagetsu => (-2, 1),
            OpeningName::Zangetsu => (-1, 1),
            OpeningName::Ugetsu => (0, 1),
            OpeningName::Kinsei => (1, 1),
            OpeningName::Shougetsu => (2, 1),
            OpeningName::Kyuugetsu => (-2, 2),
            OpeningName::Shingetsu => (-1, 2),
            OpeningName::Zuisei => (0, 2),
            OpeningName::Sangetsu => (1, 2),
            OpeningName::Yuusei => (2, 2),
            OpeningName::Chousei => (-2, -2),
            OpeningName::Kyougetsu => (-2, -1),
            OpeningName::Kousei => (-1, -1),
            OpeningName::Suigetsu => (-2, 0),
            OpeningName::Ryuusei => (-1, 0),
            OpeningName::Ungetsu => (-2, 1),
            OpeningName::Hogetsu => (-1, 1),
            OpeningName::Rangetsu => (0, 1),
            OpeningName::Gingetsu => (-2, 2),
            OpeningName::Myoujou => (-1, 2),
            OpeningName::Shagetsu => (0, 2),
            OpeningName::Meigetsu => (1, 2),
            OpeningName::Suisei => (2, 2),
        }
    }

    /// Offsets of the three opening stones relative to the board center, in
    /// move order (Black, White, Black).
    pub fn offsets(self) -> (r: [(i8, i8); 3])
        ensures
            r@.len() == 3,
            forall|k: int| 0 <= k < 3 ==> (#[trigger] r@[k]).0 as int == name_offset(self, k).0 && r@[k].1 as int
                == name_offset(self, k).1,
    {
        let third = self.third_offset();
        let r = if self.is_direct() {
            [(0i8, 0i8), (1i8, 0i8), third]
        } else {
            [(0i8, 0i8), (1i8, 1i8), third]
        };
        r
    }

    /// The three opening stones as absolute points on a board of `size`.
    pub fn placements(self, size: u8) -> (r: [Point; 3])
        requires
            fits(self, size as int),
        ensures
            r@.len() == 3,
            forall|k: int| 0 <= k < 3 ==> #[trigger] r@[k] == placement_point(self, size as int, k),
    {
        let c: i8 = (size / 2) as i8;
        let o = self.offsets();
        assert(o@[0] == o[0] && o@[1] == o[1] && o@[2] == o[2]);
        assert(name_offset(self, 0) == name_offset(self, 0) && name_offset(self, 1) == name_offset(self, 1)
            && name_offset(self, 2) == name_offset(self, 2));
        let p0 = shift_point(c, o[0]);
        let p1 = shift_point(c, o[1]);
        let p2 = shift_point(c, o[2]);
        [p0, p1, p2]
    }

    /// Identify which named opening `stones` (in move order: Black, White,
    /// Black) represent on a board of `size`, considering all 8 board
    /// symmetries. Returns `None` if they match no canonical opening.
    pub fn identify(stones: [Point; 3], size: u8) -> (r: Option<OpeningName>)
        ensures
            r == first_match(
                rel_offset(stones@[0], size as int),
                rel_offset(stones@[1], size as int),
                rel_offset(stones@[2], size as int),
                0,
            ),
    {
        let c: i16 = (size / 2) as i16;
        let w0 = relative(stones[0], c);
        let w1 = relative(stones[1], c);
        let w2 = relative(stones[2], c);
        let ghost a = rel_offset(stones@[0], size as int);
        let ghost b = rel_offset(stones@[1], size as int);
        let ghost d = rel_offset(stones@[2], size as int);
        let mut i: usize = 0;
        while i < 26
            invariant
                i <= 26,
                a == rel_offset(stones@[0], size as int),
                b == rel_offset(stones@[1], size as int),
                d == rel_offset(stones@[2], size as int),
                w0.0 as int == a.0 && w0.1 as int == a.1,
                w1.0 as int == b.0 && w1.1 as int == b.1,
                w2.0 as int == d.0 && w2.1 as int == d.1,
                first_match(a, b, d, 0) == first_match(a, b, d, i as int),
            decreases 26 - i,
        {
            let name = name_from_index(i);
            let base = name.offsets();
            let mut t: u8 = 0;
            while t < 8
                invariant
                    i < 26,
                    name == name_at(i as int),
                    base@.len() == 3,
                    forall|k: int| 0 <= k < 3 ==> (#[trigger] base@[k]).0 as int == name_offset(name, k).0
                        && base@[k].1 as int == name_offset(name, k).1,
                    a == rel_offset(stones@[0], size as int),
                b == rel_offset(stones@[1], size as int),
                d == rel_offset(stones@[2], size as int),
                w0.0 as int == a.0 && w0.1 as int == a.1,
                    w1.0 as int == b.0 && w1.1 as int == b.1,
                    w2.0 as int == d.0 && w2.1 as int == d.1,
                    t <= 8,
                    first_match(a, b, d, 0) == first_match(a, b, d, i as int),
                    forall|u: int| 0 <= u < t ==> !#[trigger] matches_under(name, a, b, d, u),
                decreases 8 - t,
            {
                let x0 = transform(base[0], t);
                let x1 = transform(base[1], t);
                let x2 = transform(base[2], t);
                if x0.0 == w0.0 && x0.1 == w0.1 && x1.0 == w1.0 && x1.1 == w1.1 && x2.0 == w2.0 && x2.1
                    == w2.1 {
                    assert(matches_under(name, a, b, d, t as int));
                    assert(matches_name(name, a, b, d));
                    return Some(name);
                }
                t = t + 1;
            }
            i = i + 1;
        }
        None
    }
}

/// The opening at position `i` of [`ALL_OPENINGS`].
fn name_from_index(i: usize) -> (n: OpeningName)
    requires
        i < 26,
    ensures
        n == name_at(i as int),
{
    if i == 0 {
        OpeningName::Kansei
    } else if i == 1 {
        OpeningName::Keigetsu
    } else if i == 2 {
        OpeningName::Sosei
    } else if i == 3 {
        OpeningName::Kagetsu
    } else if i == 4 {
        OpeningName::Zangetsu
    } else if i == 5 {
        OpeningName::Ugetsu
    } else if i == 6 {
        OpeningName::Kinsei
    } else if i == 7 {
        OpeningName::Shougetsu
    } else if i == 8 {
        OpeningName::Kyuugetsu
    } else if i == 9 {
        OpeningName::Shingetsu
    } else if i == 10 {
        OpeningName::Zuisei
    } else if i == 11 {
        OpeningName::Sangetsu
    } else if i == 12 {
        OpeningName::Yuusei
    } else if i == 13 {
        OpeningName::Chousei
    } else if i == 14 {
        OpeningName::Kyougetsu
    } else if i == 15 {
        OpeningName::Kousei
    } else if i == 16 {
        OpeningName::Suigetsu
    } else if i == 17 {
        OpeningName::Ryuusei
    } else if i == 18 {
        OpeningName::Ungetsu
    } else if i == 19 {
        OpeningName::Hogetsu
    } else if i == 20 {
        OpeningName::Rangetsu
    } else if i == 21 {
        OpeningName::Gingetsu
    } else if i == 22 {
        OpeningName::Myoujou
    } else if i == 23 {
        OpeningName::Shagetsu
    } else if i == 24 {
        OpeningName::Meigetsu
    } else {
        OpeningName::Suisei
    }
}

/// Offset `k` (0, 1 or 2) of an opening's stones from the center.
pub open spec fn name_offset(n: OpeningName, k: int) -> (int, int) {
    if k == 0 {
        (0, 0)
    } else if k == 1 {
        if name_index(n) < 13 {
            (1, 0)
        } else {
            (1, 1)
        }
    } else {
        stone3(n)
    }
}

/// `v` reduced into the `u8` range by wrapping, as an `i8` to `u8` cast does.
pub open spec fn wrap_u8(v: int) -> int {
    if v < 0 {
        v + 256
    } else {
        v
    }
}

/// `v` reduced into the `i8` range by wrapping, as an `i16` to `i8` cast does
/// for values in `-128..384`.
pub open spec fn wrap_i8(v: int) -> int {
    if v > 127 {
        v - 256
    } else {
        v
    }
}

/// Whether every stone of opening `n` lies within the `i8` coordinate range
/// on a board of `size`: the center plus each offset is at most 127.
pub open spec fn fits(n: OpeningName, size: int) -> bool {
    forall|k: int| 0 <= k < 3 ==> size / 2 + (#[trigger] name_offset(n, k)).0 <= 127 && size / 2
        + name_offset(n, k).1 <= 127
}

/// Stone `k` of an opening on a board of `size`.
pub open spec fn placement_point(n: OpeningName, size: int, k: int) -> Point {
    Point {
        x: wrap_u8(size / 2 + name_offset(n, k).0) as u8,
        y: wrap_u8(size / 2 + name_offset(n, k).1) as u8,
    }
}

/// The offset of `p` from the center of a board of `size`.
pub open spec fn rel_offset(p: Point, size: int) -> (int, int) {
    (wrap_i8(p.x - size / 2), wrap_i8(p.y - size / 2))
}

/// One of the 8 dihedral symmetries (rotations and reflections) of an offset.
pub open spec fn transform_spec(v: (int, int), t: int) -> (int, int) {
    let (x, y) = v;
    if t == 0 {
        (x, y)
    } else if t == 1 {
        (-x, y)
    } else if t == 2 {
        (x, -y)
    } else if t == 3 {
        (-x, -y)
    } else if t == 4 {
        (y, x)
    } else if t == 5 {
        (-y, x)
    } else if t == 6 {
        (y, -x)
    } else {
        (-y, -x)
    }
}

/// Whether symmetry `t` maps opening `n` onto the offsets `a`, `b`, `d`.
pub open spec fn matches_under(n: OpeningName, a: (int, int), b: (int, int), d: (int, int), t: int) -> bool {
    &&& transform_spec(name_offset(n, 0), t) == a
    &&& transform_spec(name_offset(n, 1), t) == b
    &&& transform_spec(name_offset(n, 2), t) == d
}

/// Whether some symmetry maps opening `n` onto the offsets `a`, `b`, `d`.
pub open spec fn matches_name(n: OpeningName, a: (int, int), b: (int, int), d: (int, int)) -> bool {
    exists|t: int| 0 <= t < 8 && #[trigger] matches_under(n, a, b, d, t)
}

/// The first opening from position `i` of [`ALL_OPENINGS`] on that matches
/// the offsets `a`, `b`, `d`.
pub open spec fn first_match(a: (int, int), b: (int, int), d: (int, int), i: int) -> Option<OpeningName>
    decreases 26 - i,
{
    if i >= 26 {
        None
    } else if matches_name(name_at(i), a, b, d) {
        Some(name_at(i))
    } else {
        first_match(a, b, d, i + 1)
    }
}

/// The center plus an offset, wrapped into the `u8` range.
fn shift_point(c: i8, o: (i8, i8)) -> (p: Point)
    requires
        0 <= c,
        c + o.0 <= 127,
        c + o.1 <= 127,
        -2 <= o.0 <= 2,
        -2 <= o.1 <= 2,
    ensures
        p == (Point { x: wrap_u8(c + o.0) as u8, y: wrap_u8(c + o.1) as u8 }),
{
    let vx: i8 = c + o.0;
    let vy: i8 = c + o.1;
    let x: u8 = if vx < 0 {
        (vx as i16 + 256) as u8
    } else {
        vx as u8
    };
    let y: u8 = if vy < 0 {
        (vy as i16 + 256) as u8
    } else {
        vy as u8
    };
    Point::new(x, y)
}

/// The offset of `p` from center coordinate `c`, wrapped into the `i8` range.
fn relative(p: Point, c: i16) -> (r: (i8, i8))
    requires
        0 <= c <= 127,
    ensures
        r.0 as int == wrap_i8(p.x - c),
        r.1 as int == wrap_i8(p.y - c),
{
    let dx: i16 = p.x as i16 - c;
    let dy: i16 = p.y as i16 - c;
    let x: i8 = if dx > 127 {
        (dx - 256) as i8
    } else {
        dx as i8
    };
    let y: i8 = if dy > 127 {
        (dy - 256) as i8
    } else {
        dy as i8
    };
    (x, y)
}

/// Apply one of the 8 dihedral symmetries (rotations + reflections) to a
/// small offset.
fn transform(v: (i8, i8), t: u8) -> (r: (i8, i8))
    requires
        -2 <= v.0 <= 2,
        -2 <= v.1 <= 2,
    ensures
        r.0 as int == transform_spec((v.0 as int, v.1 as int), t as int).0,
        r.1 as int == transform_spec((v.0 as int, v.1 as int), t as int).1,
{
    let (x, y) = v;
    match t {
        0 => (x, y),
        1 => (-x, y),
        2 => (x, -y),
        3 => (-x, -y),
        4 => (y, x),
        5 => (-y, x),
        6 => (y, -x),
        _ => (-y, -x),
    }
}

/// Openings that match nothing from position `j` up to `i` are skipped.
proof fn lemma_first_match_skip(a: (int, int), b: (int, int), d: (int, int), j: int, i: int)
    requires
        0 <= j <= i <= 26,
        forall|k: int| j <= k < i ==> !#[trigger] matches_name(name_at(k), a, b, d),
    ensures
        first_match(a, b, d, j) == first_match(a, b, d, i),
    decreases i - j,
{
    if j < i {
        assert(!matches_name(name_at(j), a, b, d));
        lemma_first_match_skip(a, b, d, j + 1, i);
    }
}

/// No symmetry maps an earlier opening of the catalog onto a later one.
proof fn lemma_catalog_distinct(j: int, i: int, t: int)
    requires
        0 <= j < i < 26,
        0 <= t < 8,
    ensures
        !matches_under(
            name_at(j),
            name_offset(name_at(i), 0),
            name_offset(name_at(i), 1),
            name_offset(name_at(i), 2),
            t,
        ),
{
}

/// Each opening's stones, as offsets from the center, identify that opening.
proof fn lemma_identify_offsets(n: OpeningName)
    ensures
        first_match(name_offset(n, 0), name_offset(n, 1), name_offset(n, 2), 0) == Some(n),
{
    let i = name_index(n);
    assert(name_at(i) == n);
    let a = name_offset(n, 0);
    let b = name_offset(n, 1);
    let d = name_offset(n, 2);
    assert forall|k: int| 0 <= k < i implies !#[trigger] matches_name(name_at(k), a, b, d) by {
        assert forall|t: int| 0 <= t < 8 implies !#[trigger] matches_under(name_at(k), a, b, d, t) by {
            lemma_catalog_distinct(k, i, t);
        }
    }
    lemma_first_match_skip(a, b, d, 0, i);
    assert(matches_under(n, a, b, d, 0));
}

/// Every opening round-trips through its placement: identifying the stones
/// that [`OpeningName::placements`] lays out on a board gives the opening back.
pub proof fn lemma_identify_placements(n: OpeningName, size: int)
    requires
        0 <= size <= 255,
        fits(n, size),
    ensures
        first_match(
            rel_offset(placement_point(n, size, 0), size),
            rel_offset(placement_point(n, size, 1), size),
            rel_offset(placement_point(n, size, 2), size),
            0,
        ) == Some(n),
{
    assert forall|k: int| 0 <= k < 3 implies #[trigger] rel_offset(placement_point(n, size, k), size) == name_offset(n, k) by {
        lemma_offset_small(n, k);
    }
    lemma_identify_offsets(n);
}

/// Every offset of the catalog lies within two lines of the center.
proof fn lemma_offset_small(n: OpeningName, k: int)
    ensures
        -2 <= name_offset(n, k).0 <= 2,
        -2 <= name_offset(n, k).1 <= 2,
{
}

/// The symmetry that applies `s` and then `t`. A symmetry `t` is read as
/// three bits: swap the coordinates (`t / 4`), then negate the second
/// (`t / 2 % 2`) and the first (`t % 2`).
pub open spec fn compose_sym(s: int, t: int) -> int {
    let a1 = s % 2;
    let b1 = (s / 2) % 2;
    let a2 = t % 2;
    let b2 = (t / 2) % 2;
    let sw = (s / 4 + t / 4) % 2;
    if t / 4 == 0 {
        4 * sw + 2 * ((b1 + b2) % 2) + (a1 + a2) % 2
    } else {
        4 * sw + 2 * ((a1 + b2) % 2) + (b1 + a2) % 2
    }
}

/// The symmetry that undoes `t`.
pub open spec fn inverse_sym(t: int) -> int {
    if t == 5 {
        6
    } else if t == 6 {
        5
    } else {
        t
    }
}

/// Applying two symmetries in turn is applying their composition.
proof fn lemma_compose_sym(v: (int, int), s: int, t: int)
    requires
        0 <= s < 8,
        0 <= t < 8,
    ensures
        0 <= compose_sym(s, t) < 8,
        transform_spec(transform_spec(v, s), t) == transform_spec(v, compose_sym(s, t)),
{
    assert(s == 0 || s == 1 || s == 2 || s == 3 || s == 4 || s == 5 || s == 6 || s == 7);
    assert(t == 0 || t == 1 || t == 2 || t == 3 || t == 4 || t == 5 || t == 6 || t == 7);
}

/// Identifying the stones of an opening seen under any of the eight board
/// symmetries, as offsets from the center, gives that opening.
pub proof fn lemma_identify_transformed(n: OpeningName, t: int)
    requires
        0 <= t < 8,
    ensures
        first_match(
            transform_spec(name_offset(n, 0), t),
            transform_spec(name_offset(n, 1), t),
            transform_spec(name_offset(n, 2), t),
            0,
        ) == Some(n),
{
    let i = name_index(n);
    assert(name_at(i) == n);
    let a = transform_spec(name_offset(n, 0), t);
    let b = transform_spec(name_offset(n, 1), t);
    let d = transform_spec(name_offset(n, 2), t);
    let inv = inverse_sym(t);
    assert forall|k: int| 0 <= k < i implies !#[trigger] matches_name(name_at(k), a, b, d) by {
        assert forall|u: int| 0 <= u < 8 implies !#[trigger] matches_under(name_at(k), a, b, d, u) by {
            if matches_under(name_at(k), a, b, d, u) {
                let w = compose_sym(u, inv);
                let m = name_at(k);
                lemma_compose_sym(name_offset(m, 0), u, inv);
                lemma_compose_sym(name_offset(m, 1), u, inv);
                lemma_compose_sym(name_offset(m, 2), u, inv);
                lemma_compose_sym(name_offset(n, 0), t, inv);
                lemma_compose_sym(name_offset(n, 1), t, inv);
                lemma_compose_sym(name_offset(n, 2), t, inv);
                assert(compose_sym(t, inv) == 0);
                lemma_catalog_distinct(k, i, w);
            }
        }
    }
    lemma_first_match_skip(a, b, d, 0, i);
    assert(matches_under(n, a, b, d, t));
}

/// Stone `k` of opening `n` on a board of `size`, seen under symmetry `t` of
/// the board about its center.
pub open spec fn symmetric_point(n: OpeningName, size: int, t: int, k: int) -> Point {
    Point {
        x: (size / 2 + transform_spec(name_offset(n, k), t).0) as u8,
        y: (size / 2 + transform_spec(name_offset(n, k), t).1) as u8,
    }
}

/// [`OpeningName::identify`] recognizes an opening under all eight
/// symmetries of the board: its stones rotated or reflected about the
/// center identify the same opening.
pub proof fn lemma_identify_symmetric(n: OpeningName, size: int, t: int)
    requires
        4 <= size <= 255,
        0 <= t < 8,
    ensures
        first_match(
            rel_offset(symmetric_point(n, size, t, 0), size),
            rel_offset(symmetric_point(n, size, t, 1), size),
            rel_offset(symmetric_point(n, size, t, 2), size),
            0,
        ) == Some(n),
{
    assert forall|k: int| 0 <= k < 3 implies #[trigger] rel_offset(symmetric_point(n, size, t, k), size)
        == transform_spec(name_offset(n, k), t) by {
        lemma_offset_small(n, k);
    }
    lemma_identify_transformed(n, t);
}


/// The Chebyshev distance between two points: the larger of the column and
/// row distances.
pub open spec fn chebyshev(p: Point, q: Point) -> int {
    let dx = if p.x >= q.x { p.x - q.x } else { q.x - p.x };
    let dy = if p.y >= q.y { p.y - q.y } else { q.y - p.y };
    if dx >= dy {
        dx
    } else {
        dy
    }
}

/// What each placement restriction admits: `MinDistance(d)` admits exactly
/// the points at Chebyshev distance at least `d` from the center (so every
/// point whose column and row distances are both below `d` is refused),
/// `Center` admits only the center, and `Anywhere` admits every point.
pub proof fn lemma_constraint_meaning(c: Constraint, p: Point, center: Point)
    ensures
        c matches Constraint::MinDistance(d) ==> (constraint_allows(c, p, center) <==> chebyshev(p, center) >= d),
        c matches Constraint::MinDistance(d) && p.x - center.x < d && center.x - p.x < d && p.y - center.y < d
            && center.y - p.y < d ==> !constraint_allows(c, p, center),
        c is Center ==> (constraint_allows(c, p, center) <==> p.x == center.x && p.y == center.y),
        c is Anywhere ==> constraint_allows(c, p, center),
{
}

} // verus!
