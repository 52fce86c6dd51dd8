//! The pattern catalog: named multi-cell templates anchored at an origin.
//!
//! A pattern is a fixed list of coordinates relative to an origin; building
//! one materializes the absolute coordinates `origin + offset`, and placing
//! it on a grid later wraps each coordinate modulo the grid's dimensions.

use vstd::prelude::*;

use crate::cell::Coordinates;

verus! {

/// The coordinate `(row, col)`; the offsets below keep every value small
/// enough that the cast is exact.
pub open spec fn coord(row: int, col: int) -> Coordinates {
    Coordinates { row: row as usize, col: col as usize }
}

/// Patterns that travel across the grid as generations pass.
pub enum Spaceship {
    LightweightSpaceship(Vec<Coordinates>),
    Glider(Vec<Coordinates>),
}

/// The live-cell coordinates a spaceship pattern consists of.
pub open spec fn spaceship_points(p: Spaceship) -> Seq<Coordinates> {
    match p {
        Spaceship::LightweightSpaceship(v) => v@,
        Spaceship::Glider(v) => v@,
    }
}

impl Spaceship {
    /// The 5-cell glider, anchored at `origin`.
    pub fn glider(origin: Coordinates) -> (r: Spaceship)
        requires
            origin.row + 2 <= usize::MAX,
            origin.col + 2 <= usize::MAX,
        ensures
            r is Glider,
            spaceship_points(r) == seq![
                coord(origin.row as int, origin.col as int),
                coord(origin.row + 1, origin.col as int),
                coord(origin.row + 1, origin.col + 2),
                coord(origin.row + 2, origin.col as int),
                coord(origin.row + 2, origin.col + 1),
            ],
    {
        let mut points = Vec::<Coordinates>::new();

        let cell_1 = Coordinates::new(origin.row, origin.col);
        let cell_2 = Coordinates::new(origin.row + 1, origin.col);
        let cell_3 = Coordinates::new(origin.row + 1, origin.col + 2);
        let cell_4 = Coordinates::new(origin.row + 2, origin.col);
        let cell_5 = Coordinates::new(origin.row + 2, origin.col + 1);

        points.push(cell_1);
        points.push(cell_2);
        points.push(cell_3);
        points.push(cell_4);
        points.push(cell_5);

        proof {
            assert(points@ =~= seq![
                coord(origin.row as int, origin.col as int),
                coord(origin.row + 1, origin.col as int),
                coord(origin.row + 1, origin.col + 2),
                coord(origin.row + 2, origin.col as int),
                coord(origin.row + 2, origin.col + 1),
            ]);
        }
        Spaceship::Glider(points)
    }

    /// The 8-cell lightweight spaceship, anchored at `origin`.
    pub fn lightweight_spaceship(origin: Coordinates) -> (r: Spaceship)
        requires
            origin.row + 3 <= usize::MAX,
            origin.col + 4 <= usize::MAX,
        ensures
            r is LightweightSpaceship,
            spaceship_points(r) == seq![
                coord(origin.row as int, origin.col + 1),
                coord(origin.row as int, origin.col + 2),
                coord(origin.row as int, origin.col + 4),
                coord(origin.row + 1, origin.col as int),
                coord(origin.row + 1, origin.col + 4),
                coord(origin.row + 2, origin.col + 4),
                coord(origin.row + 3, origin.col as int),
                coord(origin.row + 3, origin.col + 3),
            ],
    {
        let mut points = Vec::<Coordinates>::new();

        let cell_1 = Coordinates::new(origin.row, origin.col + 1);
        let cell_2 = Coordinates::new(origin.row, origin.col + 2);
        let cell_3 = Coordinates::new(origin.row, origin.col + 4);
        let cell_4 = Coordinates::new(origin.row + 1, origin.col);
        let cell_5 = Coordinates::new(origin.row + 1, origin.col + 4);
        let cell_6 = Coordinates::new(origin.row + 2, origin.col + 4);
        let cell_7 = Coordinates::new(origin.row + 3, origin.col);
        let cell_8 = Coordinates::new(origin.row + 3, origin.col + 3);

        points.push(cell_1);
        points.push(cell_2);
        points.push(cell_3);
        points.push(cell_4);
        points.push(cell_5);
        points.push(cell_6);
        points.push(cell_7);
        points.push(cell_8);

        proof {
            assert(points@ =~= seq![
                coord(origin.row as int, origin.col + 1),
                coord(origin.row as int, origin.col + 2),
                coord(origin.row as int, origin.col + 4),
                coord(origin.row + 1, origin.col as int),
                coord(origin.row + 1, origin.col + 4),
                coord(origin.row + 2, origin.col + 4),
                coord(origin.row + 3, origin.col as int),
                coord(origin.row + 3, origin.col + 3),
            ]);
        }
        Spaceship::LightweightSpaceship(points)
    }

    /// Hands out the pattern's absolute coordinates.
    pub fn get_points(pattern: Spaceship) -> (points: Vec<Coordinates>)
        ensures
            points@ == spaceship_points(pattern),
    {
        match pattern {
            Spaceship::Glider(points) => points,
            Spaceship::LightweightSpaceship(points) => points,
        }
    }
}

/// Patterns that are fixed points of the transition rule.
pub enum StillLife {
    FifteenBentPaperclip(Vec<Coordinates>),
}

/// The live-cell coordinates a still-life pattern consists of.
pub open spec fn still_life_points(p: StillLife) -> Seq<Coordinates> {
    match p {
        StillLife::FifteenBentPaperclip(v) => v@,
    }
}

impl StillLife {
    /// The 15-cell bent-paperclip still life, anchored at `origin`.
    pub fn fifteen_bent_paperclip(origin: Coordinates) -> (r: StillLife)
        requires
            origin.row + 4 <= usize::MAX,
            origin.col + 6 <= usize::MAX,
        ensures
            r is FifteenBentPaperclip,
            still_life_points(r) == seq![
                coord(origin.row as int, origin.col + 2),
                coord(origin.row as int, origin.col + 3),
                coord(origin.row + 1, origin.col + 1),
                coord(origin.row + 1, origin.col + 3),
                coord(origin.row + 1, origin.col + 4),
                coord(origin.row + 1, origin.col + 5),
                coord(origin.row + 2, origin.col as int),
                coord(origin.row + 2, origin.col + 6),
                coord(origin.row + 3, origin.col + 1),
                coord(origin.row + 3, origin.col + 2),
                coord(origin.row + 3, origin.col + 3),
                coord(origin.row + 3, origin.col + 4),
                coord(origin.row + 3, origin.col + 6),
                coord(origin.row + 4, origin.col + 3),
                coord(origin.row + 4, origin.col + 5),
            ],
    {
        let mut coordinates = Vec::<Coordinates>::new();

        let cell_1 = Coordinates::new(origin.row, origin.col + 2);
        let cell_2 = Coordinates::new(origin.row, origin.col + 3);

        let cell_3 = Coordinates::new(origin.row + 1, origin.col + 1);
        let cell_4 = Coordinates::new(origin.row + 1, origin.col + 3);
        let cell_5 = Coordinates::new(origin.row + 1, origin.col + 4);
        let cell_6 = Coordinates::new(origin.row + 1, origin.col + 5);

        let cell_7 = Coordinates::new(origin.row + 2, origin.col);
        let cell_8 = Coordinates::new(origin.row + 2, origin.col + 6);

        let cell_9 = Coordinates::new(origin.row + 3, origin.col + 1);
        let cell_10 = Coordinates::new(origin.row + 3, origin.col + 2);
        let cell_11 = Coordinates::new(origin.row + 3, origin.col + 3);
        let cell_12 = Coordinates::new(origin.row + 3, origin.col + 4);
        let cell_13 = Coordinates::new(origin.row + 3, origin.col + 6);

        let cell_14 = Coordinates::new(origin.row + 4, origin.col + 3);
        let cell_15 = Coordinates::new(origin.row + 4, origin.col + 5);

        coordinates.push(cell_1);
        coordinates.push(cell_2);

        coordinates.push(cell_3);
        coordinates.push(cell_4);
        coordinates.push(cell_5);
        coordinates.push(cell_6);

        coordinates.push(cell_7);
        coordinates.push(cell_8);

        coordinates.push(cell_9);
        coordinates.push(cell_10);
        coordinates.push(cell_11);
        coordinates.push(cell_12);
        coordinates.push(cell_13);

        coordinates.push(cell_14);
        coordinates.push(cell_15);

        proof {
            assert(coordinates@ =~= seq![
                coord(origin.row as int, origin.col + 2),
                coord(origin.row as int, origin.col + 3),
                coord(origin.row + 1, origin.col + 1),
                coord(origin.row + 1, origin.col + 3),
                coord(origin.row + 1, origin.col + 4),
                coord(origin.row + 1, origin.col + 5),
                coord(origin.row + 2, origin.col as int),
                coord(origin.row + 2, origin.col + 6),
                coord(origin.row + 3, origin.col + 1),
                coord(origin.row + 3, origin.col + 2),
                coord(origin.row + 3, origin.col + 3),
                coord(origin.row + 3, origin.col + 4),
                coord(origin.row + 3, origin.col + 6),
                coord(origin.row + 4, origin.col + 3),
                coord(origin.row + 4, origin.col + 5),
            ]);
        }
        StillLife::FifteenBentPaperclip(coordinates)
    }

    /// Hands out the pattern's absolute coordinates.
    pub fn get_points(pattern: StillLife) -> (points: Vec<Coordinates>)
        ensures
            points@ == still_life_points(pattern),
    {
        match pattern {
            StillLife::FifteenBentPaperclip(points) => points,
        }
    }
}

} // verus!
