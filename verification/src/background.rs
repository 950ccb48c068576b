//! The tiled background: a grid of tiles that is rebuilt when the window
//! changes its size, and whose tiles wrap around as the camera moves.

use vstd::prelude::*;

use crate::state::MainState;

verus! {

/// The background's systems.
pub struct BackgroundPlugin;

impl BackgroundPlugin {
    /// The background is built and moved while the game is played.
    pub fn runs(&self, state: MainState) -> (active: bool)
        ensures
            active == (state == MainState::Playing),
    {
        state == MainState::Playing
    }
}

/// Place of a tile in the grid, counted in tiles.
#[derive(Debug, Clone, Copy, PartialEq, Eq, Structural)]
pub struct Tile {
    pub x: i32,
    pub y: i32,
}

/// Number of tiles of the grid in each direction.
#[derive(Debug, Clone, Copy, PartialEq, Eq, Structural)]
pub struct CurrentSize {
    pub x: i32,
    pub y: i32,
}

impl Default for CurrentSize {
    /// No grid has been built.
    fn default() -> (size: Self)
        ensures
            size == (CurrentSize { x: 0, y: 0 }),
    {
        CurrentSize { x: 0, y: 0 }
    }
}

/// Where a tile lies, along one axis, relative to the band around the
/// camera that the grid covers.
#[derive(Debug, Clone, Copy, PartialEq, Eq, Structural)]
pub enum Drift {
    /// Below the band: the camera has moved on and left the tile behind.
    Behind,
    /// Inside the band.
    Inside,
    /// Above the band.
    Ahead,
}

impl Drift {
    /// By how many grids a tile with this drift moves: one back where it is
    /// ahead, one forward where it is behind.
    pub open spec fn shift(self) -> int {
        match self {
            Drift::Behind => 1,
            Drift::Inside => 0,
            Drift::Ahead => -1,
        }
    }

    /// Where a tile at `at` with this drift comes to lie in a grid that is
    /// `amount` tiles wide.
    pub open spec fn wrapped(self, at: int, amount: int) -> int {
        match self {
            Drift::Behind => at + amount,
            Drift::Inside => at,
            Drift::Ahead => at - amount,
        }
    }
}

/// The tiles of a grid of `x_amount` by `y_amount` tiles, column by column.
pub open spec fn grid(x_amount: int, y_amount: int) -> Seq<Tile>
    recommends
        0 <= x_amount,
        0 <= y_amount,
{
    Seq::new(
        (x_amount * y_amount) as nat,
        |i: int| Tile { x: (i / y_amount) as i32, y: (i % y_amount) as i32 },
    )
}

/// Rebuilds the grid where the number of tiles has changed: records the new
/// size and returns the tiles to spawn, column by column. Where the size is
/// the one recorded, nothing is to be done.
pub fn spawn_background(size: &mut CurrentSize, x_amount: i32, y_amount: i32) -> (tiles: Option<
    Vec<Tile>,
>)
    ensures
        match tiles {
            None => x_amount == old(size).x && y_amount == old(size).y && *final(size) == *old(
                size,
            ),
            Some(tiles) => {
                &&& !(x_amount == old(size).x && y_amount == old(size).y)
                &&& *final(size) == (CurrentSize { x: x_amount, y: y_amount })
                &&& tiles@ == if x_amount > 0 && y_amount > 0 {
                    grid(x_amount as int, y_amount as int)
                } else {
                    Seq::empty()
                }
            },
        },
{
    if x_amount == size.x && y_amount == size.y {
        return None;
    }
    size.x = x_amount;
    size.y = y_amount;
    let mut tiles: Vec<Tile> = Vec::new();
    if x_amount <= 0 || y_amount <= 0 {
        return Some(tiles);
    }
    let mut x_index: i32 = 0;
    while x_index < x_amount
        invariant
            0 <= x_index <= x_amount,
            0 < y_amount,
            tiles.len() == x_index * y_amount,
            forall|i: int|
                0 <= i < tiles.len() ==> tiles[i] == (Tile {
                    x: (i / (y_amount as int)) as i32,
                    y: (i % (y_amount as int)) as i32,
                }),
        decreases x_amount - x_index,
    {
        let mut y_index: i32 = 0;
        while y_index < y_amount
            invariant
                0 <= x_index < x_amount,
                0 <= y_index <= y_amount,
                tiles.len() == x_index * y_amount + y_index,
                forall|i: int|
                    0 <= i < tiles.len() ==> tiles[i] == (Tile {
                        x: (i / (y_amount as int)) as i32,
                        y: (i % (y_amount as int)) as i32,
                    }),
            decreases y_amount - y_index,
        {
            proof {
                let at = x_index * y_amount + y_index;
                vstd::arithmetic::div_mod::lemma_fundamental_div_mod_converse(
                    at,
                    y_amount as int,
                    x_index as int,
                    y_index as int,
                );
            }
            tiles.push(Tile { x: x_index, y: y_index });
            y_index += 1;
        }
        assert(x_index * y_amount + y_amount == (x_index + 1) * y_amount) by (nonlinear_arith);
        x_index += 1;
    }
    assert(tiles@ =~= grid(x_amount as int, y_amount as int));
    Some(tiles)
}

/// Wraps a tile that has left the band around the camera to the other side
/// of the grid. Returns by how many grids the tile has moved along each
/// axis: its picture moves by as many grid widths and heights.
pub fn move_background(tile: &mut Tile, size: &CurrentSize, across: Drift, along: Drift) -> (moved:
    (i32, i32))
    requires
        i32::MIN <= across.wrapped(old(tile).x as int, size.x as int) <= i32::MAX,
        i32::MIN <= along.wrapped(old(tile).y as int, size.y as int) <= i32::MAX,
    ensures
        moved.0 == across.shift(),
        moved.1 == along.shift(),
        final(tile).x == across.wrapped(old(tile).x as int, size.x as int),
        final(tile).y == along.wrapped(old(tile).y as int, size.y as int),
{
    let by_x: i32 = match across {
        Drift::Ahead => {
            tile.x = tile.x - size.x;
            -1
        },
        Drift::Behind => {
            tile.x = tile.x + size.x;
            1
        },
        Drift::Inside => 0,
    };
    let by_y: i32 = match along {
        Drift::Ahead => {
            tile.y = tile.y - size.y;
            -1
        },
        Drift::Behind => {
            tile.y = tile.y + size.y;
            1
        },
        Drift::Inside => 0,
    };
    (by_x, by_y)
}

/// Whether `move_background` can wrap the tile without leaving the range of
/// its coordinates.
pub fn can_move(tile: &Tile, size: &CurrentSize, across: Drift, along: Drift) -> (fits: bool)
    ensures
        fits == (i32::MIN <= across.wrapped(tile.x as int, size.x as int) <= i32::MAX && i32::MIN
            <= along.wrapped(tile.y as int, size.y as int) <= i32::MAX),
{
    let x_fits = match across {
        Drift::Ahead => tile.x.checked_sub(size.x).is_some(),
        Drift::Behind => tile.x.checked_add(size.x).is_some(),
        Drift::Inside => true,
    };
    let y_fits = match along {
        Drift::Ahead => tile.y.checked_sub(size.y).is_some(),
        Drift::Behind => tile.y.checked_add(size.y).is_some(),
        Drift::Inside => true,
    };
    x_fits && y_fits
}

} // verus!
