//! Pieces on the board: how they fall, settle and appear.
//!
//! Positions are counted in half cells: a piece falls half a cell per tick,
//! so every position it can take is a multiple of one half, and counting in
//! halves keeps every comparison exact.
use vstd::prelude::*;

use crate::shapes::{get_random_tetris_shape, shape_cells, TetrisShapes};

verus! {

/// Number of columns on the board.
pub const GRID_WIDTH: u32 = 20;

/// Number of rows on the board.
pub const GRID_HEIGHT: u32 = 24;

/// A piece on the board.
#[derive(Clone, Copy, PartialEq, Eq, Structural, Debug)]
pub struct GamePiece {
    /// The player whose piece this is.
    pub owner: u128,
    pub shape: TetrisShapes,
    /// Twice the column of the piece's origin.
    pub x_halves: u32,
    /// Twice the row of the piece's origin; rows grow downwards.
    pub y_halves: u32,
    /// Whether the piece has come to rest.
    pub is_placed: bool,
}

/// Twice the column of cell `k` of `piece`.
pub open spec fn cell_x(piece: GamePiece, k: int) -> int {
    piece.x_halves + 2 * shape_cells(piece.shape)[k].0
}

/// Twice the row of cell `k` of `piece`.
pub open spec fn cell_y(piece: GamePiece, k: int) -> int {
    piece.y_halves + 2 * shape_cells(piece.shape)[k].1
}

/// Whether `piece` covers the point whose doubled coordinates are `(x, y)`.
pub open spec fn occupies(piece: GamePiece, x: int, y: int) -> bool {
    exists|m: int| 0 <= m < 4 && #[trigger] cell_x(piece, m) == x && cell_y(piece, m) == y
}

/// Whether some placed piece of `pieces` covers `(x, y)`, in doubled coordinates.
pub open spec fn occupied_by_placed(pieces: Seq<GamePiece>, x: int, y: int) -> bool {
    exists|j: int| 0 <= j < pieces.len() && #[trigger] pieces[j].is_placed && occupies(pieces[j], x, y)
}

/// Whether cell `k` of `piece`, moved one whole row down, would reach the
/// floor or a placed piece of `pieces`.
pub open spec fn cell_blocked(piece: GamePiece, k: int, pieces: Seq<GamePiece>) -> bool {
    ||| cell_y(piece, k) + 2 >= 2 * GRID_HEIGHT
    ||| occupied_by_placed(pieces, cell_x(piece, k), cell_y(piece, k) + 2)
}

/// Whether `piece` cannot move down: one of its cells, one row lower, would
/// reach the floor or a placed piece of `pieces`.
pub open spec fn blocked(piece: GamePiece, pieces: Seq<GamePiece>) -> bool {
    exists|k: int| 0 <= k < 4 && #[trigger] cell_blocked(piece, k, pieces)
}

/// One tick for one piece: it falls half a cell, or, when it is blocked, it
/// stays where it is and is marked placed.
pub open spec fn fall_step(piece: GamePiece, pieces: Seq<GamePiece>) -> GamePiece {
    if blocked(piece, pieces) {
        GamePiece { is_placed: true, ..piece }
    } else {
        GamePiece { y_halves: (piece.y_halves + 1) as u32, ..piece }
    }
}

/// One tick for the board: every piece takes its step against the board as
/// it was before the tick.
pub open spec fn gravity(pieces: Seq<GamePiece>) -> Seq<GamePiece> {
    Seq::new(pieces.len(), |i: int| fall_step(pieces[i], pieces))
}

/// One tick for the board when only the floor stops pieces.
pub open spec fn gravity_floor_only(pieces: Seq<GamePiece>) -> Seq<GamePiece> {
    Seq::new(pieces.len(), |i: int| fall_step(pieces[i], Seq::<GamePiece>::empty()))
}

/// Whether `owner` has a piece that is still falling.
pub open spec fn has_active_piece(pieces: Seq<GamePiece>, owner: u128) -> bool {
    exists|i: int| 0 <= i < pieces.len() && #[trigger] pieces[i].owner == owner && !pieces[i].is_placed
}

/// Twice the column at which the player at position `index` of the player
/// list gets new pieces: the left edge for even positions, the middle of the
/// board for odd ones.
pub open spec fn spawn_x_halves(index: int) -> u32 {
    if index % 2 != 0 {
        (2 * (GRID_WIDTH / 2)) as u32
    } else {
        0
    }
}

/// The piece that the player at position `index` of the player list gets.
pub open spec fn new_piece(owner: u128, shape: TetrisShapes, index: int) -> GamePiece {
    GamePiece { owner, shape, x_halves: spawn_x_halves(index), y_halves: 0, is_placed: false }
}

/// The board after the first `n` players of `players` have each received a
/// new piece of the shape drawn for them, unless they already had a falling
/// piece at their turn.
pub open spec fn spawn_prefix(
    pieces: Seq<GamePiece>,
    players: Seq<u128>,
    shapes: Seq<TetrisShapes>,
    n: nat,
) -> Seq<GamePiece>
    decreases n,
{
    if n == 0 {
        pieces
    } else {
        let before = spawn_prefix(pieces, players, shapes, (n - 1) as nat);
        let i = n - 1;
        if has_active_piece(before, players[i]) {
            before
        } else {
            before.push(new_piece(players[i], shapes[i], i))
        }
    }
}

/// The board after every player of `players` has had its turn to receive a
/// new piece.
pub open spec fn spawn_all(
    pieces: Seq<GamePiece>,
    players: Seq<u128>,
    shapes: Seq<TetrisShapes>,
) -> Seq<GamePiece> {
    spawn_prefix(pieces, players, shapes, players.len())
}

/// No player has two falling pieces.
pub open spec fn one_active_piece_per_player(pieces: Seq<GamePiece>) -> bool {
    forall|i: int, j: int|
        0 <= i < j < pieces.len() && #[trigger] pieces[i].owner == #[trigger] pieces[j].owner
            ==> pieces[i].is_placed || pieces[j].is_placed
}

/// Every cell of the piece lies above the floor.
pub open spec fn above_floor(piece: GamePiece) -> bool {
    forall|k: int| 0 <= k < 4 ==> #[trigger] cell_y(piece, k) < 2 * GRID_HEIGHT
}

/// Every cell of the piece lies on the board: within its columns, and on a
/// row from the top row down to the bottom row.
pub open spec fn inside_board(piece: GamePiece) -> bool {
    forall|k: int|
        0 <= k < 4 ==> {
            &&& 0 <= #[trigger] cell_x(piece, k) < 2 * GRID_WIDTH
            &&& 0 <= cell_y(piece, k) <= 2 * (GRID_HEIGHT - 1)
        }
}

/// Every piece of the board lies on the board.
pub open spec fn all_inside_board(pieces: Seq<GamePiece>) -> bool {
    forall|i: int| 0 <= i < pieces.len() ==> inside_board(#[trigger] pieces[i])
}

/// One tick for the board: pieces are stopped by the floor alone when
/// `floor_only`, else by the floor and the placed pieces.
pub open spec fn tick_gravity(pieces: Seq<GamePiece>, floor_only: bool) -> Seq<GamePiece> {
    if floor_only {
        gravity_floor_only(pieces)
    } else {
        gravity(pieces)
    }
}

/// The board after the first `n` ticks of a live match that starts from
/// `pieces`: at tick `t` every piece takes its step (see `tick_gravity`),
/// then the players `rounds[t]` get new pieces of the shapes `shapes[t]`.
pub open spec fn live_run(
    pieces: Seq<GamePiece>,
    rounds: Seq<Seq<u128>>,
    shapes: Seq<Seq<TetrisShapes>>,
    floor_only: bool,
    n: nat,
) -> Seq<GamePiece>
    decreases n,
{
    if n == 0 {
        pieces
    } else {
        spawn_all(
            tick_gravity(live_run(pieces, rounds, shapes, floor_only, (n - 1) as nat), floor_only),
            rounds[n - 1],
            shapes[n - 1],
        )
    }
}

/// Whether `piece` covers the point `(x, y)`, in doubled coordinates.
fn covers(piece: &GamePiece, x: i64, y: i64) -> (hit: bool)
    ensures
        hit == occupies(*piece, x as int, y as int),
{
    let coords = piece.shape.get_shape_coords();
    let mut m: usize = 0;
    while m < 4
        invariant
            0 <= m <= 4,
            forall|k: int|
                #![trigger coords@[k]]
                0 <= k < 4 ==> coords@[k]@[0] == shape_cells(piece.shape)[k].0 && coords@[k]@[1]
                    == shape_cells(piece.shape)[k].1,
            forall|k: int|
                0 <= k < m ==> !(#[trigger] cell_x(*piece, k) == x && cell_y(*piece, k) == y),
        decreases 4 - m,
    {
        let cell = coords[m];
        let cx = piece.x_halves as i64 + 2 * (cell[0] as i64);
        let cy = piece.y_halves as i64 + 2 * (cell[1] as i64);
        assert(coords@[m as int]@[0] == shape_cells(piece.shape)[m as int].0);
        if cx == x && cy == y {
            assert(cell_x(*piece, m as int) == x && cell_y(*piece, m as int) == y);
            return true;
        }
        m = m + 1;
    }
    false
}

/// Whether some placed piece of `pieces` covers `(x, y)`, in doubled coordinates.
fn covered_by_placed(pieces: &Vec<GamePiece>, x: i64, y: i64) -> (hit: bool)
    ensures
        hit == occupied_by_placed(pieces@, x as int, y as int),
{
    let mut j: usize = 0;
    while j < pieces.len()
        invariant
            0 <= j <= pieces.len(),
            forall|i: int|
                0 <= i < j ==> !(#[trigger] pieces@[i].is_placed && occupies(pieces@[i], x as int, y as int)),
        decreases pieces.len() - j,
    {
        let other = &pieces[j];
        if other.is_placed && covers(other, x, y) {
            return true;
        }
        j = j + 1;
    }
    false
}

/// Whether `piece` can move down one step against the placed pieces of `pieces`.
pub fn can_move_down(piece: &GamePiece, pieces: &Vec<GamePiece>) -> (free: bool)
    ensures
        free == !blocked(*piece, pieces@),
{
    let coords = piece.shape.get_shape_coords();
    let mut free = true;
    let mut k: usize = 0;
    while k < 4
        invariant
            0 <= k <= 4,
            forall|c: int|
                #![trigger coords@[c]]
                0 <= c < 4 ==> coords@[c]@[0] == shape_cells(piece.shape)[c].0 && coords@[c]@[1]
                    == shape_cells(piece.shape)[c].1,
            free == !(exists|c: int| 0 <= c < k && #[trigger] cell_blocked(*piece, c, pieces@)),
        decreases 4 - k,
    {
        let cell = coords[k];
        assert(coords@[k as int]@[0] == shape_cells(piece.shape)[k as int].0);
        let new_y = piece.y_halves as i64 + 2 * (cell[1] as i64) + 2;
        let new_x = piece.x_halves as i64 + 2 * (cell[0] as i64);
        if new_y >= 2 * (GRID_HEIGHT as i64) {
            assert(cell_blocked(*piece, k as int, pieces@));
            return false;
        }
        if covered_by_placed(pieces, new_x, new_y) {
            assert(cell_blocked(*piece, k as int, pieces@));
            free = false;
        }
        proof {
            if !cell_blocked(*piece, k as int, pieces@) {
                assert forall|c: int|
                    0 <= c < k + 1 && #[trigger] cell_blocked(*piece, c, pieces@) implies 0 <= c < k by {}
            }
        }
        k = k + 1;
    }
    free
}

/// One tick for one piece, against the board `pieces` as it was before the tick.
pub fn step_piece(piece: &GamePiece, pieces: &Vec<GamePiece>) -> (next: GamePiece)
    ensures
        next == fall_step(*piece, pieces@),
{
    if can_move_down(piece, pieces) {
        proof {
            assert(!cell_blocked(*piece, 0, pieces@));
        }
        GamePiece { y_halves: piece.y_halves + 1, ..*piece }
    } else {
        GamePiece { is_placed: true, ..*piece }
    }
}

/// Moves every piece one tick: each piece falls half a cell unless one of its
/// cells, one row lower, would reach the floor or a placed piece, in which
/// case it stays and is marked placed. Every piece is judged against the
/// board as it was before the tick.
pub fn gravity_tick(pieces: &mut Vec<GamePiece>)
    ensures
        final(pieces)@ == gravity(old(pieces)@),
{
    let before = pieces.clone();
    assert(before@ == old(pieces)@);
    let n = pieces.len();
    let mut i: usize = 0;
    while i < n
        invariant
            0 <= i <= n,
            n == pieces.len(),
            n == before.len(),
            before@ == old(pieces)@,
            forall|j: int| 0 <= j < i ==> pieces@[j] == fall_step(before@[j], before@),
            forall|j: int| i <= j < n ==> pieces@[j] == before@[j],
        decreases n - i,
    {
        let next = step_piece(&before[i], &before);
        pieces.set(i, next);
        i = i + 1;
    }
    assert(pieces@ =~= gravity(old(pieces)@));
}

/// Moves every piece one tick when only the floor stops pieces: each piece
/// falls half a cell unless one of its cells, one row lower, would reach the
/// floor, in which case it stays and is marked placed.
pub fn gravity_tick_floor_only(pieces: &mut Vec<GamePiece>)
    ensures
        final(pieces)@ == gravity_floor_only(old(pieces)@),
{
    let nothing: Vec<GamePiece> = Vec::new();
    let n = pieces.len();
    let mut i: usize = 0;
    while i < n
        invariant
            0 <= i <= n,
            n == pieces.len(),
            n == old(pieces)@.len(),
            nothing@ == Seq::<GamePiece>::empty(),
            forall|j: int| 0 <= j < i ==> pieces@[j] == fall_step(old(pieces)@[j], Seq::empty()),
            forall|j: int| i <= j < n ==> pieces@[j] == old(pieces)@[j],
        decreases n - i,
    {
        let next = step_piece(&pieces[i], &nothing);
        pieces.set(i, next);
        i = i + 1;
    }
    assert(pieces@ =~= gravity_floor_only(old(pieces)@));
}

/// Whether `owner` has a piece that is still falling.
pub fn owner_has_active_piece(pieces: &Vec<GamePiece>, owner: u128) -> (found: bool)
    ensures
        found == has_active_piece(pieces@, owner),
{
    let mut i: usize = 0;
    while i < pieces.len()
        invariant
            0 <= i <= pieces.len(),
            forall|j: int| 0 <= j < i ==> !(#[trigger] pieces@[j].owner == owner && !pieces@[j].is_placed),
        decreases pieces.len() - i,
    {
        if pieces[i].owner == owner && !pieces[i].is_placed {
            return true;
        }
        i = i + 1;
    }
    false
}

/// Gives each player of `players`, in order, a new piece of the shape drawn
/// for it in `shapes`, unless it already has a falling piece at its turn.
/// The player at position `i` gets its piece at the left edge when `i` is
/// even and in the middle of the board when `i` is odd, on the top row.
pub fn spawn_missing_pieces(
    pieces: &mut Vec<GamePiece>,
    players: &Vec<u128>,
    shapes: &Vec<TetrisShapes>,
)
    requires
        shapes.len() == players.len(),
    ensures
        final(pieces)@ == spawn_all(old(pieces)@, players@, shapes@),
{
    let mut i: usize = 0;
    while i < players.len()
        invariant
            0 <= i <= players.len(),
            shapes.len() == players.len(),
            pieces@ == spawn_prefix(old(pieces)@, players@, shapes@, i as nat),
        decreases players.len() - i,
    {
        let owner = players[i];
        if !owner_has_active_piece(pieces, owner) {
            let x_halves: u32 = if i % 2 != 0 { 2 * (GRID_WIDTH / 2) } else { 0 };
            pieces.push(
                GamePiece { owner, shape: shapes[i], x_halves, y_halves: 0, is_placed: false },
            );
        }
        i = i + 1;
    }
}

/// Draws a shape at random for every player of `players`, in order, and gives
/// each player a new piece of its shape unless it already has a falling piece.
pub fn spawn_random_pieces(pieces: &mut Vec<GamePiece>, players: &Vec<u128>)
    ensures
        exists|shapes: Seq<TetrisShapes>|
            shapes.len() == players.len() && final(pieces)@ == #[trigger] spawn_all(
                old(pieces)@,
                players@,
                shapes,
            ),
{
    let mut shapes: Vec<TetrisShapes> = Vec::new();
    let mut i: usize = 0;
    while i < players.len()
        invariant
            0 <= i <= players.len(),
            shapes.len() == i,
        decreases players.len() - i,
    {
        shapes.push(get_random_tetris_shape());
        i = i + 1;
    }
    spawn_missing_pieces(pieces, players, &shapes);
}

/// One tick of a live match: every piece takes its step, then every player
/// without a falling piece gets a new one of the shape drawn for it.
pub fn live_tick(pieces: &mut Vec<GamePiece>, players: &Vec<u128>, shapes: &Vec<TetrisShapes>)
    requires
        shapes.len() == players.len(),
    ensures
        final(pieces)@ == spawn_all(gravity(old(pieces)@), players@, shapes@),
{
    gravity_tick(pieces);
    spawn_missing_pieces(pieces, players, shapes);
}


/// A tick keeps every piece's owner, shape and column, and moves it half a
/// cell down or marks it placed in place.
pub proof fn gravity_moves_or_places(pieces: Seq<GamePiece>, i: int)
    requires
        0 <= i < pieces.len(),
    ensures
        gravity(pieces).len() == pieces.len(),
        gravity(pieces)[i].owner == pieces[i].owner,
        gravity(pieces)[i].shape == pieces[i].shape,
        gravity(pieces)[i].x_halves == pieces[i].x_halves,
        (gravity(pieces)[i].y_halves == pieces[i].y_halves + 1 && gravity(pieces)[i].is_placed
            == pieces[i].is_placed) || (gravity(pieces)[i].y_halves == pieces[i].y_halves
            && gravity(pieces)[i].is_placed),
{
    if !blocked(pieces[i], pieces) {
        assert(!cell_blocked(pieces[i], 0, pieces));
    }
}

/// A piece that has come to rest stays placed on every later tick.
pub proof fn placed_stays_placed(pieces: Seq<GamePiece>, i: int)
    requires
        0 <= i < pieces.len(),
        pieces[i].is_placed,
    ensures
        gravity(pieces)[i].is_placed,
{
}

/// A piece moves down only when none of its cells, one row lower, reaches
/// the floor or a placed piece.
pub proof fn moving_piece_is_unobstructed(pieces: Seq<GamePiece>, i: int, k: int)
    requires
        0 <= i < pieces.len(),
        0 <= k < 4,
        gravity(pieces)[i].y_halves != pieces[i].y_halves,
    ensures
        cell_y(pieces[i], k) + 2 < 2 * GRID_HEIGHT,
        !occupied_by_placed(pieces, cell_x(pieces[i], k), cell_y(pieces[i], k) + 2),
{
    if cell_blocked(pieces[i], k, pieces) {
        assert(blocked(pieces[i], pieces));
    }
}

/// A tick never moves a piece into the floor.
pub proof fn gravity_keeps_pieces_above_floor(pieces: Seq<GamePiece>, i: int)
    requires
        0 <= i < pieces.len(),
        above_floor(pieces[i]),
    ensures
        above_floor(gravity(pieces)[i]),
{
    let p = pieces[i];
    let q = gravity(pieces)[i];
    if !blocked(p, pieces) {
        assert(!cell_blocked(p, 0, pieces));
        assert forall|k: int| 0 <= k < 4 implies #[trigger] cell_y(q, k) < 2 * GRID_HEIGHT by {
            assert(!cell_blocked(p, k, pieces));
        }
    } else {
        assert forall|k: int| 0 <= k < 4 implies #[trigger] cell_y(q, k) < 2 * GRID_HEIGHT by {
            assert(cell_y(p, k) < 2 * GRID_HEIGHT);
        }
    }
}

/// A new piece starts above the floor.
pub proof fn new_piece_above_floor(owner: u128, shape: TetrisShapes, index: int)
    ensures
        above_floor(new_piece(owner, shape, index)),
        !new_piece(owner, shape, index).is_placed,
{
    let p = new_piece(owner, shape, index);
    assert forall|k: int| 0 <= k < 4 implies #[trigger] cell_y(p, k) < 2 * GRID_HEIGHT by {
        crate::shapes::shape_cells_fit(shape);
        assert(0 <= shape_cells(shape)[k].1 <= 1);
    }
}

/// A tick never gives a player a second falling piece.
pub proof fn gravity_keeps_one_active_piece(pieces: Seq<GamePiece>)
    requires
        one_active_piece_per_player(pieces),
    ensures
        one_active_piece_per_player(gravity(pieces)),
{
    let g = gravity(pieces);
    assert forall|i: int, j: int|
        0 <= i < j < g.len() && #[trigger] g[i].owner == #[trigger] g[j].owner implies g[i].is_placed
        || g[j].is_placed by {
        gravity_moves_or_places(pieces, i);
        gravity_moves_or_places(pieces, j);
        assert(pieces[i].owner == pieces[j].owner);
    }
}

/// When no piece is placed, stopping pieces at placed pieces changes nothing:
/// a tick is the same as one where only the floor stops pieces.
pub proof fn gravity_without_placed_pieces(pieces: Seq<GamePiece>)
    requires
        forall|j: int| 0 <= j < pieces.len() ==> !(#[trigger] pieces[j].is_placed),
    ensures
        gravity(pieces) == gravity_floor_only(pieces),
{
    assert forall|i: int| 0 <= i < pieces.len() implies #[trigger] gravity(pieces)[i]
        == gravity_floor_only(pieces)[i] by {
        let p = pieces[i];
        assert forall|k: int| 0 <= k < 4 implies #[trigger] cell_blocked(p, k, pieces)
            == cell_blocked(p, k, Seq::<GamePiece>::empty()) by {
            if occupied_by_placed(pieces, cell_x(p, k), cell_y(p, k) + 2) {
                let j = choose|j: int|
                    0 <= j < pieces.len() && #[trigger] pieces[j].is_placed && occupies(
                        pieces[j],
                        cell_x(p, k),
                        cell_y(p, k) + 2,
                    );
                assert(pieces[j].is_placed);
            }
        }
        if blocked(p, pieces) {
            let k = choose|k: int| 0 <= k < 4 && #[trigger] cell_blocked(p, k, pieces);
            assert(cell_blocked(p, k, Seq::<GamePiece>::empty()));
        }
        if blocked(p, Seq::<GamePiece>::empty()) {
            let k = choose|k: int|
                0 <= k < 4 && #[trigger] cell_blocked(p, k, Seq::<GamePiece>::empty());
            assert(cell_blocked(p, k, pieces));
        }
        assert(blocked(p, pieces) == blocked(p, Seq::<GamePiece>::empty()));
    }
    assert(gravity(pieces) =~= gravity_floor_only(pieces));
}

/// Giving out pieces keeps the pieces already on the board, in place, and
/// only adds falling pieces on the top row.
pub proof fn spawn_extends_board(
    pieces: Seq<GamePiece>,
    players: Seq<u128>,
    shapes: Seq<TetrisShapes>,
    n: nat,
)
    requires
        n <= players.len(),
        shapes.len() == players.len(),
    ensures
        pieces.len() <= spawn_prefix(pieces, players, shapes, n).len() <= pieces.len() + n,
        forall|i: int|
            0 <= i < pieces.len() ==> #[trigger] spawn_prefix(pieces, players, shapes, n)[i]
                == pieces[i],
        forall|i: int|
            pieces.len() <= i < spawn_prefix(pieces, players, shapes, n).len() ==> {
                let p = #[trigger] spawn_prefix(pieces, players, shapes, n)[i];
                &&& !p.is_placed
                &&& p.y_halves == 0
                &&& exists|m: int|
                    0 <= m < n && p == new_piece(players[m], shapes[m], m)
            },
    decreases n,
{
    if n > 0 {
        spawn_extends_board(pieces, players, shapes, (n - 1) as nat);
        let before = spawn_prefix(pieces, players, shapes, (n - 1) as nat);
        let after = spawn_prefix(pieces, players, shapes, n);
        assert forall|i: int| pieces.len() <= i < after.len() implies {
            let p = #[trigger] after[i];
            &&& !p.is_placed
            &&& p.y_halves == 0
            &&& exists|m: int| 0 <= m < n && p == new_piece(players[m], shapes[m], m)
        } by {
            if i < before.len() {
                assert(after[i] == before[i]);
                let m = choose|m: int|
                    0 <= m < n - 1 && before[i] == new_piece(players[m], shapes[m], m);
                assert(0 <= m < n && after[i] == new_piece(players[m], shapes[m], m));
            } else {
                assert(after[i] == new_piece(players[n - 1], shapes[n - 1], n - 1));
            }
        }
    }
}

/// After pieces are given out, every player of the list has a falling piece.
pub proof fn spawn_gives_every_player_a_piece(
    pieces: Seq<GamePiece>,
    players: Seq<u128>,
    shapes: Seq<TetrisShapes>,
    p: int,
)
    requires
        shapes.len() == players.len(),
        0 <= p < players.len(),
    ensures
        has_active_piece(spawn_all(pieces, players, shapes), players[p]),
{
    let n = (p + 1) as nat;
    let before = spawn_prefix(pieces, players, shapes, p as nat);
    let after = spawn_prefix(pieces, players, shapes, n);
    if !has_active_piece(before, players[p]) {
        let last = before.len() as int;
        assert(after[last] == new_piece(players[p], shapes[p], p));
        assert(0 <= last < after.len() && after[last].owner == players[p] && !after[last].is_placed);
    } else {
        let i = choose|i: int|
            0 <= i < before.len() && #[trigger] before[i].owner == players[p] && !before[i].is_placed;
        assert(after[i] == before[i]);
    }
    assert(has_active_piece(after, players[p]));
    spawn_suffix_keeps_active(pieces, players, shapes, n, players.len(), players[p]);
}

/// A falling piece present after `n` turns is still there after `m` turns.
proof fn spawn_suffix_keeps_active(
    pieces: Seq<GamePiece>,
    players: Seq<u128>,
    shapes: Seq<TetrisShapes>,
    n: nat,
    m: nat,
    owner: u128,
)
    requires
        n <= m <= players.len(),
        shapes.len() == players.len(),
        has_active_piece(spawn_prefix(pieces, players, shapes, n), owner),
    ensures
        has_active_piece(spawn_prefix(pieces, players, shapes, m), owner),
    decreases m - n,
{
    if n < m {
        let before = spawn_prefix(pieces, players, shapes, n);
        let after = spawn_prefix(pieces, players, shapes, (n + 1) as nat);
        let i = choose|i: int| 0 <= i < before.len() && #[trigger] before[i].owner == owner && !before[i].is_placed;
        assert(after[i] == before[i]);
        assert(has_active_piece(after, owner));
        spawn_suffix_keeps_active(pieces, players, shapes, (n + 1) as nat, m, owner);
    }
}

/// Giving out pieces to distinct players never gives a player a second
/// falling piece.
pub proof fn spawn_keeps_one_active_piece(
    pieces: Seq<GamePiece>,
    players: Seq<u128>,
    shapes: Seq<TetrisShapes>,
)
    requires
        shapes.len() == players.len(),
        players.no_duplicates(),
        one_active_piece_per_player(pieces),
    ensures
        one_active_piece_per_player(spawn_all(pieces, players, shapes)),
{
    spawn_prefix_keeps_one_active_piece(pieces, players, shapes, players.len());
}

proof fn spawn_prefix_keeps_one_active_piece(
    pieces: Seq<GamePiece>,
    players: Seq<u128>,
    shapes: Seq<TetrisShapes>,
    n: nat,
)
    requires
        n <= players.len(),
        shapes.len() == players.len(),
        players.no_duplicates(),
        one_active_piece_per_player(pieces),
    ensures
        one_active_piece_per_player(spawn_prefix(pieces, players, shapes, n)),
    decreases n,
{
    if n > 0 {
        let k = n - 1;
        spawn_prefix_keeps_one_active_piece(pieces, players, shapes, k as nat);
        let before = spawn_prefix(pieces, players, shapes, k as nat);
        let after = spawn_prefix(pieces, players, shapes, n);
        if !has_active_piece(before, players[k]) {
            let last = before.len() as int;
            assert forall|i: int, j: int|
                0 <= i < j < after.len() && #[trigger] after[i].owner == #[trigger] after[j].owner
                    implies after[i].is_placed || after[j].is_placed by {
                if j == last {
                    assert(after[i] == before[i]);
                    assert(after[j].owner == players[k]);
                    if !after[i].is_placed {
                        assert(before[i].owner == players[k] && !before[i].is_placed);
                        assert(has_active_piece(before, players[k]));
                    }
                } else {
                    assert(after[i] == before[i]);
                    assert(after[j] == before[j]);
                }
            }
        }
    }
}

/// After a live tick, every listed player has exactly one falling piece,
/// provided the players are distinct and no player had two before.
pub proof fn live_tick_gives_each_player_one_falling_piece(
    pieces: Seq<GamePiece>,
    players: Seq<u128>,
    shapes: Seq<TetrisShapes>,
    p: int,
)
    requires
        shapes.len() == players.len(),
        players.no_duplicates(),
        one_active_piece_per_player(pieces),
        0 <= p < players.len(),
    ensures
        has_active_piece(spawn_all(gravity(pieces), players, shapes), players[p]),
        one_active_piece_per_player(spawn_all(gravity(pieces), players, shapes)),
{
    gravity_keeps_one_active_piece(pieces);
    spawn_keeps_one_active_piece(gravity(pieces), players, shapes);
    spawn_gives_every_player_a_piece(gravity(pieces), players, shapes, p);
}

/// A new piece lies on the board.
pub proof fn new_piece_inside_board(owner: u128, shape: TetrisShapes, index: int)
    ensures
        inside_board(new_piece(owner, shape, index)),
{
    let p = new_piece(owner, shape, index);
    crate::shapes::shape_cells_fit(shape);
    assert(p.x_halves == 0 || p.x_halves == 20);
    assert forall|k: int| 0 <= k < 4 implies {
        &&& 0 <= #[trigger] cell_x(p, k) < 2 * GRID_WIDTH
        &&& 0 <= cell_y(p, k) <= 2 * (GRID_HEIGHT - 1)
    } by {
        assert(0 <= shape_cells(shape)[k].0 <= 3 && 0 <= shape_cells(shape)[k].1 <= 1);
    }
}

/// One step keeps a piece on the board, whatever stops it: its column never
/// changes, and it moves down only while it stays above the bottom row.
proof fn fall_step_keeps_piece_inside_board(p: GamePiece, others: Seq<GamePiece>)
    requires
        inside_board(p),
    ensures
        inside_board(fall_step(p, others)),
{
    let q = fall_step(p, others);
    crate::shapes::shape_cells_fit(p.shape);
    assert forall|k: int| 0 <= k < 4 implies {
        &&& 0 <= #[trigger] cell_x(q, k) < 2 * GRID_WIDTH
        &&& 0 <= cell_y(q, k) <= 2 * (GRID_HEIGHT - 1)
    } by {
        assert(0 <= cell_x(p, k) < 2 * GRID_WIDTH);
        assert(0 <= shape_cells(p.shape)[k].1 <= 1);
        if !blocked(p, others) {
            assert(!cell_blocked(p, k, others));
            assert(q.y_halves == p.y_halves + 1);
        }
    }
}

/// A tick keeps every piece on the board: columns never change, and a piece
/// moves down only while it stays above the bottom row.
pub proof fn gravity_keeps_pieces_inside_board(pieces: Seq<GamePiece>)
    requires
        all_inside_board(pieces),
    ensures
        all_inside_board(gravity(pieces)),
{
    let g = gravity(pieces);
    assert forall|i: int| 0 <= i < g.len() implies inside_board(#[trigger] g[i]) by {
        fall_step_keeps_piece_inside_board(pieces[i], pieces);
    }
}

/// A tick in which only the floor stops pieces keeps every piece on the board.
pub proof fn floor_only_gravity_keeps_pieces_inside_board(pieces: Seq<GamePiece>)
    requires
        all_inside_board(pieces),
    ensures
        all_inside_board(gravity_floor_only(pieces)),
{
    let g = gravity_floor_only(pieces);
    assert forall|i: int| 0 <= i < g.len() implies inside_board(#[trigger] g[i]) by {
        fall_step_keeps_piece_inside_board(pieces[i], Seq::<GamePiece>::empty());
    }
}

/// A tick in which only the floor stops pieces never gives a player a
/// second falling piece.
pub proof fn floor_only_gravity_keeps_one_active_piece(pieces: Seq<GamePiece>)
    requires
        one_active_piece_per_player(pieces),
    ensures
        one_active_piece_per_player(gravity_floor_only(pieces)),
{
    let g = gravity_floor_only(pieces);
    assert forall|i: int, j: int|
        0 <= i < j < g.len() && #[trigger] g[i].owner == #[trigger] g[j].owner implies g[i].is_placed
        || g[j].is_placed by {
        assert(g[i] == fall_step(pieces[i], Seq::<GamePiece>::empty()));
        assert(g[j] == fall_step(pieces[j], Seq::<GamePiece>::empty()));
        assert(pieces[i].owner == pieces[j].owner);
    }
}

/// Giving out pieces keeps every piece on the board.
pub proof fn spawn_keeps_pieces_inside_board(
    pieces: Seq<GamePiece>,
    players: Seq<u128>,
    shapes: Seq<TetrisShapes>,
)
    requires
        shapes.len() == players.len(),
        all_inside_board(pieces),
    ensures
        all_inside_board(spawn_all(pieces, players, shapes)),
{
    let after = spawn_all(pieces, players, shapes);
    spawn_extends_board(pieces, players, shapes, players.len());
    assert forall|i: int| 0 <= i < after.len() implies inside_board(#[trigger] after[i]) by {
        if i < pieces.len() {
            assert(after[i] == pieces[i]);
        } else {
            let m = choose|m: int|
                0 <= m < players.len() && after[i] == new_piece(players[m], shapes[m], m);
            new_piece_inside_board(players[m], shapes[m], m);
        }
    }
}

/// Over any run of live ticks, with either kind of tick, that starts from
/// a sound board (for instance the empty one) and in which every tick gives
/// pieces to distinct players: every piece stays on the board, no player
/// ever has two falling pieces, and after each tick every player of that
/// tick has exactly one.
#[verifier::spinoff_prover]
pub proof fn live_run_keeps_board_sound(
    pieces: Seq<GamePiece>,
    rounds: Seq<Seq<u128>>,
    shapes: Seq<Seq<TetrisShapes>>,
    floor_only: bool,
    n: nat,
)
    requires
        all_inside_board(pieces),
        one_active_piece_per_player(pieces),
        n <= rounds.len(),
        shapes.len() == rounds.len(),
        forall|t: int|
            0 <= t < rounds.len() ==> (#[trigger] shapes[t]).len() == rounds[t].len()
                && rounds[t].no_duplicates(),
    ensures
        all_inside_board(live_run(pieces, rounds, shapes, floor_only, n)),
        one_active_piece_per_player(live_run(pieces, rounds, shapes, floor_only, n)),
        n > 0 ==> forall|p: int|
            0 <= p < rounds[n - 1].len() ==> has_active_piece(
                live_run(pieces, rounds, shapes, floor_only, n),
                #[trigger] rounds[n - 1][p],
            ),
    decreases n,
{
    if n > 0 {
        let t = n - 1;
        live_run_keeps_board_sound(pieces, rounds, shapes, floor_only, t as nat);
        let before = live_run(pieces, rounds, shapes, floor_only, t as nat);
        let ticked = tick_gravity(before, floor_only);
        assert(shapes[t].len() == rounds[t].len() && rounds[t].no_duplicates());
        if floor_only {
            floor_only_gravity_keeps_pieces_inside_board(before);
            floor_only_gravity_keeps_one_active_piece(before);
        } else {
            gravity_keeps_pieces_inside_board(before);
            gravity_keeps_one_active_piece(before);
        }
        spawn_keeps_pieces_inside_board(ticked, rounds[t], shapes[t]);
        spawn_keeps_one_active_piece(ticked, rounds[t], shapes[t]);
        assert forall|p: int| 0 <= p < rounds[t].len() implies has_active_piece(
            live_run(pieces, rounds, shapes, floor_only, n),
            #[trigger] rounds[t][p],
        ) by {
            spawn_gives_every_player_a_piece(ticked, rounds[t], shapes[t], p);
        }
    }
}

/// A tick stops a piece exactly when one of its cells, one row lower, would
/// reach the floor or the very cell, same column and same row, of a placed
/// piece: then the piece stays and is placed. Otherwise it moves down half a
/// cell. A placed piece elsewhere on the same rows stops nothing.
pub proof fn gravity_stops_only_on_floor_or_placed_cell(pieces: Seq<GamePiece>, i: int)
    requires
        0 <= i < pieces.len(),
    ensures
        gravity(pieces).len() == pieces.len(),
        gravity(pieces)[i] == (if (exists|k: int|
            0 <= k < 4 && pieces[i].y_halves + 2 * (#[trigger] shape_cells(pieces[i].shape)[k]).1 + 2
                >= 2 * GRID_HEIGHT) || (exists|k: int, j: int, m: int|
            #![trigger shape_cells(pieces[i].shape)[k], pieces[j], shape_cells(pieces[j].shape)[m]]
            0 <= k < 4 && 0 <= j < pieces.len() && 0 <= m < 4 && pieces[j].is_placed
                && pieces[j].x_halves + 2 * shape_cells(pieces[j].shape)[m].0 == pieces[i].x_halves
                + 2 * shape_cells(pieces[i].shape)[k].0 && pieces[j].y_halves + 2 * shape_cells(
                pieces[j].shape,
            )[m].1 == pieces[i].y_halves + 2 * shape_cells(pieces[i].shape)[k].1 + 2) {
            GamePiece { is_placed: true, ..pieces[i] }
        } else {
            GamePiece { y_halves: (pieces[i].y_halves + 1) as u32, ..pieces[i] }
        }),
{
    let p = pieces[i];
    if blocked(p, pieces) {
        let k = choose|k: int| 0 <= k < 4 && #[trigger] cell_blocked(p, k, pieces);
        if cell_y(p, k) + 2 >= 2 * GRID_HEIGHT {
            assert(p.y_halves + 2 * shape_cells(p.shape)[k].1 + 2 >= 2 * GRID_HEIGHT);
        } else {
            let j = choose|j: int|
                0 <= j < pieces.len() && #[trigger] pieces[j].is_placed && occupies(
                    pieces[j],
                    cell_x(p, k),
                    cell_y(p, k) + 2,
                );
            let m = choose|m: int|
                0 <= m < 4 && #[trigger] cell_x(pieces[j], m) == cell_x(p, k) && cell_y(pieces[j], m)
                    == cell_y(p, k) + 2;
            assert(shape_cells(p.shape)[k] == shape_cells(p.shape)[k]);
            assert(pieces[j] == pieces[j]);
            assert(shape_cells(pieces[j].shape)[m] == shape_cells(pieces[j].shape)[m]);
        }
    } else {
        if (exists|k: int|
            0 <= k < 4 && p.y_halves + 2 * (#[trigger] shape_cells(p.shape)[k]).1 + 2
                >= 2 * GRID_HEIGHT) {
            let k = choose|k: int|
                0 <= k < 4 && p.y_halves + 2 * (#[trigger] shape_cells(p.shape)[k]).1 + 2 >= 2
                    * GRID_HEIGHT;
            assert(cell_blocked(p, k, pieces));
        }
        if (exists|k: int, j: int, m: int|
            #![trigger shape_cells(p.shape)[k], pieces[j], shape_cells(pieces[j].shape)[m]]
            0 <= k < 4 && 0 <= j < pieces.len() && 0 <= m < 4 && pieces[j].is_placed
                && pieces[j].x_halves + 2 * shape_cells(pieces[j].shape)[m].0 == p.x_halves
                + 2 * shape_cells(p.shape)[k].0 && pieces[j].y_halves + 2 * shape_cells(
                pieces[j].shape,
            )[m].1 == p.y_halves + 2 * shape_cells(p.shape)[k].1 + 2) {
            let (k, j, m) = choose|k: int, j: int, m: int|
                #![trigger shape_cells(p.shape)[k], pieces[j], shape_cells(pieces[j].shape)[m]]
                0 <= k < 4 && 0 <= j < pieces.len() && 0 <= m < 4 && pieces[j].is_placed
                    && pieces[j].x_halves + 2 * shape_cells(pieces[j].shape)[m].0 == p.x_halves + 2
                    * shape_cells(p.shape)[k].0 && pieces[j].y_halves + 2 * shape_cells(
                    pieces[j].shape,
                )[m].1 == p.y_halves + 2 * shape_cells(p.shape)[k].1 + 2;
            assert(cell_x(pieces[j], m) == cell_x(p, k));
            assert(occupies(pieces[j], cell_x(p, k), cell_y(p, k) + 2));
            assert(occupied_by_placed(pieces, cell_x(p, k), cell_y(p, k) + 2));
            assert(cell_blocked(p, k, pieces));
        }
    }
}

} // verus!
