//! Level state: parsing a textual level description, movement
//! legality, push resolution, click handling, and the reachable-cells
//! query.

use vstd::prelude::*;
use vstd::string::StrSliceExecFns;
use vstd::string::StringExecFns;

use crate::constants::CELL_SIZE;
use crate::engine::events::Event;
use crate::engine::Runnable;
use crate::engine::Time;
use crate::grid::floor_div;
use crate::grid::Direction;
use crate::grid::Location;

verus! {

/// The mathematical state of a level: where the walls, blocks and
/// goals stand, and where the player is. Walls and goals never change
/// after parsing; blocks and the player move.
pub struct GameModel {
    pub walls: Seq<Location>,
    pub blocks: Seq<Location>,
    pub goals: Seq<Location>,
    pub player: Location,
}

/// No two entries of `s` name the same cell.
pub open spec fn distinct_locs(s: Seq<Location>) -> bool {
    forall|i: int, j: int| 0 <= i < j < s.len() ==> s[i] != s[j]
}

impl GameModel {
    pub open spec fn wall_at(self, l: Location) -> bool {
        self.walls.contains(l)
    }

    pub open spec fn block_at(self, l: Location) -> bool {
        self.blocks.contains(l)
    }

    pub open spec fn goal_at(self, l: Location) -> bool {
        self.goals.contains(l)
    }

    pub open spec fn blocks_distinct(self) -> bool {
        distinct_locs(self.blocks)
    }

    /// The state invariant kept by every move: block positions are
    /// unique, and the player stands on neither a wall nor a block.
    pub open spec fn wf(self) -> bool {
        &&& self.blocks_distinct()
        &&& !self.wall_at(self.player)
        &&& !self.block_at(self.player)
    }

    /// Movement legality: the target cell must not be a wall; if it
    /// holds a block, the cell beyond must be neither a wall nor a
    /// block. Chains of two blocks are never pushable.
    pub open spec fn move_allowed(self, dir: Direction) -> bool {
        let target = self.player.move_spec(dir);
        if self.wall_at(target) {
            false
        } else if self.block_at(target) {
            let beyond = target.move_spec(dir);
            !self.wall_at(beyond) && !self.block_at(beyond)
        } else {
            true
        }
    }

    /// The state after a move in direction `dir`: unchanged when the
    /// move is illegal; otherwise the player advances one cell and a
    /// block on the target cell is displaced one further cell.
    pub open spec fn apply_spec(self, dir: Direction) -> GameModel {
        if !self.move_allowed(dir) {
            self
        } else {
            let target = self.player.move_spec(dir);
            let beyond = target.move_spec(dir);
            GameModel {
                walls: self.walls,
                blocks: self.blocks.map_values(
                    |b: Location| if b == target { beyond } else { b },
                ),
                goals: self.goals,
                player: target,
            }
        }
    }

    /// The grid cell a click at pixel coordinates `(px, py)` lands in,
    /// for a given cell side length: each axis is divided by the cell
    /// size and rounded down.
    pub open spec fn click_cell(px: i32, py: i32, cell_size: i32) -> Location {
        Location {
            x: (px as int / cell_size as int) as i32,
            y: (py as int / cell_size as int) as i32,
        }
    }

    /// The state after a click: a move when the clicked cell is one
    /// orthogonal step from the player, otherwise unchanged.
    pub open spec fn click_spec(self, px: i32, py: i32, cell_size: i32) -> GameModel {
        match self.player.direction_to_spec(GameModel::click_cell(px, py, cell_size)) {
            Some(dir) => self.apply_spec(dir),
            None => self,
        }
    }

    /// The state after one simulation tick: a click event is handled
    /// with the configured cell size, no event changes nothing.
    pub open spec fn update_spec(self, evt: Option<Event>) -> GameModel {
        match evt {
            Some(Event::Click { x, y }) => self.click_spec(x, y, CELL_SIZE as i32),
            None => self,
        }
    }

    pub open spec fn move_option(self, dir: Direction) -> Seq<Location> {
        if self.move_allowed(dir) {
            seq![self.player.move_spec(dir)]
        } else {
            Seq::empty()
        }
    }

    /// The reachable adjacent cells, in the fixed direction order
    /// Up, Down, Left, Right.
    pub open spec fn valid_moves_spec(self) -> Seq<Location> {
        self.move_option(Direction::Up) + self.move_option(Direction::Down) + self.move_option(
            Direction::Left,
        ) + self.move_option(Direction::Right)
    }
}

/// The effect of one level character at cell `(x, y)` on the model:
/// `O` a wall, `.` a goal, `x` a block, `X` a block and a goal, `p`
/// the player, `P` the player and a goal; any other character leaves
/// the model unchanged.
pub open spec fn char_step(m: GameModel, c: char, x: i32, y: i32) -> GameModel {
    let loc = Location { x, y };
    if c == 'O' {
        GameModel { walls: m.walls.push(loc), blocks: m.blocks, goals: m.goals, player: m.player }
    } else if c == '.' {
        GameModel { walls: m.walls, blocks: m.blocks, goals: m.goals.push(loc), player: m.player }
    } else if c == 'x' {
        GameModel { walls: m.walls, blocks: m.blocks.push(loc), goals: m.goals, player: m.player }
    } else if c == 'X' {
        GameModel {
            walls: m.walls,
            blocks: m.blocks.push(loc),
            goals: m.goals.push(loc),
            player: m.player,
        }
    } else if c == 'p' {
        GameModel { walls: m.walls, blocks: m.blocks, goals: m.goals, player: loc }
    } else if c == 'P' {
        GameModel { walls: m.walls, blocks: m.blocks, goals: m.goals.push(loc), player: loc }
    } else {
        m
    }
}

/// The model and the cursor cell `(x, y)` after scanning the first
/// `n` characters of a level text. A newline moves the cursor to the
/// start of the next row; every other character occupies one column.
pub open spec fn parse_prefix(s: Seq<char>, n: int) -> (GameModel, i32, i32)
    decreases n,
{
    if n <= 0 {
        (
            GameModel {
                walls: Seq::empty(),
                blocks: Seq::empty(),
                goals: Seq::empty(),
                player: Location { x: 0, y: 0 },
            },
            0i32,
            0i32,
        )
    } else {
        let (m, x, y) = parse_prefix(s, n - 1);
        let c = s[n - 1];
        if c == '\n' {
            (m, 0i32, y.wrapping_add(1))
        } else {
            (char_step(m, c, x, y), x.wrapping_add(1), y)
        }
    }
}

/// The model a whole level text parses to.
pub open spec fn parse_spec(s: Seq<char>) -> GameModel {
    parse_prefix(s, s.len() as int).0
}

/// The cursor cell scanned at character `i` of a level text.
pub open spec fn cell_at(s: Seq<char>, i: int) -> Location {
    Location { x: parse_prefix(s, i).1, y: parse_prefix(s, i).2 }
}

/// `a` stands strictly before the cursor `(x, y)` in scan order
/// (row-major, rows top to bottom).
pub open spec fn pos_lt(a: Location, x: i32, y: i32) -> bool {
    a.y < y || (a.y == y && a.x < x)
}

/// Characters that create a wall.
pub open spec fn wall_char(c: char) -> bool {
    c == 'O'
}

/// Characters that create a block.
pub open spec fn block_char(c: char) -> bool {
    c == 'x' || c == 'X'
}

/// Characters that create a goal.
pub open spec fn goal_char(c: char) -> bool {
    c == '.' || c == 'X' || c == 'P'
}

/// Characters that place the player.
pub open spec fn player_char(c: char) -> bool {
    c == 'p' || c == 'P'
}

/// Extending a cell-membership characterization by one scanned
/// character: the new entry set holds exactly the cells of the
/// matching characters among the first `n`.
proof fn lemma_kind_extend(
    s: Seq<char>,
    n: int,
    kind: spec_fn(char) -> bool,
    s0: Seq<Location>,
    s1: Seq<Location>,
)
    requires
        1 <= n <= s.len(),
        forall|l: Location|
            #[trigger] s0.contains(l) <==> exists|i: int|
                0 <= i < n - 1 && kind(s[i]) && l == cell_at(s, i),
        s1 == (if kind(s[n - 1]) {
            s0.push(cell_at(s, n - 1))
        } else {
            s0
        }),
    ensures
        forall|l: Location|
            #[trigger] s1.contains(l) <==> exists|i: int| 0 <= i < n && kind(s[i]) && l == cell_at(
                s,
                i,
            ),
{
    assert forall|l: Location| #[trigger] s1.contains(l) implies exists|i: int|
        0 <= i < n && kind(s[i]) && l == cell_at(s, i) by {
        if kind(s[n - 1]) && l == cell_at(s, n - 1) {
            assert(0 <= n - 1 < n && kind(s[n - 1]) && l == cell_at(s, n - 1));
        } else {
            assert(s0.contains(l));
            let i = choose|i: int| 0 <= i < n - 1 && kind(s[i]) && l == cell_at(s, i);
            assert(0 <= i < n && kind(s[i]) && l == cell_at(s, i));
        }
    }
    assert forall|l: Location|
        (exists|i: int| 0 <= i < n && kind(s[i]) && l == cell_at(s, i)) implies #[trigger] s1.contains(
        l,
    ) by {
        let i = choose|i: int| 0 <= i < n && kind(s[i]) && l == cell_at(s, i);
        if i == n - 1 {
            assert(s1 == s0.push(l));
            assert(s1[s1.len() - 1] == l);
        } else {
            assert(exists|j: int| 0 <= j < n - 1 && kind(s[j]) && l == cell_at(s, j));
            assert(s0.contains(l));
            if kind(s[n - 1]) {
                let k = choose|k: int| 0 <= k < s0.len() && s0[k] == l;
                assert(s1[k] == l);
            }
        }
    }
}

/// Parsing round-trip over a prefix: after scanning `n` characters,
/// the wall, block and goal entries are exactly the cells of the
/// matching characters, and the player stands at the cell of the last
/// player marker, or at the origin when there is none.
proof fn lemma_parse_round_trip_prefix(s: Seq<char>, n: int)
    requires
        0 <= n <= s.len(),
    ensures
        forall|l: Location|
            #[trigger] parse_prefix(s, n).0.walls.contains(l) <==> exists|i: int|
                0 <= i < n && wall_char(s[i]) && l == cell_at(s, i),
        forall|l: Location|
            #[trigger] parse_prefix(s, n).0.blocks.contains(l) <==> exists|i: int|
                0 <= i < n && block_char(s[i]) && l == cell_at(s, i),
        forall|l: Location|
            #[trigger] parse_prefix(s, n).0.goals.contains(l) <==> exists|i: int|
                0 <= i < n && goal_char(s[i]) && l == cell_at(s, i),
        (forall|i: int| 0 <= i < n ==> !player_char(#[trigger] s[i])) ==> parse_prefix(s, n).0.player
            == (Location { x: 0, y: 0 }),
        forall|i: int|
            (0 <= i < n && player_char(#[trigger] s[i]) && (forall|j: int|
                i < j < n ==> !player_char(#[trigger] s[j]))) ==> parse_prefix(s, n).0.player
                == cell_at(s, i),
    decreases n,
{
    if n == 0 {
    } else {
        lemma_parse_round_trip_prefix(s, n - 1);
        let m0 = parse_prefix(s, n - 1).0;
        let m1 = parse_prefix(s, n).0;
        let c = s[n - 1];
        let cell = cell_at(s, n - 1);
        lemma_kind_extend(s, n, |c: char| wall_char(c), m0.walls, m1.walls);
        lemma_kind_extend(s, n, |c: char| block_char(c), m0.blocks, m1.blocks);
        lemma_kind_extend(s, n, |c: char| goal_char(c), m0.goals, m1.goals);
        if player_char(c) {
            assert(m1.player == cell);
            assert forall|i: int|
                (0 <= i < n && player_char(s[i]) && (forall|j: int|
                    i < j < n ==> !player_char(#[trigger] s[j]))) implies m1.player == cell_at(
                s,
                i,
            ) by {
                if i < n - 1 {
                    assert(player_char(s[n - 1]));
                }
            }
        } else {
            assert(m1.player == m0.player);
            assert forall|i: int|
                (0 <= i < n && player_char(s[i]) && (forall|j: int|
                    i < j < n ==> !player_char(#[trigger] s[j]))) implies m1.player == cell_at(
                s,
                i,
            ) by {
                assert(i != n - 1);
                assert(forall|j: int| i < j < n - 1 ==> !player_char(#[trigger] s[j]));
            }
        }
    }
}

/// Parsing round-trip: the parsed level's walls, blocks and goals
/// hold exactly the cells whose characters the legend maps to them,
/// and the player stands at the cell of the last player marker, or at
/// the origin when the text has none.
pub proof fn lemma_parse_round_trip(s: Seq<char>)
    ensures
        forall|l: Location|
            #[trigger] parse_spec(s).walls.contains(l) <==> exists|i: int|
                0 <= i < s.len() && wall_char(s[i]) && l == cell_at(s, i),
        forall|l: Location|
            #[trigger] parse_spec(s).blocks.contains(l) <==> exists|i: int|
                0 <= i < s.len() && block_char(s[i]) && l == cell_at(s, i),
        forall|l: Location|
            #[trigger] parse_spec(s).goals.contains(l) <==> exists|i: int|
                0 <= i < s.len() && goal_char(s[i]) && l == cell_at(s, i),
        (forall|i: int| 0 <= i < s.len() ==> !player_char(#[trigger] s[i])) ==> parse_spec(s).player
            == (Location { x: 0, y: 0 }),
        forall|i: int|
            (0 <= i < s.len() && player_char(#[trigger] s[i]) && (forall|j: int|
                i < j < s.len() ==> !player_char(#[trigger] s[j]))) ==> parse_spec(s).player
                == cell_at(s, i),
{
    lemma_parse_round_trip_prefix(s, s.len() as int);
}

/// The level state. Fields are plain data; the methods keep
/// [`GameModel::blocks_distinct`] of the view, and [`GameModel::wf`]
/// whenever it held before.
pub struct Game {
    pub walls: Vec<Location>,
    pub blocks: Vec<Location>,
    pub goals: Vec<Location>,
    pub player: Location,
}

impl View for Game {
    type V = GameModel;

    open spec fn view(&self) -> GameModel {
        GameModel {
            walls: self.walls@,
            blocks: self.blocks@,
            goals: self.goals@,
            player: self.player,
        }
    }
}

fn contains_loc(v: &Vec<Location>, l: Location) -> (r: bool)
    ensures
        r == v@.contains(l),
{
    let mut i: usize = 0;
    while i < v.len()
        invariant
            i <= v@.len(),
            forall|j: int| 0 <= j < i ==> v@[j] != l,
        decreases v@.len() - i,
    {
        if v[i] == l {
            assert(v@.contains(l));
            return true;
        }
        i += 1;
    }
    false
}

fn find_loc(v: &Vec<Location>, l: Location) -> (r: Option<usize>)
    ensures
        match r {
            Some(i) => i < v@.len() && v@[i as int] == l,
            None => !v@.contains(l),
        },
{
    let mut i: usize = 0;
    while i < v.len()
        invariant
            i <= v@.len(),
            forall|j: int| 0 <= j < i ==> v@[j] != l,
        decreases v@.len() - i,
    {
        if v[i] == l {
            return Some(i);
        }
        i += 1;
    }
    None
}

impl Game {
    /// Parse a level description: rows are separated by newlines, and
    /// the character at column `x` of row `y` populates cell `(x, y)`
    /// as [`char_step`] says. No validation is performed; unknown
    /// characters are floor. The length bound keeps every cell
    /// coordinate representable.
    pub fn from_string(s: String) -> (g: Game)
        requires
            s@.len() <= 0x7fff_ffff,
        ensures
            g@ == parse_spec(s@),
            g@.blocks_distinct(),
    {
        let mut walls: Vec<Location> = Vec::new();
        let mut blocks: Vec<Location> = Vec::new();
        let mut goals: Vec<Location> = Vec::new();
        let mut player = Location { x: 0, y: 0 };
        let mut x: i32 = 0;
        let mut y: i32 = 0;
        let n: usize = s.as_str().unicode_len();
        let mut i: usize = 0;
        while i < n
            invariant
                n == s@.len(),
                n <= 0x7fff_ffff,
                i <= n,
                parse_prefix(s@, i as int).0 == (GameModel {
                    walls: walls@,
                    blocks: blocks@,
                    goals: goals@,
                    player: player,
                }),
                parse_prefix(s@, i as int).1 == x,
                parse_prefix(s@, i as int).2 == y,
                0 <= x as int <= i,
                0 <= y as int <= i,
                forall|k: int| 0 <= k < blocks@.len() ==> pos_lt(#[trigger] blocks@[k], x, y),
                distinct_locs(blocks@),
            decreases n - i,
        {
            let c = s.as_str().get_char(i);
            if c == '\n' {
                y = y.wrapping_add(1);
                x = 0;
            } else {
                let loc = Location { x, y };
                if c == 'O' {
                    walls.push(loc);
                } else if c == '.' {
                    goals.push(loc);
                } else if c == 'x' {
                    blocks.push(loc);
                } else if c == 'X' {
                    blocks.push(loc);
                    goals.push(loc);
                } else if c == 'p' {
                    player = loc;
                } else if c == 'P' {
                    goals.push(loc);
                    player = loc;
                }
                x = x.wrapping_add(1);
            }
            i += 1;
        }
        Game { walls, blocks, goals, player }
    }

    /// The example level shipped with the game.
    pub fn example() -> (g: Game)
        ensures
            g@ == parse_spec(
                "  OOOOO \nOOO   O \nO.px  O \nOOO x.O \nO.OOx O \nO O . OO\nOx Xxx.O\nO   .  O\nOOOOOOOO"@,
            ),
            g@.blocks_distinct(),
    {
        proof {
            reveal_strlit(
                "  OOOOO \nOOO   O \nO.px  O \nOOO x.O \nO.OOx O \nO O . OO\nOx Xxx.O\nO   .  O\nOOOOOOOO",
            );
        }
        Game::from_string(
            String::from_str(
                "  OOOOO \nOOO   O \nO.px  O \nOOO x.O \nO.OOx O \nO O . OO\nOx Xxx.O\nO   .  O\nOOOOOOOO",
            ),
        )
    }

    /// Movement legality; see [`GameModel::move_allowed`]. Pure: the
    /// state is not changed.
    pub fn try_move(&self, dir: Direction) -> (legal: bool)
        ensures
            legal == self@.move_allowed(dir),
    {
        let target = self.player.move_to(dir);
        if contains_loc(&self.walls, target) {
            return false;
        }
        if contains_loc(&self.blocks, target) {
            let beyond = target.move_to(dir);
            if contains_loc(&self.walls, beyond) || contains_loc(&self.blocks, beyond) {
                return false;
            }
        }
        true
    }

    /// Apply a move; see [`GameModel::apply_spec`]. An illegal move is
    /// silently absorbed: the state is left unchanged.
    pub fn apply_move(&mut self, dir: Direction)
        requires
            old(self)@.blocks_distinct(),
        ensures
            final(self)@ == old(self)@.apply_spec(dir),
            final(self)@.blocks_distinct(),
            old(self)@.wf() ==> final(self)@.wf(),
    {
        proof {
            lemma_apply_preserves_distinct(old(self)@, dir);
            if old(self)@.wf() {
                lemma_apply_preserves_wf(old(self)@, dir);
            }
        }
        if self.try_move(dir) {
            let target = self.player.move_to(dir);
            let ghost f = |b: Location| if b == target {
                target.move_spec(dir)
            } else {
                b
            };
            match find_loc(&self.blocks, target) {
                Some(idx) => {
                    let beyond = target.move_to(dir);
                    self.blocks[idx] = beyond;
                    proof {
                        assert(self.blocks@ =~= old(self)@.blocks.map_values(f));
                    }
                },
                None => {
                    proof {
                        assert(self.blocks@ =~= old(self)@.blocks.map_values(f));
                    }
                },
            }
            self.player = target;
        }
    }

    /// Handle a click at pixel coordinates `(px, py)`; see
    /// [`GameModel::click_spec`]. Clicks that do not map to an
    /// orthogonally adjacent cell are silently ignored.
    pub fn handle_click(&mut self, px: i32, py: i32, cell_size: i32)
        requires
            old(self)@.blocks_distinct(),
            cell_size > 0,
        ensures
            final(self)@ == old(self)@.click_spec(px, py, cell_size),
            final(self)@.blocks_distinct(),
            old(self)@.wf() ==> final(self)@.wf(),
    {
        let cx = floor_div(px, cell_size);
        let cy = floor_div(py, cell_size);
        let cell = Location { x: cx, y: cy };
        if let Some(dir) = self.player.direction_to(&cell) {
            self.apply_move(dir);
        }
    }

    /// The cells the player could move to right now, in the fixed
    /// direction order Up, Down, Left, Right.
    pub fn valid_moves(&self) -> (r: Vec<Location>)
        ensures
            r@ == self@.valid_moves_spec(),
    {
        let mut result: Vec<Location> = Vec::new();
        if self.try_move(Direction::Up) {
            result.push(self.player.move_to(Direction::Up));
        }
        if self.try_move(Direction::Down) {
            result.push(self.player.move_to(Direction::Down));
        }
        if self.try_move(Direction::Left) {
            result.push(self.player.move_to(Direction::Left));
        }
        if self.try_move(Direction::Right) {
            result.push(self.player.move_to(Direction::Right));
        }
        proof {
            assert(result@ =~= self@.valid_moves_spec());
        }
        result
    }
}

impl Runnable for Game {
    /// Updates need and keep unique block positions.
    open spec fn inv(&self) -> bool {
        self@.blocks_distinct()
    }

    /// One tick transforms the level state as
    /// [`GameModel::update_spec`] says.
    open spec fn steps_to(pre: Game, evt: Option<Event>, post: Game) -> bool {
        post@ == pre@.update_spec(evt)
    }

    /// One simulation tick: handle the event, if one arrived.
    fn update(&mut self, time: &Time, evt: Option<Event>) {
        if let Some(e) = evt {
            match e {
                Event::Click { x, y } => {
                    self.handle_click(x, y, CELL_SIZE as i32);
                },
            }
        }
    }
}

/// A move keeps block positions unique.
pub proof fn lemma_apply_preserves_distinct(m: GameModel, dir: Direction)
    requires
        m.blocks_distinct(),
    ensures
        m.apply_spec(dir).blocks_distinct(),
{
    if m.move_allowed(dir) {
        let target = m.player.move_spec(dir);
        let beyond = target.move_spec(dir);
        let nb = m.apply_spec(dir).blocks;
        assert forall|i: int, j: int| 0 <= i < j < nb.len() implies nb[i] != nb[j] by {
            if m.blocks[i] == target {
                assert(m.blocks[j] != target);
                assert(!m.block_at(beyond));
                assert(m.blocks[j] != beyond);
            } else if m.blocks[j] == target {
                assert(!m.block_at(beyond));
                assert(m.blocks[i] != beyond);
            }
        }
    }
}

/// Invariant preservation: a well-formed state stays well-formed
/// under any move, legal or not; in particular no two blocks ever
/// share a cell and the player never stands on a wall.
pub proof fn lemma_apply_preserves_wf(m: GameModel, dir: Direction)
    requires
        m.wf(),
    ensures
        m.apply_spec(dir).wf(),
{
    lemma_apply_preserves_distinct(m, dir);
    if m.move_allowed(dir) {
        let target = m.player.move_spec(dir);
        let beyond = target.move_spec(dir);
        let nb = m.apply_spec(dir).blocks;
        target.lemma_move_changes_cell(dir);
        m.player.lemma_move_changes_cell(dir);
        assert forall|k: int| 0 <= k < nb.len() implies nb[k] != target by {
            if m.blocks[k] == target {
                assert(nb[k] == beyond);
            }
        }
        assert(!m.apply_spec(dir).block_at(target));
    }
}

/// The state after a whole sequence of moves, applied first to last.
pub open spec fn apply_all(m: GameModel, dirs: Seq<Direction>) -> GameModel
    decreases dirs.len(),
{
    if dirs.len() == 0 {
        m
    } else {
        apply_all(m.apply_spec(dirs[0]), dirs.drop_first())
    }
}

/// Invariant under any sequence of moves: starting well-formed, after
/// arbitrarily many `apply_move` steps no two blocks occupy the same
/// cell and the player never occupies a wall cell.
pub proof fn lemma_wf_after_any_sequence(m: GameModel, dirs: Seq<Direction>)
    requires
        m.wf(),
    ensures
        apply_all(m, dirs).wf(),
    decreases dirs.len(),
{
    if dirs.len() > 0 {
        lemma_apply_preserves_wf(m, dirs[0]);
        lemma_wf_after_any_sequence(m.apply_spec(dirs[0]), dirs.drop_first());
    }
}

/// Movement determinism: when a move is legal, applying it advances
/// the player onto the target cell; when it is not, applying it
/// leaves the state exactly unchanged.
pub proof fn lemma_move_determinism(m: GameModel, dir: Direction)
    ensures
        m.move_allowed(dir) ==> m.apply_spec(dir).player == m.player.move_spec(dir),
        !m.move_allowed(dir) ==> m.apply_spec(dir) == m,
{
}

/// Click mapping: a click whose pixel coordinates floor to a cell one
/// orthogonal step from the player performs exactly the corresponding
/// move; a click on the player's own cell, a diagonal cell, or any
/// farther cell changes nothing.
pub proof fn lemma_click_mapping(m: GameModel, px: i32, py: i32, cell_size: i32)
    ensures
        ({
            let cell = GameModel::click_cell(px, py, cell_size);
            match m.player.direction_to_spec(cell) {
                Some(dir) => m.click_spec(px, py, cell_size) == m.apply_spec(dir),
                None => m.click_spec(px, py, cell_size) == m,
            }
        }),
{
}

/// The push rule. Pushing into a single block with a clear cell
/// beyond it moves the player onto the block's cell and the block one
/// further cell, leaving every other cell's occupancy unchanged;
/// pushing into a block with a second block beyond it is always
/// rejected, whatever lies beyond the second block.
pub proof fn lemma_push_rule(m: GameModel, dir: Direction)
    requires
        m.blocks_distinct(),
        m.block_at(m.player.move_spec(dir)),
    ensures
        ({
            let target = m.player.move_spec(dir);
            let beyond = target.move_spec(dir);
            &&& ((!m.wall_at(target) && !m.wall_at(beyond) && !m.block_at(beyond)) ==> {
                &&& m.move_allowed(dir)
                &&& m.apply_spec(dir).player == target
                &&& m.apply_spec(dir).block_at(beyond)
                &&& !m.apply_spec(dir).block_at(target)
                &&& forall|l: Location|
                    l != target && l != beyond ==> (m.apply_spec(dir).block_at(l) <==> m.block_at(
                        l,
                    ))
            })
            &&& (m.block_at(beyond) ==> !m.move_allowed(dir))
        }),
{
    let target = m.player.move_spec(dir);
    let beyond = target.move_spec(dir);
    if !m.wall_at(target) && !m.wall_at(beyond) && !m.block_at(beyond) {
        let nb = m.apply_spec(dir).blocks;
        let k = choose|k: int| 0 <= k < m.blocks.len() && m.blocks[k] == target;
        assert(nb[k] == beyond);
        assert(nb.contains(beyond));
        assert forall|j: int| 0 <= j < nb.len() implies nb[j] != target by {
            if m.blocks[j] == target {
                assert(nb[j] == beyond);
                assert(beyond != target) by {
                    m.player.lemma_move_changes_cell(dir);
                    target.lemma_move_changes_cell(dir);
                }
            }
        }
        assert forall|l: Location|
            l != target && l != beyond implies (m.apply_spec(dir).block_at(l) <==> m.block_at(
            l,
        )) by {
            if m.apply_spec(dir).block_at(l) {
                let j = choose|j: int| 0 <= j < nb.len() && nb[j] == l;
                assert(m.blocks[j] == l);
                assert(m.block_at(l));
            }
            if m.block_at(l) {
                let j = choose|j: int| 0 <= j < m.blocks.len() && m.blocks[j] == l;
                assert(nb[j] == l);
                assert(nb.contains(l));
            }
        }
    }
}

} // verus!
