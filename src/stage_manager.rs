use vstd::prelude::*;
use crate::coords::TileCoords;
use crate::collision::Collision;
use crate::gate::LogiRegister;
use crate::stage::{Tile, TileKind, StageError, stage_tiles, chars_into_tiles};

verus! {

/// What the engine reads of the current stage.
pub struct StageInfo {
    /// Cells that always block: walls and the outline.
    pub collisions: Collision,
    /// Cells that block only a contracted boxfish: gates and their bits.
    pub semicollisions: Collision,
    /// Every gate bit of the stage.
    pub gates: Vec<LogiRegister>,
    /// The exit cells.
    pub goals: Vec<TileCoords>,
}

/// Whether cell `c` blocks a boxfish that is, or is not, expanded.
pub open spec fn blocks(stage: &StageInfo, expanding: bool, c: TileCoords) -> bool {
    stage.collisions@.contains(c) || (!expanding && stage.semicollisions@.contains(c))
}

/// The cells of the walls and the outline among `t`, in order.
pub open spec fn wall_cells(t: Seq<Tile>) -> Seq<TileCoords>
    decreases t.len(),
{
    if t.len() == 0 {
        seq![]
    } else {
        let p = wall_cells(t.drop_last());
        match t.last().kind {
            TileKind::Wall | TileKind::Outline => p.push(t.last().coords),
            _ => p,
        }
    }
}

/// The cells of the gates and their bits among `t`, in order.
pub open spec fn semi_cells(t: Seq<Tile>) -> Seq<TileCoords>
    decreases t.len(),
{
    if t.len() == 0 {
        seq![]
    } else {
        let p = semi_cells(t.drop_last());
        match t.last().kind {
            TileKind::Gate { .. } | TileKind::Bit { .. } => p.push(t.last().coords),
            _ => p,
        }
    }
}

/// The bits of gates among `t`, in order.
pub open spec fn gate_bits(t: Seq<Tile>) -> Seq<LogiRegister>
    decreases t.len(),
{
    if t.len() == 0 {
        seq![]
    } else {
        let p = gate_bits(t.drop_last());
        match t.last().kind {
            TileKind::Bit { boolean, logikind } => p.push(
                LogiRegister { coords: t.last().coords, boolean, logikind },
            ),
            _ => p,
        }
    }
}

/// The exit cells among `t`, in order.
pub open spec fn goal_cells(t: Seq<Tile>) -> Seq<TileCoords>
    decreases t.len(),
{
    if t.len() == 0 {
        seq![]
    } else {
        let p = goal_cells(t.drop_last());
        match t.last().kind {
            TileKind::Goal => p.push(t.last().coords),
            _ => p,
        }
    }
}

/// The stage information of a set of tiles: the blocking cells, the cells that
/// block a contracted boxfish only, the bits of gates and the exits.
pub fn analyse_stage(tiles: &Vec<Tile>) -> (r: StageInfo)
    ensures
        r.collisions@ == wall_cells(tiles@),
        r.semicollisions@ == semi_cells(tiles@),
        r.gates@ == gate_bits(tiles@),
        r.goals@ == goal_cells(tiles@),
{
    let mut walls: Vec<TileCoords> = Vec::new();
    let mut semis: Vec<TileCoords> = Vec::new();
    let mut gates: Vec<LogiRegister> = Vec::new();
    let mut goals: Vec<TileCoords> = Vec::new();
    let mut i: usize = 0;
    while i < tiles.len()
        invariant
            0 <= i <= tiles@.len(),
            walls@ == wall_cells(tiles@.take(i as int)),
            semis@ == semi_cells(tiles@.take(i as int)),
            gates@ == gate_bits(tiles@.take(i as int)),
            goals@ == goal_cells(tiles@.take(i as int)),
        decreases tiles.len() - i,
    {
        assert(tiles@.take(i + 1).drop_last() =~= tiles@.take(i as int));
        let t = tiles[i];
        match t.kind {
            TileKind::Wall | TileKind::Outline => walls.push(t.coords),
            TileKind::Gate { .. } => semis.push(t.coords),
            TileKind::Bit { boolean, logikind } => {
                semis.push(t.coords);
                gates.push(LogiRegister { coords: t.coords, boolean, logikind });
            },
            TileKind::Goal => goals.push(t.coords),
        }
        i = i + 1;
    }
    assert(tiles@.take(tiles@.len() as int) =~= tiles@);
    StageInfo {
        collisions: Collision::from(walls),
        semicollisions: Collision::from(semis),
        gates,
        goals,
    }
}

/// A stage as it is loaded: its name, its text, where the boxfish starts and
/// the bits it starts with.
pub struct ConstructAquarium {
    pub stage_name: String,
    pub content: String,
    pub player_origin: TileCoords,
    pub player_defaultbits: Vec<bool>,
}

/// Builds the stage information from the text of a stage.
pub fn parse_stage(content: &str) -> (r: Result<StageInfo, StageError>)
    ensures
        match stage_tiles(content@) {
            Ok(t) => r matches Ok(info) && info.collisions@ == wall_cells(t)
                && info.semicollisions@ == semi_cells(t) && info.gates@ == gate_bits(t)
                && info.goals@ == goal_cells(t),
            Err(e) => r matches Err(f) && f == e,
        },
{
    match chars_into_tiles(content) {
        Ok(tiles) => Ok(analyse_stage(&tiles)),
        Err(e) => Err(e),
    }
}

/// The order of the stages and which one is being played.
pub struct StageManager {
    pub stages: Vec<String>,
    pub index: usize,
}

impl StageManager {
    /// A manager over `stages`, at the first one.
    pub fn setup_stage_manager(stages: Vec<String>) -> (r: StageManager)
        ensures
            r.stages@ == stages@,
            r.index == 0,
    {
        StageManager { stages, index: 0 }
    }

    /// Starts over from the first stage; returns its text, if there is one.
    pub fn new_game(&mut self) -> (r: Option<&String>)
        ensures
            final(self).index == 0,
            final(self).stages@ == old(self).stages@,
            old(self).stages@.len() == 0 <==> r is None,
            r matches Some(s) ==> *s == old(self).stages@[0],
    {
        self.index = 0;
        if self.stages.len() == 0 {
            None
        } else {
            Some(&self.stages[0])
        }
    }

    /// The text of the stage being played, to start it over.
    pub fn current_stage(&self) -> (r: Option<&String>)
        ensures
            self.index < self.stages@.len() ==> r == Some(&self.stages@[self.index as int]),
            self.index >= self.stages@.len() ==> r is None,
    {
        if self.index < self.stages.len() {
            Some(&self.stages[self.index])
        } else {
            None
        }
    }

    /// Moves on to the next stage and returns its text; `None` once the last
    /// stage is cleared, which ends the game.
    pub fn call_next_aquarium(&mut self) -> (r: Option<&String>)
        ensures
            final(self).stages@ == old(self).stages@,
            old(self).index + 1 < old(self).stages@.len() ==> final(self).index == old(self).index
                + 1 && r == Some(&old(self).stages@[old(self).index + 1]),
            old(self).index + 1 >= old(self).stages@.len() ==> final(self).index == old(
                self,
            ).index && r is None,
    {
        if self.index < self.stages.len() && self.index + 1 < self.stages.len() {
            self.index = self.index + 1;
            Some(&self.stages[self.index])
        } else {
            None
        }
    }
}

} // verus!
