use vstd::prelude::*;
use crate::coords::TileCoords;
use crate::collision::{is_first_hit, crosses};
use crate::travel::{Direction, Travel, abs, route, route_fits, destination, along, sign};
use crate::gate::{
    BoxfishRegister, LogiKind, LogiRegister, apply_gate, run_gates, first_mismatch, gates_crossed, undone,
    process_gate_effect_for_each_bit,
};
use crate::stage_manager::{StageInfo, blocks};

verus! {

/// How many frames the bounce after a blocked move lasts.
pub const BOUNCE_FRAMES: u32 = 32;

/// The head of the boxfish: where it stands, whether it is expanded, and
/// where it stood before each accepted move, most recent last.
#[derive(Debug)]
pub struct Head {
    pub tile: TileCoords,
    pub is_expanding: bool,
    pub history: Vec<TileCoords>,
}

/// The expansion in progress: how far behind the head the first wall lies,
/// if one lies within reach of the body.
#[derive(Clone, Copy, PartialEq, Eq, Structural, Debug)]
pub struct Expanding {
    pub collided_at: Option<u32>,
}

/// A bounce along `travel`, `progress` frames in.
#[derive(Clone, Copy, PartialEq, Eq, Structural, Debug)]
pub struct PlayerCollidedAnimation {
    pub travel: Travel,
    pub progress: u32,
}

/// The motion of the head between tiles.
#[derive(Clone, Copy, PartialEq, Eq, Structural, Debug)]
pub enum Motion {
    /// The head rests on its tile and reads input.
    Settled,
    /// The head is moving towards its tile.
    Interpolating,
    /// The head bounces back from a blocked move.
    Collided(PlayerCollidedAnimation),
}

/// What a frame's directional input led to.
#[derive(Clone, Copy, PartialEq, Eq, Structural, Debug)]
pub enum MoveOutcome {
    /// No input, or the head was not resting: nothing changed.
    Idle,
    /// The sweep was blocked: the head bounces and stays.
    Blocked,
    /// The move was taken.
    Moved,
    /// A register failed the EQUAL gate at this cell: the move was undone as a whole.
    Vetoed(TileCoords),
}

/// The step counter shown on the result screen.
#[derive(Clone, Copy, PartialEq, Eq, Structural, Debug)]
pub struct ResultManager {
    pub steps: u32,
}

impl ResultManager {
    pub fn new() -> (r: ResultManager)
        ensures
            r.steps == 0,
    {
        ResultManager { steps: 0 }
    }

    /// Starts the count over for a new game.
    pub fn reset_result(&mut self)
        ensures
            final(self).steps == 0,
    {
        self.steps = 0;
    }

    /// Counts one move.
    pub fn step_counter(&mut self)
        requires
            old(self).steps < u32::MAX,
        ensures
            final(self).steps == old(self).steps + 1,
    {
        self.steps = self.steps + 1;
    }
}

/// The player's avatar: a head, a row of registers behind it along negative
/// x, and a tail after the last register.
#[derive(Debug)]
pub struct Boxfish {
    pub head: Head,
    pub registers: Vec<BoxfishRegister>,
    pub expanding: Option<Expanding>,
    pub motion: Motion,
}

/// The values of a row of registers.
pub open spec fn regs_view(v: Seq<BoxfishRegister>) -> Seq<(bool, Seq<bool>)> {
    v.map_values(|r: BoxfishRegister| r@)
}

/// A head at `head` can carry `n` registers and a tail: the count of
/// registers fits in an `i32` travel, and every cell from the head to one
/// past the tail has an x that fits in an `i32`.
pub open spec fn body_fits(head: TileCoords, n: int) -> bool {
    &&& 0 <= n <= i32::MAX
    &&& i32::MIN <= head.x - n - 2
}

/// The destination of `travel` from `head` fits in an `i32`, and a body of
/// `n` registers fits behind it.
pub open spec fn move_fits(head: TileCoords, n: int, travel: Travel) -> bool {
    route_fits(head, travel) && body_fits(destination(head, travel), n)
}

/// The cell `i` tiles behind `head`.
pub open spec fn behind(head: TileCoords, i: int) -> TileCoords {
    TileCoords { x: (head.x - i) as i32, y: head.y }
}

/// How many cells behind the head the movement sweep checks: the whole body
/// when expanded; the register and tail right behind the head otherwise.
pub open spec fn body_length(expanding: bool, n: int) -> int {
    if expanding {
        1 + n
    } else {
        2
    }
}

/// The route of `travel` from `origin` crosses a cell that blocks.
pub open spec fn sweep_hits(stage: &StageInfo, expanding: bool, origin: TileCoords, travel: Travel) -> bool {
    exists|k: int|
        0 <= k < abs(travel.amount as int) && blocks(stage, expanding, #[trigger] route(origin, travel)[k])
}

/// Some cell of the body, from the head to `body_length` behind it, would
/// cross a blocking cell on `travel`.
pub open spec fn sweep_blocked(
    stage: &StageInfo,
    expanding: bool,
    head: TileCoords,
    n: int,
    travel: Travel,
) -> bool {
    exists|i: int|
        0 <= i <= body_length(expanding, n) && #[trigger] sweep_hits(
            stage,
            expanding,
            behind(head, i),
            travel,
        )
}

/// The registers after each has passed the gates it crosses on `travel`.
pub open spec fn moved_registers(
    regs: Seq<(bool, Seq<bool>)>,
    gates: Seq<LogiRegister>,
    head: TileCoords,
    travel: Travel,
) -> Seq<(bool, Seq<bool>)> {
    Seq::new(regs.len(), |i: int| run_gates(regs[i], gates_crossed(gates, head, i, travel)))
}

/// The first EQUAL gate failed on `travel` by one of the first `m` registers,
/// register by register.
pub open spec fn move_veto(
    regs: Seq<(bool, Seq<bool>)>,
    gates: Seq<LogiRegister>,
    head: TileCoords,
    travel: Travel,
    m: int,
) -> Option<TileCoords>
    decreases m,
{
    if m <= 0 {
        None
    } else {
        let p = move_veto(regs, gates, head, travel, m - 1);
        if p is Some {
            p
        } else {
            first_mismatch(regs[m - 1], gates_crossed(gates, head, m - 1, travel))
        }
    }
}

/// How far behind the head segment `bit_iter` of a body of `n` registers
/// rests: the tail is segment `n`.
pub open spec fn ideal_offset(expanding: Option<Expanding>, n: int, bit_iter: int) -> int {
    match expanding {
        None => if bit_iter == n {
            2
        } else {
            1
        },
        Some(e) => match e.collided_at {
            None => bit_iter + 1,
            Some(d) => if bit_iter == n {
                if d - 1 < bit_iter + 1 {
                    d - 1
                } else {
                    bit_iter + 1
                }
            } else {
                let limit = if d >= 2 {
                    d - 2
                } else {
                    0
                };
                if limit < bit_iter + 1 {
                    limit
                } else {
                    bit_iter + 1
                }
            },
        },
    }
}

/// The sweep behind the head, over the body and one cell past the tail, that
/// finds the wall an expansion runs into.
pub open spec fn expansion_travel(n: int) -> Travel {
    Travel { direction: Direction::X, amount: -(n + 1) as i32 }
}

/// Whether a boxfish of `n` registers can stand at `head`.
pub fn fits_body(head: TileCoords, n: usize) -> (r: bool)
    ensures
        r == body_fits(head, n as int),
{
    n <= i32::MAX as usize && head.x as i64 - n as i64 - 2 >= i32::MIN as i64
}

impl Boxfish {
    /// Every cell of the boxfish, and of each tile it has stood on, fits in an
    /// `i32`, and its expansion state is coherent.
    pub open spec fn wf(&self) -> bool {
        &&& body_fits(self.head.tile, self.registers@.len() as int)
        &&& self.head.is_expanding == self.expanding is Some
        &&& self.expanding matches Some(e) ==> (e.collided_at matches Some(d) ==> 1 <= d
            <= self.registers@.len() + 1)
        &&& forall|k: int|
            0 <= k < self.head.history@.len() ==> body_fits(
                #[trigger] self.head.history@[k],
                self.registers@.len() as int,
            )
    }

    /// A boxfish at the origin with no registers, resting and contracted.
    pub fn spawn_boxfishs_head() -> (r: Boxfish)
        ensures
            r.wf(),
            r.head.tile == (TileCoords { x: 0, y: 0 }),
            !r.head.is_expanding,
            r.head.history@.len() == 0,
            r.registers@.len() == 0,
            r.motion == Motion::Settled,
    {
        Boxfish {
            head: Head { tile: TileCoords { x: 0, y: 0 }, is_expanding: false, history: Vec::new() },
            registers: Vec::new(),
            expanding: None,
            motion: Motion::Settled,
        }
    }

    /// Places the boxfish on a just loaded stage: at `player_origin`, with one
    /// register per bit of `player_defaultbits`, contracted, resting, and with
    /// every history cleared.
    pub fn update_player_to_just_loaded_stage(
        &mut self,
        player_origin: TileCoords,
        player_defaultbits: &Vec<bool>,
    )
        requires
            body_fits(player_origin, player_defaultbits@.len() as int),
        ensures
            final(self).wf(),
            final(self).head.tile == player_origin,
            !final(self).head.is_expanding,
            final(self).head.history@.len() == 0,
            final(self).motion == Motion::Settled,
            final(self).registers@.len() == player_defaultbits@.len(),
            forall|i: int|
                0 <= i < player_defaultbits@.len() ==> (#[trigger] final(self).registers@[i])@ == (
                    player_defaultbits@[i],
                    Seq::<bool>::empty(),
                ),
    {
        let mut regs: Vec<BoxfishRegister> = Vec::new();
        let mut i: usize = 0;
        while i < player_defaultbits.len()
            invariant
                0 <= i <= player_defaultbits@.len(),
                regs@.len() == i,
                forall|j: int|
                    0 <= j < i ==> (#[trigger] regs@[j])@ == (
                        player_defaultbits@[j],
                        Seq::<bool>::empty(),
                    ),
            decreases player_defaultbits.len() - i,
        {
            regs.push(BoxfishRegister::new(player_defaultbits[i]));
            i = i + 1;
        }
        self.head = Head { tile: player_origin, is_expanding: false, history: Vec::new() };
        self.registers = regs;
        self.expanding = None;
        self.motion = Motion::Settled;
    }

    /// The registers after each has passed the gates it crosses when the head,
    /// which stood at `head_coord_before_move`, makes `travel`, together with
    /// the first EQUAL gate failed, register by register. The boxfish itself
    /// is left as it is, so that a failed move can be dropped whole.
    pub fn process_gate_effect(
        &self,
        head_coord_before_move: TileCoords,
        gates: &Vec<LogiRegister>,
        travel: &Travel,
    ) -> (r: (Vec<BoxfishRegister>, Option<TileCoords>))
        requires
            body_fits(head_coord_before_move, self.registers@.len() as int),
            route_fits(head_coord_before_move, *travel),
            travel.is_step(),
        ensures
            regs_view(r.0@) == moved_registers(
                regs_view(self.registers@),
                gates@,
                head_coord_before_move,
                *travel,
            ),
            r.1 == move_veto(
                regs_view(self.registers@),
                gates@,
                head_coord_before_move,
                *travel,
                self.registers@.len() as int,
            ),
    {
        let ghost regs = regs_view(self.registers@);
        let mut out: Vec<BoxfishRegister> = Vec::new();
        let mut veto: Option<TileCoords> = None;
        let mut i: usize = 0;
        while i < self.registers.len()
            invariant
                0 <= i <= self.registers@.len(),
                regs == regs_view(self.registers@),
                body_fits(head_coord_before_move, self.registers@.len() as int),
                route_fits(head_coord_before_move, *travel),
                travel.is_step(),
                out@.len() == i,
                forall|j: int|
                    0 <= j < i ==> (#[trigger] out@[j])@ == run_gates(
                        regs[j],
                        gates_crossed(gates@, head_coord_before_move, j, *travel),
                    ),
                veto == move_veto(regs, gates@, head_coord_before_move, *travel, i as int),
            decreases self.registers.len() - i,
        {
            let mut bit = self.registers[i].duplicate();
            let failed = process_gate_effect_for_each_bit(
                i as u32,
                head_coord_before_move,
                gates,
                travel,
                &mut bit,
            );
            out.push(bit);
            if veto.is_none() {
                veto = failed;
            }
            i = i + 1;
        }
        assert(regs_view(out@) =~= moved_registers(regs, gates@, head_coord_before_move, *travel));
        (out, veto)
    }

    /// Takes the directional input of a frame. While the head rests and the
    /// input is not zero: the move is blocked when some cell from the head to
    /// `body_length` behind it would cross a blocking cell, or when the new
    /// tile or the body behind it would have a coordinate beyond the `i32`
    /// range; the boxfish then bounces and stays. Otherwise
    /// every register passes the gates it crosses; when one fails an EQUAL
    /// gate the move is dropped as a whole and the boxfish stays as it was;
    /// else the head moves, its former tile is recorded, and it starts moving
    /// towards the new one. A move that is not blocked is counted, vetoed or not.
    pub fn boxfish_moving(
        &mut self,
        stage: &StageInfo,
        travel: &Travel,
        result: &mut ResultManager,
    ) -> (r: MoveOutcome)
        requires
            old(self).wf(),
            travel.is_step(),
            old(result).steps < u32::MAX,
        ensures
            final(self).wf(),
            ({
                let s = old(self);
                let n = s.registers@.len() as int;
                let exp = s.head.is_expanding;
                let dest = destination(s.head.tile, *travel);
                let regs = regs_view(s.registers@);
                if s.motion != Motion::Settled || travel.amount == 0 {
                    r == MoveOutcome::Idle && *final(self) == *s && *final(result) == *old(result)
                } else if !move_fits(s.head.tile, n, *travel) || sweep_blocked(
                    stage,
                    exp,
                    s.head.tile,
                    n,
                    *travel,
                ) {
                    &&& r == MoveOutcome::Blocked
                    &&& final(self).motion == Motion::Collided(
                        PlayerCollidedAnimation { travel: *travel, progress: 0 },
                    )
                    &&& final(self).head == s.head
                    &&& final(self).registers == s.registers
                    &&& final(self).expanding == s.expanding
                    &&& *final(result) == *old(result)
                } else if let Some(at) = move_veto(regs, stage.gates@, s.head.tile, *travel, n) {
                    r == MoveOutcome::Vetoed(at) && *final(self) == *s && final(result).steps
                        == old(result).steps + 1
                } else {
                    &&& r == MoveOutcome::Moved
                    &&& final(self).head.tile == dest
                    &&& final(self).head.history@ == s.head.history@.push(s.head.tile)
                    &&& final(self).head.is_expanding == exp
                    &&& regs_view(final(self).registers@) == moved_registers(
                        regs,
                        stage.gates@,
                        s.head.tile,
                        *travel,
                    )
                    &&& final(self).expanding == s.expanding
                    &&& final(self).motion == Motion::Interpolating
                    &&& final(result).steps == old(result).steps + 1
                }
            }),
    {
        if self.motion != Motion::Settled || travel.amount == 0 {
            return MoveOutcome::Idle;
        }
        let n = self.registers.len();
        let expanding = self.head.is_expanding;
        let head = self.head.tile;
        let (dx, dy) = travel.into_ivec2();
        let dest_x = head.x as i64 + dx as i64;
        let dest_y = head.y as i64 + dy as i64;
        if dest_x < i32::MIN as i64 || dest_x > i32::MAX as i64 || dest_y < i32::MIN as i64
            || dest_y > i32::MAX as i64 || dest_x - n as i64 - 2 < i32::MIN as i64 {
            self.motion = Motion::Collided(PlayerCollidedAnimation { travel: *travel, progress: 0 });
            return MoveOutcome::Blocked;
        }
        let dest = TileCoords { x: dest_x as i32, y: dest_y as i32 };
        assert(dest == destination(head, *travel));
        let len: usize = if expanding {
            1 + n
        } else {
            2
        };
        let collision = if !expanding {
            stage.collisions.clone().add(stage.semicollisions.clone())
        } else {
            stage.collisions.clone()
        };
        assert(forall|c: TileCoords| collision@.contains(c) <==> blocks(stage, expanding, c));
        let mut was_collided = false;
        let mut i: usize = 0;
        while i <= len
            invariant
                0 <= i <= len + 1,
                len == body_length(expanding, n as int),
                n == self.registers@.len(),
                body_fits(head, n as int),
                move_fits(head, n as int, *travel),
                travel.is_step(),
                forall|c: TileCoords| collision@.contains(c) <==> blocks(stage, expanding, c),
                was_collided == exists|j: int|
                    0 <= j < i && #[trigger] sweep_hits(stage, expanding, behind(head, j), *travel),
            decreases len + 1 - i,
        {
            let origin = TileCoords { x: (head.x as i64 - i as i64) as i32, y: head.y };
            assert(origin == behind(head, i as int));
            let hit = collision.do_collide(&origin, travel);
            assert(hit == sweep_hits(stage, expanding, origin, *travel)) by {
                if hit {
                    let k = choose|k: int|
                        0 <= k < route(origin, *travel).len() && collision@.contains(
                            #[trigger] route(origin, *travel)[k],
                        );
                    assert(blocks(stage, expanding, route(origin, *travel)[k]));
                }
                if sweep_hits(stage, expanding, origin, *travel) {
                    let k = choose|k: int|
                        0 <= k < abs(travel.amount as int) && blocks(
                            stage,
                            expanding,
                            #[trigger] route(origin, *travel)[k],
                        );
                    assert(collision@.contains(route(origin, *travel)[k]));
                }
            }
            was_collided = was_collided || hit;
            i = i + 1;
        }
        if was_collided {
            self.motion = Motion::Collided(PlayerCollidedAnimation { travel: *travel, progress: 0 });
            return MoveOutcome::Blocked;
        }
        let (moved, veto) = self.process_gate_effect(head, &stage.gates, travel);
        result.step_counter();
        if let Some(at) = veto {
            return MoveOutcome::Vetoed(at);
        }
        assert(regs_view(moved@).len() == moved@.len());
        assert(moved@.len() == n);
        self.registers = moved;
        self.head.tile = dest;
        self.head.history.push(head);
        self.motion = Motion::Interpolating;
        MoveOutcome::Moved
    }

    /// Takes the last move back: the head returns to its last recorded tile,
    /// and every register, on its own, to its last recorded value. Empty
    /// histories leave their part as it is; the step counter is not touched.
    pub fn undo(&mut self)
        requires
            old(self).wf(),
        ensures
            final(self).wf(),
            old(self).head.history@.len() > 0 ==> final(self).head.tile == old(
                self,
            ).head.history@.last() && final(self).head.history@ == old(
                self,
            ).head.history@.drop_last(),
            old(self).head.history@.len() == 0 ==> final(self).head.tile == old(self).head.tile
                && final(self).head.history@ == old(self).head.history@,
            final(self).head.is_expanding == old(self).head.is_expanding,
            regs_view(final(self).registers@) == regs_view(old(self).registers@).map_values(
                |s: (bool, Seq<bool>)| undone(s),
            ),
            final(self).expanding == old(self).expanding,
            final(self).motion == old(self).motion,
    {
        match self.head.history.pop() {
            Some(last) => {
                self.head.tile = last;
            },
            None => {},
        }
        let ghost regs = regs_view(self.registers@);
        let mut out: Vec<BoxfishRegister> = Vec::new();
        let mut i: usize = 0;
        while i < self.registers.len()
            invariant
                0 <= i <= self.registers@.len(),
                regs == regs_view(self.registers@),
                out@.len() == i,
                forall|j: int| 0 <= j < i ==> (#[trigger] out@[j])@ == undone(regs[j]),
            decreases self.registers.len() - i,
        {
            let mut bit = self.registers[i].duplicate();
            bit.undo();
            out.push(bit);
            i = i + 1;
        }
        assert(regs_view(out@) =~= regs.map_values(|s: (bool, Seq<bool>)| undone(s)));
        self.registers = out;
    }

    /// Starts expanding: looks behind the head, over the body and one cell past
    /// the tail, for the first wall, and records how far behind the head it lies.
    pub fn get_expand_input(&mut self, stage: &StageInfo)
        requires
            old(self).wf(),
        ensures
            final(self).wf(),
            final(self).head.tile == old(self).head.tile,
            final(self).head.history@ == old(self).head.history@,
            final(self).head.is_expanding,
            final(self).registers == old(self).registers,
            final(self).motion == old(self).motion,
            final(self).expanding matches Some(e) && ({
                let rt = route(
                    old(self).head.tile,
                    expansion_travel(old(self).registers@.len() as int),
                );
                match e.collided_at {
                    None => !crosses(stage.collisions@, rt),
                    Some(d) => is_first_hit(stage.collisions@, rt, d - 1),
                }
            }),
    {
        let n = self.registers.len();
        let head = self.head.tile;
        let travel = Travel { direction: Direction::X, amount: (-(n as i64) - 1) as i32 };
        assert(travel == expansion_travel(n as int));
        let collided_at = match stage.collisions.collide_at(&head, &travel) {
            Some(at) => {
                let ghost rt = route(head, travel);
                proof {
                    let k = choose|k: int| is_first_hit(stage.collisions@, rt, k) && rt[k] == at;
                    assert(sign(travel.amount as int) == -1);
                    assert(rt[k] == along(head, travel, -(k + 1)));
                    assert(at.x == head.x - (k + 1));
                }
                Some((head.x as i64 - at.x as i64) as u32)
            },
            None => None,
        };
        self.expanding = Some(Expanding { collided_at });
        self.head.is_expanding = true;
    }

    /// Stops expanding: the body draws back behind the head.
    pub fn end_expansion(&mut self)
        requires
            old(self).wf(),
        ensures
            final(self).wf(),
            final(self).head.tile == old(self).head.tile,
            final(self).head.history@ == old(self).head.history@,
            !final(self).head.is_expanding,
            final(self).expanding is None,
            final(self).registers == old(self).registers,
            final(self).motion == old(self).motion,
    {
        self.expanding = None;
        self.head.is_expanding = false;
    }

    /// How many tiles behind the head segment `bit_iter` comes to rest; the
    /// tail is the segment after the last register. Contracted, registers rest
    /// right behind the head and the tail one further. Expanded, segment `i`
    /// stretches to `i + 1` tiles, unless a wall stops the body: then the tail
    /// stops next to the wall and the registers before the tail.
    pub fn segment_ideal_offset(&self, bit_iter: u32) -> (r: u32)
        requires
            self.wf(),
            bit_iter <= self.registers@.len(),
        ensures
            r == ideal_offset(self.expanding, self.registers@.len() as int, bit_iter as int),
    {
        let n = self.registers.len() as u32;
        match self.expanding {
            None => if bit_iter == n {
                2
            } else {
                1
            },
            Some(e) => match e.collided_at {
                None => bit_iter + 1,
                Some(d) => if bit_iter == n {
                    if d - 1 < bit_iter + 1 {
                        d - 1
                    } else {
                        bit_iter + 1
                    }
                } else {
                    let limit: u32 = if d >= 2 {
                        d - 2
                    } else {
                        0
                    };
                    if limit < bit_iter + 1 {
                        limit
                    } else {
                        bit_iter + 1
                    }
                },
            },
        }
    }

    /// Called once the tail has come to rest while expanding. When a wall
    /// stopped the body, the expansion is called off and the boxfish recoils
    /// forward, startled; returns whether it did.
    pub fn on_expanding(&mut self) -> (r: bool)
        requires
            old(self).wf(),
        ensures
            final(self).wf(),
            r == (old(self).expanding matches Some(e) && e.collided_at is Some),
            r ==> !final(self).head.is_expanding && final(self).expanding is None
                && final(self).motion == Motion::Collided(
                PlayerCollidedAnimation {
                    travel: Travel { direction: Direction::X, amount: 1 },
                    progress: 0,
                },
            ),
            !r ==> final(self).expanding == old(self).expanding && final(self).head.is_expanding
                == old(self).head.is_expanding && final(self).motion == old(self).motion,
            final(self).head.tile == old(self).head.tile,
            final(self).head.history@ == old(self).head.history@,
            final(self).registers == old(self).registers,
    {
        match self.expanding {
            Some(e) => match e.collided_at {
                Some(_) => {
                    self.expanding = None;
                    self.head.is_expanding = false;
                    self.motion = Motion::Collided(
                        PlayerCollidedAnimation {
                            travel: Travel { direction: Direction::X, amount: 1 },
                            progress: 0,
                        },
                    );
                    true
                },
                None => false,
            },
            None => false,
        }
    }

    /// The head has reached its tile.
    pub fn arrive(&mut self)
        ensures
            final(self).motion == (if old(self).motion == Motion::Interpolating {
                Motion::Settled
            } else {
                old(self).motion
            }),
            final(self).head == old(self).head,
            final(self).registers == old(self).registers,
            final(self).expanding == old(self).expanding,
    {
        if self.motion == Motion::Interpolating {
            self.motion = Motion::Settled;
        }
    }

    /// Advances the bounce by one frame. Returns the frame to show (the
    /// travel bounced against and how many frames in) while it lasts; once
    /// `BOUNCE_FRAMES` frames have passed the head rests again.
    pub fn collided_animation(&mut self) -> (r: Option<PlayerCollidedAnimation>)
        ensures
            final(self).head == old(self).head,
            final(self).registers == old(self).registers,
            final(self).expanding == old(self).expanding,
            match old(self).motion {
                Motion::Collided(a) => if a.progress >= BOUNCE_FRAMES {
                    r is None && final(self).motion == Motion::Settled
                } else {
                    r == Some(a) && final(self).motion == Motion::Collided(
                        PlayerCollidedAnimation { travel: a.travel, progress: (a.progress + 1) as u32 },
                    )
                },
                _ => r is None && final(self).motion == old(self).motion,
            },
    {
        match self.motion {
            Motion::Collided(a) => {
                if a.progress >= BOUNCE_FRAMES {
                    self.motion = Motion::Settled;
                    None
                } else {
                    self.motion = Motion::Collided(
                        PlayerCollidedAnimation { travel: a.travel, progress: a.progress + 1 },
                    );
                    Some(a)
                }
            },
            _ => None,
        }
    }

    /// Which face the head shows: startled while bouncing, straining while
    /// expanded, calm otherwise.
    pub fn face_manager(&self) -> (r: u32)
        ensures
            r == (if self.motion is Collided {
                2u32
            } else if self.head.is_expanding {
                1u32
            } else {
                0u32
            }),
    {
        match self.motion {
            Motion::Collided(_) => 2,
            _ => if self.head.is_expanding {
                1
            } else {
                0
            },
        }
    }

    /// The boxfish lies on `c`: on the head or the register and tail right
    /// behind it when contracted, anywhere along the body when expanded.
    pub open spec fn occupies(&self, c: TileCoords) -> bool {
        exists|i: int|
            0 <= i <= (if self.head.is_expanding {
                self.registers@.len() as int
            } else {
                1
            }) && #[trigger] behind(self.head.tile, i) == c
    }

    /// Whether the boxfish lies on one of the goals.
    pub fn goal_detection_system(&self, goals: &Vec<TileCoords>) -> (r: bool)
        requires
            self.wf(),
        ensures
            r == exists|g: int| 0 <= g < goals@.len() && self.occupies(#[trigger] goals@[g]),
    {
        let last: usize = if self.head.is_expanding {
            self.registers.len()
        } else {
            1
        };
        let mut g: usize = 0;
        while g < goals.len()
            invariant
                0 <= g <= goals@.len(),
                self.wf(),
                last == (if self.head.is_expanding {
                    self.registers@.len() as int
                } else {
                    1
                }),
                forall|h: int| 0 <= h < g ==> !self.occupies(#[trigger] goals@[h]),
            decreases goals.len() - g,
        {
            let goal = goals[g];
            let mut i: usize = 0;
            while i <= last
                invariant
                    0 <= i <= last + 1,
                    last == (if self.head.is_expanding {
                        self.registers@.len() as int
                    } else {
                        1
                    }),
                    self.wf(),
                    g < goals@.len(),
                    goal == goals@[g as int],
                    forall|j: int| 0 <= j < i ==> behind(self.head.tile, j) != goal,
                decreases last + 1 - i,
            {
                let c = TileCoords { x: self.head.tile.x - i as i32, y: self.head.tile.y };
                assert(c == behind(self.head.tile, i as int));
                if c == goal {
                    assert(0 <= i <= (if self.head.is_expanding {
                        self.registers@.len() as int
                    } else {
                        1
                    }) && behind(self.head.tile, i as int) == goals@[g as int]);
                    assert(self.occupies(goals@[g as int]));
                    return true;
                }
                i = i + 1;
            }
            assert(!self.occupies(goals@[g as int]));
            g = g + 1;
        }
        false
    }
}

/// A gate that records the value it changes: AND, OR, XOR, and NOT when its
/// own bit is set.
pub open spec fn records(g: LogiRegister) -> bool {
    match g.logikind {
        LogiKind::And | LogiKind::Or | LogiKind::Xor => true,
        LogiKind::Not => g.boolean,
        _ => false,
    }
}

/// Undoing an accepted move brings the head back to the tile it left, and
/// brings back the value of every register that crossed exactly one gate on
/// the move, that gate being one that records what it changes (an AND gate,
/// for one).
pub proof fn lemma_undo_round_trip(
    regs: Seq<(bool, Seq<bool>)>,
    gates: Seq<LogiRegister>,
    head: TileCoords,
    travel: Travel,
    history: Seq<TileCoords>,
    i: int,
)
    requires
        0 <= i < regs.len(),
        gates_crossed(gates, head, i, travel).len() == 1,
        records(gates_crossed(gates, head, i, travel)[0]),
    ensures
        history.push(head).last() == head,
        history.push(head).drop_last() == history,
        undone(moved_registers(regs, gates, head, travel)[i]) == regs[i],
{
    let gs = gates_crossed(gates, head, i, travel);
    assert(gs.drop_last() =~= Seq::<LogiRegister>::empty());
    assert(run_gates(regs[i], gs.drop_last()) == regs[i]);
    assert(run_gates(regs[i], gs) == apply_gate(regs[i], gs[0]));
    assert(moved_registers(regs, gates, head, travel)[i] == run_gates(regs[i], gs));
    assert(history.push(head).drop_last() =~= history);
    assert(regs[i].1.push(regs[i].0).drop_last() =~= regs[i].1);
}

/// Undo with every history empty leaves every register as it is.
pub proof fn lemma_undo_empty_is_noop(regs: Seq<(bool, Seq<bool>)>)
    requires
        forall|i: int| 0 <= i < regs.len() ==> (#[trigger] regs[i]).1.len() == 0,
    ensures
        regs.map_values(|s: (bool, Seq<bool>)| undone(s)) == regs,
{
    assert(regs.map_values(|s: (bool, Seq<bool>)| undone(s)) =~= regs);
}

/// An expansion that runs into a wall `d` tiles behind the head stops short
/// of it: the tail rests on the cell next to the wall, no segment rests on
/// the wall or past it, and no wall lies between the head and the tail.
pub proof fn lemma_expansion_clamp(
    walls: Seq<TileCoords>,
    head: TileCoords,
    n: int,
    d: u32,
    bit_iter: int,
)
    requires
        body_fits(head, n),
        0 <= bit_iter <= n,
        is_first_hit(walls, route(head, expansion_travel(n)), d - 1),
    ensures
        ideal_offset(Some(Expanding { collided_at: Some(d) }), n, bit_iter) < d,
        ideal_offset(Some(Expanding { collided_at: Some(d) }), n, n) == d - 1,
        walls.contains(behind(head, d as int)),
        forall|o: int| 1 <= o < d ==> !walls.contains(#[trigger] behind(head, o)),
{
    let t = expansion_travel(n);
    let rt = route(head, t);
    assert(sign(t.amount as int) == -1);
    assert(rt[d - 1] == along(head, t, -(d as int)));
    assert(rt[d - 1] == behind(head, d as int));
    assert forall|o: int| 1 <= o < d implies !walls.contains(#[trigger] behind(head, o)) by {
        assert(rt[o - 1] == along(head, t, -o));
        assert(rt[o - 1] == behind(head, o));
    }
}

/// A register whose bit differs from that of the first gate it crosses, an
/// EQUAL gate, makes `first_mismatch` name that gate whatever follows it.
proof fn lemma_first_gate_mismatch(s: (bool, Seq<bool>), gs: Seq<LogiRegister>)
    requires
        gs.len() >= 1,
        gs[0].logikind == LogiKind::Equal,
        gs[0].boolean != s.0,
    ensures
        first_mismatch(s, gs) == Some(gs[0].coords),
    decreases gs.len(),
{
    if gs.len() == 1 {
        assert(gs.drop_last() =~= Seq::<LogiRegister>::empty());
    } else {
        lemma_first_gate_mismatch(s, gs.drop_last());
    }
}

/// Once one of the first registers fails an EQUAL gate, the veto of the whole
/// move is the first such failure.
proof fn lemma_move_veto_stays(
    regs: Seq<(bool, Seq<bool>)>,
    gates: Seq<LogiRegister>,
    head: TileCoords,
    travel: Travel,
    m: int,
    n: int,
)
    requires
        1 <= m <= n,
        move_veto(regs, gates, head, travel, m) is Some,
    ensures
        move_veto(regs, gates, head, travel, n) == move_veto(regs, gates, head, travel, m),
    decreases n - m,
{
    if m < n {
        lemma_move_veto_stays(regs, gates, head, travel, m + 1, n);
    }
}

/// A move on which the register next to the head, holding one bit, crosses
/// first an EQUAL gate holding the other bit is vetoed, and the veto names
/// that gate's cell.
pub proof fn lemma_equal_mismatch_vetoes(
    regs: Seq<(bool, Seq<bool>)>,
    gates: Seq<LogiRegister>,
    head: TileCoords,
    travel: Travel,
)
    requires
        regs.len() >= 1,
        gates_crossed(gates, head, 0, travel).len() >= 1,
        gates_crossed(gates, head, 0, travel)[0].logikind == LogiKind::Equal,
        gates_crossed(gates, head, 0, travel)[0].boolean != regs[0].0,
    ensures
        move_veto(regs, gates, head, travel, regs.len() as int) == Some(
            gates_crossed(gates, head, 0, travel)[0].coords,
        ),
{
    lemma_first_gate_mismatch(regs[0], gates_crossed(gates, head, 0, travel));
    assert(move_veto(regs, gates, head, travel, 0) is None);
    lemma_move_veto_stays(regs, gates, head, travel, 1, regs.len() as int);
}

} // verus!
