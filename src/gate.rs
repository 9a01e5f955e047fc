use vstd::prelude::*;
use crate::coords::TileCoords;
use crate::travel::{Travel, route, route_fits};

verus! {

/// The operator a logic gate applies.
#[derive(Clone, Copy, PartialEq, Eq, Structural, Debug)]
pub enum LogiKind {
    And,
    Or,
    Not,
    Xor,
    Undo,
    Equal,
}

/// A gate tile of a stage: where it stands, its own (fixed) bit and its operator.
#[derive(Clone, Copy, PartialEq, Eq, Structural, Debug)]
pub struct LogiRegister {
    pub coords: TileCoords,
    pub boolean: bool,
    pub logikind: LogiKind,
}

/// One boolean register the boxfish carries, with the values it held before
/// each gate that changed it, most recent last.
#[derive(Debug)]
pub struct BoxfishRegister {
    pub boolean: bool,
    pub history: Vec<bool>,
}

impl View for BoxfishRegister {
    type V = (bool, Seq<bool>);

    open spec fn view(&self) -> (bool, Seq<bool>) {
        (self.boolean, self.history@)
    }
}

impl BoxfishRegister {
    /// A register holding `boolean`, with no history.
    pub fn new(boolean: bool) -> (r: BoxfishRegister)
        ensures
            r@ == (boolean, Seq::<bool>::empty()),
    {
        BoxfishRegister { boolean, history: Vec::new() }
    }

    /// A copy of the register and its history.
    pub fn duplicate(&self) -> (r: BoxfishRegister)
        ensures
            r@ == self@,
    {
        BoxfishRegister { boolean: self.boolean, history: self.history.clone() }
    }

    /// Restores the most recent value of the history, if there is one.
    pub fn undo(&mut self)
        ensures
            final(self)@ == undone(old(self)@),
    {
        match self.history.pop() {
            Some(last) => {
                self.boolean = last;
            },
            None => {},
        }
    }
}

/// A register after restoring the most recent entry of its history; unchanged
/// when the history is empty.
pub open spec fn undone(s: (bool, Seq<bool>)) -> (bool, Seq<bool>) {
    if s.1.len() > 0 {
        (s.1.last(), s.1.drop_last())
    } else {
        s
    }
}

/// A register after one gate acts on it.
pub open spec fn apply_gate(s: (bool, Seq<bool>), g: LogiRegister) -> (bool, Seq<bool>) {
    match g.logikind {
        LogiKind::And => (s.0 && g.boolean, s.1.push(s.0)),
        LogiKind::Or => (s.0 || g.boolean, s.1.push(s.0)),
        LogiKind::Xor => (s.0 != g.boolean, s.1.push(s.0)),
        LogiKind::Not => if g.boolean {
            (!s.0, s.1.push(s.0))
        } else {
            s
        },
        LogiKind::Undo => undone(s),
        LogiKind::Equal => s,
    }
}

/// An EQUAL gate whose bit differs from the register's.
pub open spec fn mismatch(s: (bool, Seq<bool>), g: LogiRegister) -> bool {
    g.logikind == LogiKind::Equal && s.0 != g.boolean
}

/// A register after the gates `gs` act on it, first to last.
pub open spec fn run_gates(s: (bool, Seq<bool>), gs: Seq<LogiRegister>) -> (bool, Seq<bool>)
    decreases gs.len(),
{
    if gs.len() == 0 {
        s
    } else {
        apply_gate(run_gates(s, gs.drop_last()), gs.last())
    }
}

/// Where the first EQUAL gate of `gs` that the register fails stands, the
/// register having passed the gates before it.
pub open spec fn first_mismatch(s: (bool, Seq<bool>), gs: Seq<LogiRegister>) -> Option<
    TileCoords,
>
    decreases gs.len(),
{
    if gs.len() == 0 {
        None
    } else {
        let p = first_mismatch(s, gs.drop_last());
        if p is Some {
            p
        } else if mismatch(run_gates(s, gs.drop_last()), gs.last()) {
            Some(gs.last().coords)
        } else {
            None
        }
    }
}

/// The gates of `gates` standing at `c`, in list order.
pub open spec fn gates_at(gates: Seq<LogiRegister>, c: TileCoords) -> Seq<LogiRegister>
    decreases gates.len(),
{
    if gates.len() == 0 {
        seq![]
    } else {
        let p = gates_at(gates.drop_last(), c);
        if gates.last().coords == c {
            p.push(gates.last())
        } else {
            p
        }
    }
}

/// The gates met along the cells `r`, in route order; gates sharing a cell in
/// list order.
pub open spec fn encountered(gates: Seq<LogiRegister>, r: Seq<TileCoords>) -> Seq<LogiRegister>
    decreases r.len(),
{
    if r.len() == 0 {
        seq![]
    } else {
        encountered(gates, r.drop_last()) + gates_at(gates, r.last())
    }
}

/// Where the register `bit_iter` sat before a move, the head having been at
/// `head`: the body trails the head along negative x.
pub open spec fn bit_origin(head: TileCoords, bit_iter: int) -> TileCoords {
    TileCoords { x: (head.x - bit_iter - 1) as i32, y: head.y }
}

/// The gates that register `bit_iter` crosses when the head, at `head`, makes `travel`.
pub open spec fn gates_crossed(
    gates: Seq<LogiRegister>,
    head: TileCoords,
    bit_iter: int,
    travel: Travel,
) -> Seq<LogiRegister> {
    encountered(gates, route(bit_origin(head, bit_iter), travel))
}

/// Whether the cell register `bit_iter` sat on, and every cell it passes,
/// have coordinates that fit in an `i32`.
pub open spec fn bit_route_fits(head: TileCoords, bit_iter: int, travel: Travel) -> bool {
    &&& 0 <= bit_iter
    &&& i32::MIN <= head.x - bit_iter - 1
    &&& route_fits(bit_origin(head, bit_iter), travel)
}

proof fn lemma_run_push(s: (bool, Seq<bool>), gs: Seq<LogiRegister>, g: LogiRegister)
    ensures
        run_gates(s, gs.push(g)) == apply_gate(run_gates(s, gs), g),
        first_mismatch(s, gs.push(g)) == (if first_mismatch(s, gs) is Some {
            first_mismatch(s, gs)
        } else if mismatch(run_gates(s, gs), g) {
            Some(g.coords)
        } else {
            None
        }),
{
    assert(gs.push(g).drop_last() =~= gs);
}

/// Applies one gate to a register; returns whether it is an EQUAL gate the
/// register fails.
pub fn apply_gate_to(bit: &mut BoxfishRegister, gate: &LogiRegister) -> (r: bool)
    ensures
        final(bit)@ == apply_gate(old(bit)@, *gate),
        r == mismatch(old(bit)@, *gate),
{
    let now = bit.boolean;
    match gate.logikind {
        LogiKind::And => {
            bit.history.push(now);
            bit.boolean = now && gate.boolean;
            false
        },
        LogiKind::Or => {
            bit.history.push(now);
            bit.boolean = now || gate.boolean;
            false
        },
        LogiKind::Not => {
            if gate.boolean {
                bit.history.push(now);
                bit.boolean = !now;
            }
            false
        },
        LogiKind::Xor => {
            bit.history.push(now);
            bit.boolean = now != gate.boolean;
            false
        },
        LogiKind::Undo => {
            bit.undo();
            false
        },
        LogiKind::Equal => now != gate.boolean,
    }
}

/// Applies to register `bit_iter` every gate it crosses when the head, which
/// stood at `head_coord_before_move`, makes `travel`: in route order, gates
/// sharing a cell in list order. Returns where the first EQUAL gate it fails
/// stands, if any.
pub fn process_gate_effect_for_each_bit(
    bit_iter: u32,
    head_coord_before_move: TileCoords,
    gates: &Vec<LogiRegister>,
    travel: &Travel,
    bit: &mut BoxfishRegister,
) -> (r: Option<TileCoords>)
    requires
        bit_route_fits(head_coord_before_move, bit_iter as int, *travel),
    ensures
        final(bit)@ == run_gates(
            old(bit)@,
            gates_crossed(gates@, head_coord_before_move, bit_iter as int, *travel),
        ),
        r == first_mismatch(
            old(bit)@,
            gates_crossed(gates@, head_coord_before_move, bit_iter as int, *travel),
        ),
{
    let ghost s0 = bit@;
    let from = TileCoords {
        x: (head_coord_before_move.x as i64 - bit_iter as i64 - 1) as i32,
        y: head_coord_before_move.y,
    };
    assert(from == bit_origin(head_coord_before_move, bit_iter as int));
    let rt = travel.get_route(from);
    let mut veto: Option<TileCoords> = None;
    let mut k: usize = 0;
    while k < rt.len()
        invariant
            0 <= k <= rt.len(),
            rt@ == route(from, *travel),
            bit@ == run_gates(s0, encountered(gates@, rt@.take(k as int))),
            veto == first_mismatch(s0, encountered(gates@, rt@.take(k as int))),
        decreases rt.len() - k,
    {
        let ghost before = encountered(gates@, rt@.take(k as int));
        let c = rt[k];
        let mut j: usize = 0;
        while j < gates.len()
            invariant
                0 <= j <= gates.len(),
                c == rt@[k as int],
                bit@ == run_gates(s0, before + gates_at(gates@.take(j as int), c)),
                veto == first_mismatch(s0, before + gates_at(gates@.take(j as int), c)),
            decreases gates.len() - j,
        {
            let ghost seen = before + gates_at(gates@.take(j as int), c);
            let g = gates[j];
            assert(gates@.take(j + 1).drop_last() =~= gates@.take(j as int));
            if g.coords == c {
                assert(seen.push(g) =~= before + gates_at(gates@.take(j + 1), c));
                proof {
                    lemma_run_push(s0, seen, g);
                }
                let failed = apply_gate_to(bit, &g);
                if failed && veto.is_none() {
                    veto = Some(g.coords);
                }
            }
            j = j + 1;
        }
        assert(gates@.take(gates@.len() as int) =~= gates@);
        assert(rt@.take(k + 1).drop_last() =~= rt@.take(k as int));
        k = k + 1;
    }
    assert(rt@.take(rt@.len() as int) =~= rt@);
    veto
}

} // verus!
