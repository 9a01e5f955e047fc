use vstd::prelude::*;
use vstd::string::StrSliceExecFns;
use crate::coords::TileCoords;
use crate::gate::LogiKind;

verus! {

/// What a tile of a stage is.
#[derive(Clone, Copy, PartialEq, Eq, Structural, Debug)]
pub enum TileKind {
    /// A wall: always blocks.
    Wall,
    /// An exit.
    Goal,
    /// One end of a gate: blocks a contracted boxfish. `is_head` tells the
    /// closing end of a gate from its opening end.
    Gate { logikind: LogiKind, is_head: bool },
    /// A gate bit: blocks a contracted boxfish and acts on registers that cross it.
    Bit { boolean: bool, logikind: LogiKind },
    /// The frame around the stage: always blocks.
    Outline,
}

/// A tile of a stage at its cell.
#[derive(Clone, Copy, PartialEq, Eq, Structural, Debug)]
pub struct Tile {
    pub coords: TileCoords,
    pub kind: TileKind,
}

/// Why a stage text was refused.
#[derive(Clone, Copy, PartialEq, Eq, Structural, Debug)]
pub enum StageError {
    /// A bit stands on a line before any gate letter.
    BitWithoutGate { x: i32, y: i32 },
    /// A line is wider than `i32::MAX` bytes, or there are more than
    /// `i32::MAX` lines, so that a cell of the stage or of its frame would
    /// have a coordinate beyond the `i32` range.
    TooLarge,
}

/// Gate letters enclose their bits: within a line, a bit takes
/// the operator of the last gate letter before it.
#[derive(Clone, Copy, PartialEq, Eq, Structural, Debug)]
pub struct LineContextContainer {
    pub bitkind: Option<LogiKind>,
    pub tail_found: bool,
}

/// The operator a gate letter stands for.
pub open spec fn gate_kind_of(c: char) -> Option<LogiKind> {
    if c == 'A' {
        Some(LogiKind::And)
    } else if c == 'O' {
        Some(LogiKind::Or)
    } else if c == 'N' {
        Some(LogiKind::Not)
    } else if c == 'X' {
        Some(LogiKind::Xor)
    } else if c == 'G' {
        Some(LogiKind::Equal)
    } else if c == 'U' {
        Some(LogiKind::Undo)
    } else {
        None
    }
}

/// A gate letter of operator `k` closes a gate when the last gate letter of
/// the line had the same operator and opened one.
pub open spec fn closes(st: LineContextContainer, k: LogiKind) -> bool {
    st.bitkind == Some(k) && st.tail_found
}

/// The line context after character `c`.
pub open spec fn next_context(st: LineContextContainer, c: char) -> LineContextContainer {
    match gate_kind_of(c) {
        Some(k) => LineContextContainer { bitkind: Some(k), tail_found: !closes(st, k) },
        None => st,
    }
}

/// A bit with no gate letter before it on its line.
pub open spec fn orphan_bit(st: LineContextContainer, c: char) -> bool {
    (c == '0' || c == '1') && st.bitkind is None
}

/// The tile that character `c` makes in context `st`, if any.
pub open spec fn char_tile(st: LineContextContainer, c: char) -> Option<TileKind> {
    match gate_kind_of(c) {
        Some(k) => Some(TileKind::Gate { logikind: k, is_head: closes(st, k) }),
        None => if c == 'W' {
            Some(TileKind::Wall)
        } else if c == 'E' {
            Some(TileKind::Goal)
        } else if (c == '0' || c == '1') && st.bitkind is Some {
            Some(TileKind::Bit { boolean: c == '1', logikind: st.bitkind->0 })
        } else {
            None
        },
    }
}

/// The context at the start of every line.
pub open spec fn line_start() -> LineContextContainer {
    LineContextContainer { bitkind: None, tail_found: false }
}

/// The line context after the characters `line`.
pub open spec fn context_after(line: Seq<char>) -> LineContextContainer
    decreases line.len(),
{
    if line.len() == 0 {
        line_start()
    } else {
        next_context(context_after(line.drop_last()), line.last())
    }
}

/// The tiles of the characters `line` on row `y`, in order.
pub open spec fn line_tiles(line: Seq<char>, y: int) -> Seq<Tile>
    decreases line.len(),
{
    if line.len() == 0 {
        seq![]
    } else {
        let p = line_tiles(line.drop_last(), y);
        match char_tile(context_after(line.drop_last()), line.last()) {
            Some(kind) => p.push(
                Tile { coords: TileCoords { x: (line.len() - 1) as i32, y: y as i32 }, kind },
            ),
            None => p,
        }
    }
}

/// The column of the first bit of `line` with no gate letter before it.
pub open spec fn line_error(line: Seq<char>) -> Option<int>
    decreases line.len(),
{
    if line.len() == 0 {
        None
    } else {
        let p = line_error(line.drop_last());
        if p is Some {
            p
        } else if orphan_bit(context_after(line.drop_last()), line.last()) {
            Some(line.len() - 1)
        } else {
            None
        }
    }
}

/// Splits `s` at each newline into the finished lines and the line still
/// open; a carriage return right before a newline is not part of the line.
pub open spec fn split_lines(s: Seq<char>) -> (Seq<Seq<char>>, Seq<char>)
    decreases s.len(),
{
    if s.len() == 0 {
        (seq![], seq![])
    } else {
        let (done, cur) = split_lines(s.drop_last());
        if s.last() == '\n' {
            let line = if cur.len() > 0 && cur.last() == '\r' {
                cur.drop_last()
            } else {
                cur
            };
            (done.push(line), seq![])
        } else {
            (done, cur.push(s.last()))
        }
    }
}

/// The lines of `s`: split at each newline, a final newline ending the last
/// line rather than starting an empty one.
pub open spec fn lines(s: Seq<char>) -> Seq<Seq<char>> {
    let (done, cur) = split_lines(s);
    if cur.len() > 0 {
        done.push(cur)
    } else {
        done
    }
}

/// How many bytes UTF-8 takes for `c`.
pub open spec fn utf8_len(c: char) -> nat {
    if (c as u32) < 0x80 {
        1
    } else if (c as u32) < 0x800 {
        2
    } else if (c as u32) < 0x10000 {
        3
    } else {
        4
    }
}

/// The length of `line` in bytes.
pub open spec fn byte_len(line: Seq<char>) -> nat
    decreases line.len(),
{
    if line.len() == 0 {
        0
    } else {
        byte_len(line.drop_last()) + utf8_len(line.last())
    }
}

/// The byte length of the longest of the first `m` lines.
pub open spec fn max_width(ls: Seq<Seq<char>>, m: int) -> nat
    decreases m,
{
    if m <= 0 {
        0
    } else {
        let p = max_width(ls, m - 1);
        let w = byte_len(ls[m - 1]);
        if w > p {
            w
        } else {
            p
        }
    }
}

/// The tiles of the first `m` rows, counted from the bottom: the last line
/// of the text is row 0.
pub open spec fn rows_tiles(ls: Seq<Seq<char>>, m: int) -> Seq<Tile>
    decreases m,
{
    if m <= 0 {
        seq![]
    } else {
        rows_tiles(ls, m - 1) + line_tiles(ls[ls.len() - m], m - 1)
    }
}

/// The first orphan bit of the first `m` rows, counted from the bottom.
pub open spec fn rows_error(ls: Seq<Seq<char>>, m: int) -> Option<StageError>
    decreases m,
{
    if m <= 0 {
        None
    } else {
        let p = rows_error(ls, m - 1);
        if p is Some {
            p
        } else {
            match line_error(ls[ls.len() - m]) {
                Some(x) => Some(StageError::BitWithoutGate { x: x as i32, y: (m - 1) as i32 }),
                None => None,
            }
        }
    }
}

/// The frame around a stage `w` cells wide and `h` cells high: the top-left
/// corner, the top and bottom edges column by column, the top-right corner,
/// the left and right edges row by row, then the two bottom corners.
pub open spec fn outline(w: int, h: int) -> Seq<Tile> {
    seq![frame(-1, h)] + edges(w, h) + seq![frame(w, h)] + sides(w, h) + seq![
        frame(-1, -1),
        frame(w, -1),
    ]
}

/// The top and bottom edges, column by column.
pub open spec fn edges(w: int, h: int) -> Seq<Tile> {
    Seq::new(
        (2 * w) as nat,
        |i: int|
            if i % 2 == 0 {
                frame(i / 2, h)
            } else {
                frame(i / 2, -1)
            },
    )
}

/// The left and right edges, row by row.
pub open spec fn sides(w: int, h: int) -> Seq<Tile> {
    Seq::new(
        (2 * h) as nat,
        |i: int|
            if i % 2 == 0 {
                frame(-1, i / 2)
            } else {
                frame(w, i / 2)
            },
    )
}

/// An outline tile at (x, y).
pub open spec fn frame(x: int, y: int) -> Tile {
    Tile { coords: TileCoords { x: x as i32, y: y as i32 }, kind: TileKind::Outline }
}

/// What a stage text makes: its rows from the bottom up, then its frame.
/// It is refused as too large when a coordinate of a cell or of the frame
/// would not fit in an `i32`, and otherwise refused at the first bit, bottom
/// row first, that no gate letter precedes on its line.
pub open spec fn stage_tiles(s: Seq<char>) -> Result<Seq<Tile>, StageError> {
    let ls = lines(s);
    if ls.len() > i32::MAX || max_width(ls, ls.len() as int) > i32::MAX {
        Err(StageError::TooLarge)
    } else {
        match rows_error(ls, ls.len() as int) {
            Some(e) => Err(e),
            None => Ok(
                rows_tiles(ls, ls.len() as int) + outline(
                    max_width(ls, ls.len() as int) as int,
                    ls.len() as int,
                ),
            ),
        }
    }
}

/// The tile of a gate letter of operator `logikind`, updating the line context.
pub fn generate_logical_gate(logikind: LogiKind, state: &mut LineContextContainer) -> (r: TileKind)
    ensures
        r == (TileKind::Gate { logikind, is_head: closes(*old(state), logikind) }),
        *final(state) == (LineContextContainer {
            bitkind: Some(logikind),
            tail_found: !closes(*old(state), logikind),
        }),
{
    let do_spawn_head = match state.bitkind {
        Some(bkind) => bkind == logikind && state.tail_found,
        None => false,
    };
    state.bitkind = Some(logikind);
    state.tail_found = !do_spawn_head;
    TileKind::Gate { logikind, is_head: do_spawn_head }
}

/// The tile that character `charactor` makes in the line context `state`,
/// which it updates; an error for a bit with no gate letter before it.
pub fn interprint_each_char_as_tile(charactor: char, state: &mut LineContextContainer) -> (r:
    Result<Option<TileKind>, ()>)
    ensures
        *final(state) == next_context(*old(state), charactor),
        orphan_bit(*old(state), charactor) ==> r is Err,
        !orphan_bit(*old(state), charactor) ==> r == Ok::<Option<TileKind>, ()>(
            char_tile(*old(state), charactor),
        ),
{
    let gate = if charactor == 'A' {
        Some(LogiKind::And)
    } else if charactor == 'O' {
        Some(LogiKind::Or)
    } else if charactor == 'N' {
        Some(LogiKind::Not)
    } else if charactor == 'X' {
        Some(LogiKind::Xor)
    } else if charactor == 'G' {
        Some(LogiKind::Equal)
    } else if charactor == 'U' {
        Some(LogiKind::Undo)
    } else {
        None
    };
    match gate {
        Some(k) => Ok(Some(generate_logical_gate(k, state))),
        None => if charactor == 'W' {
            Ok(Some(TileKind::Wall))
        } else if charactor == 'E' {
            Ok(Some(TileKind::Goal))
        } else if charactor == '0' || charactor == '1' {
            match state.bitkind {
                Some(k) => Ok(Some(TileKind::Bit { boolean: charactor == '1', logikind: k })),
                None => Err(()),
            }
        } else {
            Ok(None)
        },
    }
}

/// The tiles of one line of a stage text, on row `y`.
pub fn interprint_each_line_as_tile(line: &Vec<char>, y: i32) -> (r: Result<Vec<Tile>, StageError>)
    requires
        line@.len() <= i32::MAX,
    ensures
        match line_error(line@) {
            Some(x) => r == Err::<Vec<Tile>, StageError>(
                StageError::BitWithoutGate { x: x as i32, y },
            ),
            None => r matches Ok(t) && t@ == line_tiles(line@, y as int),
        },
{
    let mut state = LineContextContainer { bitkind: None, tail_found: false };
    let mut out: Vec<Tile> = Vec::new();
    let mut x: usize = 0;
    while x < line.len()
        invariant
            0 <= x <= line@.len(),
            line@.len() <= i32::MAX,
            state == context_after(line@.take(x as int)),
            line_error(line@.take(x as int)) is None,
            out@ == line_tiles(line@.take(x as int), y as int),
        decreases line.len() - x,
    {
        let ghost pre = line@.take(x as int);
        let ghost next = line@.take(x + 1);
        assert(next.drop_last() =~= pre);
        let c = line[x];
        match interprint_each_char_as_tile(c, &mut state) {
            Ok(Some(kind)) => {
                out.push(Tile { coords: TileCoords { x: x as i32, y }, kind });
            },
            Ok(None) => {},
            Err(_) => {
                proof {
                    lemma_line_error_prefix(line@, x as int + 1);
                }
                return Err(StageError::BitWithoutGate { x: x as i32, y });
            },
        }
        x = x + 1;
    }
    assert(line@.take(line@.len() as int) =~= line@);
    Ok(out)
}

/// Once a prefix of a line holds an orphan bit, the whole line reports that one.
proof fn lemma_line_error_prefix(line: Seq<char>, m: int)
    requires
        0 <= m <= line.len(),
    ensures
        line_error(line.take(m)) is Some ==> line_error(line) == line_error(line.take(m)),
    decreases line.len() - m,
{
    if m < line.len() {
        lemma_line_error_prefix(line, m + 1);
        assert(line.take(m + 1).drop_last() =~= line.take(m));
    } else {
        assert(line.take(m) =~= line);
    }
}

/// The frame around a stage `aquarium_size.0` cells wide and
/// `aquarium_size.1` cells high.
pub fn construct_stage_outline(aquarium_size: (i32, i32)) -> (r: Vec<Tile>)
    requires
        0 <= aquarium_size.0,
        0 <= aquarium_size.1,
    ensures
        r@ == outline(aquarium_size.0 as int, aquarium_size.1 as int),
{
    let (w, h) = aquarium_size;
    let ghost top_bottom = edges(w as int, h as int);
    let ghost left_right = sides(w as int, h as int);
    let mut r: Vec<Tile> = Vec::new();
    r.push(Tile { coords: TileCoords { x: -1, y: h }, kind: TileKind::Outline });
    let mut x: i32 = 0;
    while x < w
        invariant
            0 <= x <= w,
            top_bottom == edges(w as int, h as int),
            r@ == seq![frame(-1, h as int)] + top_bottom.take(2 * x),
        decreases w - x,
    {
        r.push(Tile { coords: TileCoords { x, y: h }, kind: TileKind::Outline });
        r.push(Tile { coords: TileCoords { x, y: -1 }, kind: TileKind::Outline });
        assert((2 * x as int) / 2 == x && (2 * x as int) % 2 == 0 && (2 * x as int + 1) / 2 == x
            && (2 * x as int + 1) % 2 == 1);
        assert(top_bottom[2 * x as int] == frame(x as int, h as int));
        assert(top_bottom[2 * x as int + 1] == frame(x as int, -1));
        assert(top_bottom.take(2 * x + 2) =~= top_bottom.take(2 * x).push(frame(x as int, h as int)).push(
            frame(x as int, -1),
        ));
        x = x + 1;
    }
    assert(top_bottom.take(2 * w) =~= top_bottom);
    r.push(Tile { coords: TileCoords { x: w, y: h }, kind: TileKind::Outline });
    let ghost top = r@;
    let mut y: i32 = 0;
    while y < h
        invariant
            0 <= y <= h,
            0 <= w,
            left_right == sides(w as int, h as int),
            r@ == top + left_right.take(2 * y),
        decreases h - y,
    {
        r.push(Tile { coords: TileCoords { x: -1, y }, kind: TileKind::Outline });
        r.push(Tile { coords: TileCoords { x: w, y }, kind: TileKind::Outline });
        assert((2 * y as int) / 2 == y && (2 * y as int) % 2 == 0 && (2 * y as int + 1) / 2 == y
            && (2 * y as int + 1) % 2 == 1);
        assert(left_right[2 * y as int] == frame(-1, y as int));
        assert(left_right[2 * y as int + 1] == frame(w as int, y as int));
        assert(left_right.take(2 * y + 2) =~= left_right.take(2 * y).push(frame(-1, y as int)).push(
            frame(w as int, y as int),
        ));
        y = y + 1;
    }
    assert(left_right.take(2 * h) =~= left_right);
    r.push(Tile { coords: TileCoords { x: -1, y: -1 }, kind: TileKind::Outline });
    r.push(Tile { coords: TileCoords { x: w, y: -1 }, kind: TileKind::Outline });
    assert(r@ =~= outline(w as int, h as int));
    r
}

/// The views of a row of lines.
pub open spec fn lines_view(v: Seq<Vec<char>>) -> Seq<Seq<char>> {
    v.map_values(|l: Vec<char>| l@)
}

/// The byte length of `c` in UTF-8.
fn char_byte_len(c: char) -> (r: usize)
    ensures
        r == utf8_len(c),
{
    let u = c as u32;
    if u < 0x80 {
        1
    } else if u < 0x800 {
        2
    } else if u < 0x10000 {
        3
    } else {
        4
    }
}

/// The byte length of a line, exact up to `i32::MAX`; past that, some larger value.
fn line_byte_len(line: &Vec<char>) -> (r: usize)
    ensures
        r <= i32::MAX ==> r == byte_len(line@),
        r > i32::MAX <==> byte_len(line@) > i32::MAX,
{
    let mut n: usize = 0;
    let mut i: usize = 0;
    while i < line.len()
        invariant
            0 <= i <= line@.len(),
            n == byte_len(line@.take(i as int)),
            n <= i32::MAX,
        decreases line.len() - i,
    {
        assert(line@.take(i + 1).drop_last() =~= line@.take(i as int));
        n = n + char_byte_len(line[i]);
        if n > i32::MAX as usize {
            proof {
                lemma_byte_len_prefix(line@, i + 1);
            }
            return n;
        }
        i = i + 1;
    }
    assert(line@.take(line@.len() as int) =~= line@);
    n
}

/// A line takes at least as many bytes as any of its prefixes, and at least
/// one byte per character.
proof fn lemma_byte_len_prefix(line: Seq<char>, m: int)
    requires
        0 <= m <= line.len(),
    ensures
        byte_len(line.take(m)) <= byte_len(line),
        line.len() <= byte_len(line),
    decreases line.len() - m,
{
    if m < line.len() {
        lemma_byte_len_prefix(line, m + 1);
        assert(line.take(m + 1).drop_last() =~= line.take(m));
    } else {
        assert(line.take(m) =~= line);
        lemma_byte_len_at_least_len(line);
    }
}

/// A line takes at least one byte per character.
proof fn lemma_byte_len_at_least_len(line: Seq<char>)
    ensures
        line.len() <= byte_len(line),
    decreases line.len(),
{
    if line.len() > 0 {
        lemma_byte_len_at_least_len(line.drop_last());
    }
}

/// The widest line is at least as wide as each of the first `m` lines, and
/// the width only grows with `m`.
proof fn lemma_max_width(ls: Seq<Seq<char>>, m: int, h: int)
    requires
        0 <= m <= h,
    ensures
        max_width(ls, m) <= max_width(ls, h),
        forall|j: int| 0 <= j < m ==> byte_len(#[trigger] ls[j]) <= max_width(ls, h),
    decreases h - m,
{
    if m < h {
        lemma_max_width(ls, m + 1, h);
    } else {
        lemma_max_width_each(ls, m);
    }
}

/// Each of the first `m` lines is no wider than the widest of them.
proof fn lemma_max_width_each(ls: Seq<Seq<char>>, m: int)
    requires
        0 <= m,
    ensures
        forall|j: int| 0 <= j < m ==> byte_len(#[trigger] ls[j]) <= max_width(ls, m),
    decreases m,
{
    if m > 0 {
        lemma_max_width_each(ls, m - 1);
    }
}

/// The characters of a text, one by one.
fn text_chars(text: &str) -> (r: Vec<char>)
    ensures
        r@ == text@,
{
    let n = text.unicode_len();
    let mut r: Vec<char> = Vec::new();
    let mut i: usize = 0;
    while i < n
        invariant
            0 <= i <= n,
            n == text@.len(),
            r@ == text@.take(i as int),
        decreases n - i,
    {
        r.push(text.get_char(i));
        assert(r@ =~= text@.take(i + 1));
        i = i + 1;
    }
    assert(text@.take(n as int) =~= text@);
    r
}

/// The lines of a text.
fn text_lines(chars: &Vec<char>) -> (r: Vec<Vec<char>>)
    ensures
        lines_view(r@) == lines(chars@),
{
    let mut done: Vec<Vec<char>> = Vec::new();
    let mut cur: Vec<char> = Vec::new();
    let mut i: usize = 0;
    while i < chars.len()
        invariant
            0 <= i <= chars@.len(),
            (lines_view(done@), cur@) == split_lines(chars@.take(i as int)),
        decreases chars.len() - i,
    {
        assert(chars@.take(i + 1).drop_last() =~= chars@.take(i as int));
        let c = chars[i];
        if c == '\n' {
            let len = cur.len();
            if len > 0 && cur[len - 1] == '\r' {
                cur.pop();
            }
            let line = cur;
            cur = Vec::new();
            let ghost before = lines_view(done@);
            done.push(line);
            assert(lines_view(done@) =~= before.push(line@));
            assert(cur@ =~= Seq::<char>::empty());
        } else {
            cur.push(c);
        }
        i = i + 1;
    }
    assert(chars@.take(chars@.len() as int) =~= chars@);
    if cur.len() > 0 {
        let ghost before = lines_view(done@);
        done.push(cur);
        assert(lines_view(done@) =~= before.push(cur@));
    }
    done
}

/// Builds the tiles of a stage from its text. The last line is row 0 and
/// rows count upwards; within a line the character index is the column.
/// Gate letters (A, O, N, X, G, U) and the bits 0 and 1 between them block
/// a contracted boxfish, each bit taking the operator of the last gate letter
/// before it on its line; W is a wall, E an exit, every other character empty.
/// A frame of outline tiles surrounds the stage, as wide as its longest line
/// in bytes. A text with a line wider than `i32::MAX` bytes or with more than
/// `i32::MAX` lines is refused as too large; otherwise a bit with no gate
/// letter before it on its line is refused, the bottom row first.
pub fn chars_into_tiles(aquarium: &str) -> (r: Result<Vec<Tile>, StageError>)
    ensures
        match stage_tiles(aquarium@) {
            Ok(t) => r matches Ok(v) && v@ == t,
            Err(e) => r == Err::<Vec<Tile>, StageError>(e),
        },
{
    let chars = text_chars(aquarium);
    let ls = text_lines(&chars);
    let ghost lv = lines_view(ls@);
    let h = ls.len();
    if h > i32::MAX as usize {
        return Err(StageError::TooLarge);
    }
    let mut width: usize = 0;
    let mut k: usize = 0;
    while k < h
        invariant
            0 <= k <= h,
            h == ls@.len(),
            h <= i32::MAX,
            lv == lines_view(ls@),
            lv == lines(chars@),
            chars@ == aquarium@,
            width == max_width(lv, k as int),
            width <= i32::MAX,
        decreases h - k,
    {
        assert(lv[k as int] == ls@[k as int]@);
        let w = line_byte_len(&ls[k]);
        if w > i32::MAX as usize {
            proof {
                lemma_max_width(lv, k + 1, h as int);
                lemma_max_width_each(lv, k + 1);
            }
            return Err(StageError::TooLarge);
        }
        if w > width {
            width = w;
        }
        k = k + 1;
    }
    proof {
        lemma_max_width_each(lv, h as int);
        assert forall|j: int| 0 <= j < lv.len() implies (#[trigger] lv[j]).len() <= i32::MAX by {
            lemma_byte_len_at_least_len(lv[j]);
        }
    }
    let mut out: Vec<Tile> = Vec::new();
    let mut m: usize = 1;
    while m <= h
        invariant
            1 <= m <= h + 1,
            h == ls@.len(),
            lv == lines_view(ls@),
            forall|j: int| 0 <= j < lv.len() ==> (#[trigger] lv[j]).len() <= i32::MAX,
            lv == lines(chars@),
            chars@ == aquarium@,
            h <= i32::MAX,
            width == max_width(lv, h as int),
            width <= i32::MAX,
            rows_error(lv, m - 1) is None,
            out@ == rows_tiles(lv, m - 1),
        decreases h + 1 - m,
    {
        assert(lv[h - m] == ls@[h - m]@);
        match interprint_each_line_as_tile(&ls[h - m], (m - 1) as i32) {
            Ok(mut row) => {
                assert(rows_tiles(lv, m as int) == rows_tiles(lv, m - 1) + line_tiles(
                    lv[h - m],
                    m - 1,
                ));
                out.append(&mut row);
            },
            Err(e) => {
                proof {
                    lemma_rows_error_stays(lv, m as int, h as int);
                }
                return Err(e);
            },
        }
        m = m + 1;
    }
    let mut frame_tiles = construct_stage_outline((width as i32, h as i32));
    out.append(&mut frame_tiles);
    Ok(out)
}

/// Once the first rows hold an error, every longer run of rows reports that one.
proof fn lemma_rows_error_stays(ls: Seq<Seq<char>>, m: int, h: int)
    requires
        1 <= m <= h,
        rows_error(ls, m) is Some,
    ensures
        rows_error(ls, h) == rows_error(ls, m),
    decreases h - m,
{
    if m < h {
        lemma_rows_error_stays(ls, m + 1, h);
    }
}

} // verus!
