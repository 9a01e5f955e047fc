use vstd::prelude::*;
use itertools::Itertools;
use crate::coords::TileCoords;
use crate::travel::{Travel, route, route_fits};

verus! {

/// `s` with every repeated cell removed, the first occurrence of each kept
/// in its place.
pub open spec fn dedup(s: Seq<TileCoords>) -> Seq<TileCoords>
    decreases s.len(),
{
    if s.len() == 0 {
        seq![]
    } else {
        let p = dedup(s.drop_last());
        if p.contains(s.last()) {
            p
        } else {
            p.push(s.last())
        }
    }
}

/// `k` is the first position of `r` whose cell belongs to `set`.
pub open spec fn is_first_hit(set: Seq<TileCoords>, r: Seq<TileCoords>, k: int) -> bool {
    &&& 0 <= k < r.len()
    &&& set.contains(r[k])
    &&& forall|j: int| 0 <= j < k ==> !set.contains(#[trigger] r[j])
}

/// Some cell of `r` belongs to `set`.
pub open spec fn crosses(set: Seq<TileCoords>, r: Seq<TileCoords>) -> bool {
    exists|k: int| 0 <= k < r.len() && set.contains(#[trigger] r[k])
}

/// Relies on itertools::Itertools::unique: it yields each distinct item once,
/// at its first occurrence, in the order of the input.
#[verifier::external_body]
fn unique_coords(v: Vec<TileCoords>) -> (r: Vec<TileCoords>)
    ensures
        r@ == dedup(v@),
{
    v.into_iter().unique().collect()
}

/// The larger of two integers.
pub open spec fn max_int(a: int, b: int) -> int {
    if a > b {
        a
    } else {
        b
    }
}

/// The smaller of two integers.
pub open spec fn min_int(a: int, b: int) -> int {
    if a < b {
        a
    } else {
        b
    }
}

/// The bounds (least x, least y, greatest x, greatest y) of the cells; all
/// zero when there are none.
pub open spec fn bounds(s: Seq<TileCoords>) -> (int, int, int, int)
    decreases s.len(),
{
    if s.len() == 0 {
        (0, 0, 0, 0)
    } else if s.len() == 1 {
        (s[0].x as int, s[0].y as int, s[0].x as int, s[0].y as int)
    } else {
        let b = bounds(s.drop_last());
        let c = s.last();
        (min_int(b.0, c.x as int), min_int(b.1, c.y as int), max_int(b.2, c.x as int), max_int(
            b.3,
            c.y as int,
        ))
    }
}

/// One row of the picture of `set`: a `#` for each cell of row `y` from
/// column `x0` on, `w` columns, in the set, a space for each other, then a
/// line break.
pub open spec fn picture_row(set: Seq<TileCoords>, x0: int, w: int, y: int) -> Seq<char> {
    Seq::new(
        w as nat,
        |k: int|
            if set.contains(TileCoords { x: (x0 + k) as i32, y: y as i32 }) {
                '#'
            } else {
                ' '
            },
    ).push('\n')
}

/// The first `r` rows of the picture of `set`, from row `top` downwards.
pub open spec fn picture_rows(set: Seq<TileCoords>, x0: int, w: int, top: int, r: int) -> Seq<
    char,
>
    decreases r,
{
    if r <= 0 {
        seq![]
    } else {
        picture_rows(set, x0, w, top, r - 1) + picture_row(set, x0, w, top - (r - 1))
    }
}

/// The picture of a set of cells: its bounding box, top row first.
pub open spec fn picture(set: Seq<TileCoords>) -> Seq<char> {
    let b = bounds(set);
    picture_rows(set, b.0, b.2 - b.0 + 1, b.3, b.3 - b.1 + 1)
}

/// Relies on `FromIterator<char>` for `String`: the string of the characters, in order.
#[verifier::external_body]
fn string_of(chars: Vec<char>) -> (r: String)
    ensures
        r@ == chars@,
{
    chars.into_iter().collect()
}

/// Whether `target` lies on the route of `travel` from `original`.
pub fn collide_with(original: &TileCoords, travel: &Travel, target: &TileCoords) -> (r: bool)
    requires
        route_fits(*original, *travel),
    ensures
        r == route(*original, *travel).contains(*target),
{
    let rt = travel.get_route(*original);
    contains_coords(&rt, target)
}

/// Whether `v` holds `c`.
fn contains_coords(v: &Vec<TileCoords>, c: &TileCoords) -> (r: bool)
    ensures
        r == v@.contains(*c),
{
    let mut i: usize = 0;
    while i < v.len()
        invariant
            0 <= i <= v.len(),
            forall|j: int| 0 <= j < i ==> v@[j] != *c,
        decreases v.len() - i,
    {
        if v[i] == *c {
            return true;
        }
        i = i + 1;
    }
    false
}

/// A set of blocking cells.
pub struct Collision {
    collision: Vec<TileCoords>,
}

impl View for Collision {
    type V = Seq<TileCoords>;

    closed spec fn view(&self) -> Seq<TileCoords> {
        self.collision@
    }
}

impl Clone for Collision {
    fn clone(&self) -> (r: Collision)
        ensures
            r@ == self@,
    {
        Collision { collision: self.collision.clone() }
    }
}

impl Collision {
    /// The empty set.
    pub fn new() -> (r: Collision)
        ensures
            r@ == Seq::<TileCoords>::empty(),
    {
        Collision { collision: Vec::new() }
    }

    /// The set of the given cells.
    pub fn from(value: Vec<TileCoords>) -> (r: Collision)
        ensures
            r@ == value@,
    {
        Collision { collision: value }
    }

    /// The cells of the set.
    pub fn cells(&self) -> (r: &Vec<TileCoords>)
        ensures
            r@ == self@,
    {
        &self.collision
    }

    /// The union of two sets, each cell once, in order of first appearance.
    pub fn add(self, rhs: Collision) -> (r: Collision)
        ensures
            r@ == dedup(self@ + rhs@),
            r@.no_duplicates(),
            forall|c: TileCoords| r@.contains(c) <==> (self@.contains(c) || rhs@.contains(c)),
    {
        let mut all = self.collision;
        let mut other = rhs.collision;
        all.append(&mut other);
        proof {
            lemma_dedup(all@);
            assert forall|c: TileCoords| all@.contains(c) <==> (self@.contains(c) || rhs@.contains(
                c,
            )) by {
                if self@.contains(c) {
                    let k = choose|k: int| 0 <= k < self@.len() && self@[k] == c;
                    assert(all@[k] == c);
                }
                if rhs@.contains(c) {
                    let k = choose|k: int| 0 <= k < rhs@.len() && rhs@[k] == c;
                    assert(all@[self@.len() + k] == c);
                }
                if all@.contains(c) {
                    let k = choose|k: int| 0 <= k < all@.len() && all@[k] == c;
                    if k < self@.len() {
                        assert(self@[k] == c);
                    } else {
                        assert(rhs@[k - self@.len()] == c);
                    }
                }
            }
        }
        Collision { collision: unique_coords(all) }
    }

    /// The bounds of the set: least x, least y, greatest x, greatest y.
    fn bounds(&self) -> (r: (i32, i32, i32, i32))
        ensures
            r.0 as int == bounds(self@).0,
            r.1 as int == bounds(self@).1,
            r.2 as int == bounds(self@).2,
            r.3 as int == bounds(self@).3,
    {
        let v = &self.collision;
        if v.len() == 0 {
            return (0, 0, 0, 0);
        }
        let mut b = (v[0].x, v[0].y, v[0].x, v[0].y);
        let mut i: usize = 1;
        while i < v.len()
            invariant
                1 <= i <= v@.len(),
                v@ == self@,
                b.0 as int == bounds(v@.take(i as int)).0,
                b.1 as int == bounds(v@.take(i as int)).1,
                b.2 as int == bounds(v@.take(i as int)).2,
                b.3 as int == bounds(v@.take(i as int)).3,
            decreases v.len() - i,
        {
            assert(v@.take(i + 1).drop_last() =~= v@.take(i as int));
            let c = v[i];
            if c.x < b.0 {
                b.0 = c.x;
            }
            if c.y < b.1 {
                b.1 = c.y;
            }
            if c.x > b.2 {
                b.2 = c.x;
            }
            if c.y > b.3 {
                b.3 = c.y;
            }
            i = i + 1;
        }
        assert(v@.take(v@.len() as int) =~= v@);
        b
    }

    /// A picture of the set for reading: one line per row of its bounding
    /// box, top row first, with `#` on the cells of the set and a space
    /// elsewhere.
    pub fn fmt(&self) -> (r: String)
        ensures
            r@ == picture(self@),
    {
        let (x0, y0, x1, y1) = self.bounds();
        proof {
            lemma_bounds_ordered(self@);
        }
        let w: i64 = x1 as i64 - x0 as i64 + 1;
        let h: i64 = y1 as i64 - y0 as i64 + 1;
        let mut out: Vec<char> = Vec::new();
        let mut r: i64 = 0;
        while r < h
            invariant
                0 <= r <= h,
                h == y1 - y0 + 1,
                w == x1 - x0 + 1,
                x0 <= x1,
                y0 <= y1,
                out@ == picture_rows(self@, x0 as int, w as int, y1 as int, r as int),
            decreases h - r,
        {
            let y = (y1 as i64 - r) as i32;
            let ghost start = out@;
            let mut k: i64 = 0;
            while k < w
                invariant
                    0 <= k <= w,
                    w == x1 - x0 + 1,
                    x0 <= x1,
                    out@ == start + picture_row(self@, x0 as int, w as int, y as int).take(k as int),
                decreases w - k,
            {
                let cell = TileCoords { x: (x0 as i64 + k) as i32, y };
                let ch = if self.contains(&cell) {
                    '#'
                } else {
                    ' '
                };
                out.push(ch);
                assert(start + picture_row(self@, x0 as int, w as int, y as int).take(k + 1) =~= (
                start + picture_row(self@, x0 as int, w as int, y as int).take(k as int)).push(ch));
                k = k + 1;
            }
            out.push('\n');
            assert(picture_row(self@, x0 as int, w as int, y as int) =~= picture_row(
                self@,
                x0 as int,
                w as int,
                y as int,
            ).take(w as int).push('\n'));
            r = r + 1;
        }
        string_of(out)
    }

    /// Whether `c` belongs to the set.
    pub fn contains(&self, c: &TileCoords) -> (r: bool)
        ensures
            r == self@.contains(*c),
    {
        contains_coords(&self.collision, c)
    }

    /// Whether the route of `travel` from `original` crosses any cell of the set.
    pub fn do_collide(&self, original: &TileCoords, travel: &Travel) -> (r: bool)
        requires
            route_fits(*original, *travel),
        ensures
            r == crosses(self@, route(*original, *travel)),
    {
        let hit = self.collide_at(original, travel);
        hit.is_some()
    }

    /// The first cell, in route order, at which the route of `travel` from
    /// `original` crosses the set.
    pub fn collide_at(&self, original: &TileCoords, travel: &Travel) -> (r: Option<TileCoords>)
        requires
            route_fits(*original, *travel),
        ensures
            r is None <==> !crosses(self@, route(*original, *travel)),
            r matches Some(c) ==> exists|k: int|
                is_first_hit(self@, route(*original, *travel), k) && route(
                    *original,
                    *travel,
                )[k] == c,
    {
        let rt = travel.get_route(*original);
        let mut i: usize = 0;
        while i < rt.len()
            invariant
                0 <= i <= rt.len(),
                rt@ == route(*original, *travel),
                forall|j: int| 0 <= j < i ==> !self@.contains(#[trigger] rt@[j]),
            decreases rt.len() - i,
        {
            if self.contains(&rt[i]) {
                assert(is_first_hit(self@, rt@, i as int));
                return Some(rt[i]);
            }
            i = i + 1;
        }
        None
    }
}

/// Removing repeats keeps exactly the cells of the input, each once.
pub proof fn lemma_dedup(s: Seq<TileCoords>)
    ensures
        dedup(s).no_duplicates(),
        forall|c: TileCoords| dedup(s).contains(c) <==> s.contains(c),
    decreases s.len(),
{
    if s.len() > 0 {
        let t = s.drop_last();
        lemma_dedup(t);
        let p = dedup(t);
        assert forall|c: TileCoords| dedup(s).contains(c) <==> s.contains(c) by {
            if s.contains(c) {
                let k = choose|k: int| 0 <= k < s.len() && s[k] == c;
                if k < s.len() - 1 {
                    assert(t[k] == c);
                    assert(t.contains(c));
                    assert(p.contains(c));
                    let i = choose|i: int| 0 <= i < p.len() && p[i] == c;
                    if !p.contains(s.last()) {
                        assert(dedup(s)[i] == c);
                    }
                } else {
                    if !p.contains(s.last()) {
                        assert(dedup(s)[p.len() as int] == c);
                    }
                }
            }
            if dedup(s).contains(c) {
                if p.contains(c) {
                    assert(t.contains(c));
                    let k = choose|k: int| 0 <= k < t.len() && t[k] == c;
                    assert(s[k] == c);
                } else {
                    let i = choose|i: int| 0 <= i < dedup(s).len() && dedup(s)[i] == c;
                    if i < p.len() {
                        assert(p[i] == c);
                    }
                    assert(c == s.last());
                    assert(s[s.len() - 1] == c);
                }
            }
        }
    }
}

/// The least coordinates of a set are no greater than the greatest.
proof fn lemma_bounds_ordered(s: Seq<TileCoords>)
    ensures
        bounds(s).0 <= bounds(s).2,
        bounds(s).1 <= bounds(s).3,
    decreases s.len(),
{
    if s.len() > 1 {
        lemma_bounds_ordered(s.drop_last());
    }
}

} // verus!
