//! The pixel grid, its classification into line and spacing zones, and the
//! scan of those zones for complete staves.

use vstd::prelude::*;
use crate::staff::{Area, Staff, STAFF_AREAS, extend};

verus! {

/// Number of `true` cells in `s`.
pub open spec fn count_true(s: Seq<bool>) -> nat
    decreases s.len(),
{
    if s.len() == 0 {
        0
    } else {
        count_true(s.drop_last()) + if s.last() {
            1nat
        } else {
            0nat
        }
    }
}

/// Row `y` of a row-major grid of the given width.
pub open spec fn grid_row(pixels: Seq<bool>, width: nat, y: int) -> Seq<bool> {
    pixels.subrange(y * width, y * width + width)
}

/// A row is a line when ink covers at least half of it.
pub open spec fn row_is_line(pixels: Seq<bool>, width: nat, y: int) -> bool {
    count_true(grid_row(pixels, width, y)) * 2 >= width
}

/// The classification of each row, top to bottom: `true` for a line row.
pub open spec fn row_classes(pixels: Seq<bool>, width: nat, height: nat) -> Seq<bool> {
    Seq::new(height, |y: int| row_is_line(pixels, width, y))
}

/// The area of one row of the given class.
pub open spec fn single_row(is_line: bool) -> Area {
    if is_line {
        Area::Line(1)
    } else {
        Area::Spacing(1)
    }
}

/// The same area, one row taller.
pub open spec fn grown(a: Area) -> Area {
    match a {
        Area::Line(n) => Area::Line((n + 1) as usize),
        Area::Spacing(n) => Area::Spacing((n + 1) as usize),
    }
}

/// Run-length encoding of row classes: each row joins the last area when it has
/// the same class, and starts a new area of one row otherwise.
pub open spec fn run_lengths(rows: Seq<bool>) -> Seq<Area>
    decreases rows.len(),
{
    if rows.len() == 0 {
        seq![]
    } else {
        let prev = run_lengths(rows.drop_last());
        if prev.len() > 0 && (prev.last() is Line) == rows.last() {
            prev.update(prev.len() - 1, grown(prev.last()))
        } else {
            prev.push(single_row(rows.last()))
        }
    }
}

/// The rows that a sequence of areas stands for, top to bottom.
pub open spec fn expand(areas: Seq<Area>) -> Seq<bool>
    decreases areas.len(),
{
    if areas.len() == 0 {
        seq![]
    } else {
        expand(areas.drop_last()) + Seq::new(
            areas.last().size() as nat,
            |_i: int| areas.last() is Line,
        )
    }
}

/// The zones are a faithful, maximal run-length encoding of the rows: they
/// expand back to the rows, each is at least one row high, and neighbours
/// differ in kind.
pub proof fn lemma_run_lengths(rows: Seq<bool>)
    requires
        rows.len() <= usize::MAX,
    ensures
        expand(run_lengths(rows)) == rows,
        forall|i: int|
            0 <= i < run_lengths(rows).len() ==> 1 <= #[trigger] run_lengths(rows)[i].size()
                <= rows.len(),
        forall|i: int|
            0 <= i < run_lengths(rows).len() - 1 ==> (#[trigger] run_lengths(rows)[i] is Line) != (
            run_lengths(rows)[i + 1] is Line),
        rows.len() > 0 ==> run_lengths(rows).len() > 0 && (run_lengths(rows).last() is Line)
            == rows.last(),
    decreases rows.len(),
{
    if rows.len() > 0 {
        let prev = rows.drop_last();
        lemma_run_lengths(prev);
        let z0 = run_lengths(prev);
        let z = run_lengths(rows);
        let c = rows.last();
        assert(rows =~= prev.push(c));
        if z0.len() > 0 && (z0.last() is Line) == c {
            let n = z0.last().size();
            assert(z.last().size() == n + 1);
            assert(z.last() is Line == c);
            assert(z.drop_last() =~= z0.drop_last());
            assert(expand(z0) == expand(z0.drop_last()) + Seq::new(n as nat, |_i: int| c));
            assert(Seq::new((n + 1) as nat, |_i: int| c) =~= Seq::new(n as nat, |_i: int| c).push(
                c,
            ));
            assert(expand(z) =~= rows);
        } else {
            assert(z.drop_last() =~= z0);
            assert(Seq::new(1, |_i: int| c) =~= seq![c]);
            assert(expand(z) =~= rows);
        }
    }
}

/// Offers `a` to each candidate in creation order and returns the first one
/// that it completes, if any.
pub open spec fn first_complete(cands: Seq<Seq<Area>>, a: Area) -> Option<Seq<Area>>
    decreases cands.len(),
{
    if cands.len() == 0 {
        None
    } else if extend(cands[0], a).len() == STAFF_AREAS {
        Some(extend(cands[0], a))
    } else {
        first_complete(cands.drop_first(), a)
    }
}

/// Every candidate after being offered `a`.
pub open spec fn extend_all(cands: Seq<Seq<Area>>, a: Area) -> Seq<Seq<Area>> {
    cands.map_values(|c: Seq<Area>| extend(c, a))
}

/// The candidates after a new one is seeded on `a`, which only a line does.
pub open spec fn seed(cands: Seq<Seq<Area>>, a: Area) -> Seq<Seq<Area>> {
    if a is Line {
        cands.push(seq![a])
    } else {
        cands
    }
}

/// Scans `zones` from index `i` with the open candidates `cands`: the first
/// staff completed, if any, and the index just past the zone that completed it
/// (the end of the zones when none did).
pub open spec fn scan(zones: Seq<Area>, i: nat, cands: Seq<Seq<Area>>) -> (Option<Seq<Area>>, nat)
    decreases zones.len() - i,
{
    if i >= zones.len() {
        (None, i)
    } else {
        match first_complete(cands, zones[i as int]) {
            Some(s) => (Some(s), i + 1),
            None => scan(zones, i + 1, seed(extend_all(cands, zones[i as int]), zones[i as int])),
        }
    }
}

/// A scan that finds no staff runs to the end of the zones, and a scan from
/// the end finds nothing: once exhausted, the sequence of staves stays empty.
pub proof fn lemma_scan_exhausted(zones: Seq<Area>, i: nat, cands: Seq<Seq<Area>>)
    requires
        i <= zones.len(),
    ensures
        scan(zones, i, cands).0 is None ==> scan(zones, i, cands).1 == zones.len(),
        scan(zones, i, cands).0 is Some ==> i < scan(zones, i, cands).1 <= zones.len(),
        scan(zones, zones.len(), cands) == (None::<Seq<Area>>, zones.len()),
    decreases zones.len() - i,
{
    if i < zones.len() {
        let a = zones[i as int];
        if first_complete(cands, a) is None {
            lemma_scan_exhausted(zones, i + 1, seed(extend_all(cands, a), a));
        }
    }
}

/// Why the grid cannot be searched for staves.
#[derive(Clone, Copy, Debug, PartialEq, Eq, Structural)]
pub enum StaffMatcherError {
    EmptyArea,
}

/// A width x height grid of ink marks, and the zones last computed from it.
#[derive(Debug)]
pub struct StaffMatcher {
    pub width: usize,
    pub height: usize,
    pub pixel_arr: Vec<bool>,
    pub area_vec: Vec<Area>,
}

impl StaffMatcher {
    /// The grid holds one cell per pixel, row-major.
    pub open spec fn wf(&self) -> bool {
        &&& self.width * self.height <= usize::MAX
        &&& self.pixel_arr@.len() == self.width * self.height
    }

    /// The zones of the grid as it stands.
    pub open spec fn zones(&self) -> Seq<Area> {
        run_lengths(row_classes(self.pixel_arr@, self.width as nat, self.height as nat))
    }

    /// An empty grid of the given size, with no zones.
    pub fn new(width: usize, height: usize) -> (r: StaffMatcher)
        requires
            width * height <= usize::MAX,
        ensures
            r.wf(),
            r.width == width,
            r.height == height,
            r.pixel_arr@ == Seq::new((width * height) as nat, |_i: int| false),
            r.area_vec@ == Seq::<Area>::empty(),
    {
        let r = StaffMatcher {
            width,
            height,
            pixel_arr: vec![false; width * height],
            area_vec: Vec::new(),
        };
        assert(r.pixel_arr@ =~= Seq::new((width * height) as nat, |_i: int| false));
        r
    }

    /// Marks the cell at column `x`, row `y` as ink; a cell outside the grid is ignored.
    pub fn add_black_pixel(&mut self, x: usize, y: usize)
        requires
            old(self).wf(),
        ensures
            final(self).wf(),
            final(self).width == old(self).width,
            final(self).height == old(self).height,
            final(self).area_vec@ == old(self).area_vec@,
            x < old(self).width && y < old(self).height ==> final(self).pixel_arr@ == old(
                self,
            ).pixel_arr@.update(y * old(self).width + x, true),
            !(x < old(self).width && y < old(self).height) ==> final(self).pixel_arr@ == old(
                self,
            ).pixel_arr@,
    {
        if x < self.width && y < self.height {
            proof {
                lemma_cell_in_grid(x as int, y as int, self.width as int, self.height as int);
            }
            self.pixel_arr.set(y * self.width + x, true);
        }
    }

    /// Number of ink cells in row `y`.
    fn row_density(&self, y: usize) -> (r: usize)
        requires
            self.wf(),
            0 < self.width,
            y < self.height,
        ensures
            r == count_true(grid_row(self.pixel_arr@, self.width as nat, y as int)),
            r <= self.width,
    {
        let mut count: usize = 0;
        let mut x: usize = 0;
        let ghost row = grid_row(self.pixel_arr@, self.width as nat, y as int);
        proof {
            lemma_cell_in_grid(0, y as int, self.width as int, self.height as int);
        }
        let start: usize = y * self.width;
        while x < self.width
            invariant
                self.wf(),
                0 < self.width,
                y < self.height,
                start == y * self.width,
                start + self.width <= self.pixel_arr@.len(),
                row == grid_row(self.pixel_arr@, self.width as nat, y as int),
                x <= self.width,
                count <= x,
                count == count_true(row.take(x as int)),
            decreases self.width - x,
        {
            assert(row.take(x + 1).drop_last() =~= row.take(x as int));
            if self.pixel_arr[start + x] {
                count = count + 1;
            }
            x = x + 1;
        }
        assert(row.take(x as int) =~= row);
        count
    }

    /// Recomputes the zones from the grid. An empty grid (no column or no row)
    /// is refused and leaves the matcher as it was.
    pub fn prepare(&mut self) -> (r: Result<(), StaffMatcherError>)
        requires
            old(self).wf(),
        ensures
            final(self).wf(),
            final(self).width == old(self).width,
            final(self).height == old(self).height,
            final(self).pixel_arr@ == old(self).pixel_arr@,
            (old(self).width == 0 || old(self).height == 0) <==> r is Err,
            r is Err ==> r == Err::<(), StaffMatcherError>(StaffMatcherError::EmptyArea)
                && final(self).area_vec@ == old(self).area_vec@,
            r is Ok ==> final(self).area_vec@ == final(self).zones(),
    {
        if self.width == 0 || self.height == 0 {
            return Err(StaffMatcherError::EmptyArea);
        }
        let ghost rows = row_classes(self.pixel_arr@, self.width as nat, self.height as nat);
        let mut areas: Vec<Area> = Vec::new();
        let mut y: usize = 0;
        while y < self.height
            invariant
                self.wf(),
                0 < self.width,
                rows == row_classes(self.pixel_arr@, self.width as nat, self.height as nat),
                y <= self.height,
                areas@ == run_lengths(rows.take(y as int)),
            decreases self.height - y,
        {
            let density = self.row_density(y);
            let is_line = density >= self.width - density;
            proof {
                lemma_run_lengths(rows.take(y as int));
                assert(rows.take(y + 1).drop_last() =~= rows.take(y as int));
                assert(is_line == rows[y as int]);
            }
            let len = areas.len();
            if len > 0 {
                match areas[len - 1] {
                    Area::Line(n) if is_line => {
                        areas.set(len - 1, Area::Line(n + 1));
                    },
                    Area::Spacing(n) if !is_line => {
                        areas.set(len - 1, Area::Spacing(n + 1));
                    },
                    _ => {
                        areas.push(if is_line {
                            Area::Line(1)
                        } else {
                            Area::Spacing(1)
                        });
                    },
                }
            } else {
                areas.push(if is_line {
                    Area::Line(1)
                } else {
                    Area::Spacing(1)
                });
            }
            y = y + 1;
        }
        assert(rows.take(y as int) =~= rows);
        self.area_vec = areas;
        Ok(())
    }

    /// Recomputes the zones and starts a scan for staves at the first zone.
    /// An empty grid is refused as `prepare` refuses it.
    pub fn iter(&mut self) -> (r: Result<MatchedStaffs<'_>, StaffMatcherError>)
        requires
            old(self).wf(),
        ensures
            (old(self).width == 0 || old(self).height == 0) <==> r is Err,
            r is Err ==> r == Err::<MatchedStaffs<'_>, StaffMatcherError>(
                StaffMatcherError::EmptyArea,
            ),
            final(self).wf(),
            final(self).width == old(self).width,
            final(self).height == old(self).height,
            final(self).pixel_arr@ == old(self).pixel_arr@,
            r is Ok ==> final(self).area_vec@ == old(self).zones(),
            r is Err ==> final(self).area_vec@ == old(self).area_vec@,
            r matches Ok(it) ==> it.wf() && it.position() == 0 && it.position() <= it.zones().len()
                && it.zones() == old(self).zones(),
    {
        match self.prepare() {
            Ok(()) => Ok(MatchedStaffs { matcher: self, index: 0 }),
            Err(e) => Err(e),
        }
    }
}

/// A forward scan of a matcher's zones that yields one complete staff at a time.
pub struct MatchedStaffs<'a> {
    matcher: &'a StaffMatcher,
    index: usize,
}

impl<'a> MatchedStaffs<'a> {
    /// The zones being scanned.
    pub closed spec fn zones(&self) -> Seq<Area> {
        self.matcher.area_vec@
    }

    /// The index of the next zone to scan.
    pub closed spec fn position(&self) -> nat {
        self.index as nat
    }

    /// The scan position lies within the zones.
    pub closed spec fn wf(&self) -> bool {
        self.index <= self.matcher.area_vec@.len()
    }

    /// Scans on from the current zone with no open candidate, and yields the
    /// first staff completed; `None` once the zones are exhausted.
    pub fn next(&mut self) -> (r: Option<Staff>)
        requires
            old(self).wf(),
        ensures
            final(self).wf(),
            final(self).zones() == old(self).zones(),
            final(self).position() <= final(self).zones().len(),
            final(self).position() == scan(old(self).zones(), old(self).position(), seq![]).1,
            r is None ==> scan(old(self).zones(), old(self).position(), seq![]).0 is None,
            r matches Some(s) ==> scan(old(self).zones(), old(self).position(), seq![]).0 == Some(
                s@,
            ) && s.wf() && s.complete && s@.len() == STAFF_AREAS,
    {
        let ghost zones = self.zones();
        let ghost start = self.position();
        let mut staff_vec: Vec<Staff> = Vec::new();
        let ghost mut cands: Seq<Seq<Area>> = seq![];
        assert(staff_vec@.map_values(|s: Staff| s@) =~= cands);
        while self.index < self.matcher.area_vec.len()
            invariant
                zones == self.zones(),
                zones == old(self).zones(),
                start == old(self).position(),
                self.wf(),
                staff_vec@.map_values(|s: Staff| s@) == cands,
                forall|k: int|
                    0 <= k < staff_vec@.len() ==> (#[trigger] staff_vec@[k]).wf()
                        && !staff_vec@[k].complete,
                scan(zones, start, seq![]) == scan(zones, self.position(), cands),
            decreases zones.len() - self.index,
        {
            let area = self.matcher.area_vec[self.index];
            self.index = self.index + 1;
            let ghost cands0 = cands;
            let mut k: usize = 0;
            assert(cands0.subrange(0, cands0.len() as int) =~= cands0);
            while k < staff_vec.len()
                invariant
                    zones == self.zones(),
                    zones == old(self).zones(),
                    start == old(self).position(),
                    self.wf(),
                    0 < self.index,
                    area == zones[self.index - 1],
                    scan(zones, start, seq![]) == scan(zones, (self.index - 1) as nat, cands0),
                    staff_vec@.len() == cands0.len(),
                    forall|j: int|
                        0 <= j < staff_vec@.len() ==> (#[trigger] staff_vec@[j]).wf()
                            && !staff_vec@[j].complete,
                    k <= staff_vec@.len(),
                    forall|j: int| 0 <= j < k ==> (#[trigger] staff_vec@[j])@ == extend(cands0[j], area),
                    forall|j: int| k <= j < staff_vec@.len() ==> (#[trigger] staff_vec@[j])@ == cands0[j],
                    first_complete(cands0, area) == first_complete(cands0.subrange(k as int, cands0.len() as int), area),
                decreases staff_vec@.len() - k,
            {
                let _ = staff_vec[k].add_area(&area);
                assert(cands0.subrange(k as int, cands0.len() as int).drop_first() =~= cands0.subrange(k + 1, cands0.len() as int));
                if staff_vec[k].complete {
                    let ghost sub = cands0.subrange(k as int, cands0.len() as int);
                    assert(sub[0] == cands0[k as int]);
                    let done = staff_vec.remove(k);
                    return Some(done);
                }
                k = k + 1;
            }
            assert(cands0.subrange(k as int, cands0.len() as int) =~= Seq::<Seq<Area>>::empty());
            assert(staff_vec@.map_values(|s: Staff| s@) =~= extend_all(cands0, area));
            proof {
                cands = seed(extend_all(cands0, area), area);
            }
            match Staff::new(&area) {
                Ok(s) => staff_vec.push(s),
                Err(_) => {},
            }
            assert(staff_vec@.map_values(|s: Staff| s@) =~= cands);
        }
        None
    }
}

/// A cell inside the grid has a row-major index inside the grid.
pub(crate) proof fn lemma_cell_in_grid(x: int, y: int, width: int, height: int)
    requires
        0 <= x < width,
        0 <= y < height,
    ensures
        0 <= y * width,
        0 <= y * width + x < width * height,
        y * width + width <= width * height,
{
    assert(y * width + width <= width * height) by (nonlinear_arith)
        requires
            0 <= y < height,
            0 < width,
    ;
    assert(0 <= y * width) by (nonlinear_arith)
        requires
            0 <= y,
            0 < width,
    ;
}

} // verus!
