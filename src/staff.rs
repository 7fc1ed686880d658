//! The staff state machine: five lines and four gaps, built one area at a time.

use vstd::prelude::*;

verus! {

/// A maximal run of rows sharing one classification, with its height in rows.
#[derive(Clone, Copy, Debug, PartialEq, Eq, Structural)]
pub enum Area {
    Line(usize),
    Spacing(usize),
}

impl Area {
    /// The run length of an area, whatever its kind.
    pub open spec fn size(self) -> int {
        match self {
            Area::Line(n) => n as int,
            Area::Spacing(n) => n as int,
        }
    }
}

/// Number of areas in a complete staff: five lines and the four gaps between them.
pub const STAFF_AREAS: usize = 9;

/// `n` lies in the band `[floor(first * 0.8), floor(first * 1.2)]`.
pub open spec fn within_tolerance(n: int, first: int) -> bool {
    (first * 4) / 5 <= n && n <= (first * 6) / 5
}

/// A well-formed staff: it starts on a line, kinds alternate, it holds at most
/// nine areas, and every later line (spacing) is within tolerance of the first
/// line (spacing).
pub open spec fn valid_staff(s: Seq<Area>) -> bool {
    &&& 1 <= s.len() <= STAFF_AREAS
    &&& forall|i: int| 0 <= i < s.len() ==> (#[trigger] s[i] is Line <==> i % 2 == 0)
    &&& forall|i: int|
        0 < i < s.len() && #[trigger] s[i] is Line ==> within_tolerance(s[i].size(), s[0].size())
    &&& forall|i: int|
        1 < i < s.len() && #[trigger] s[i] is Spacing ==> within_tolerance(
            s[i].size(),
            s[1].size(),
        )
}

/// Whether a staff whose areas are `s` takes `a` next, by the shape of `s` and
/// the size of `a` against the first area of the same kind.
pub open spec fn accepts(s: Seq<Area>, a: Area) -> bool {
    match a {
        Area::Line(n) => {
            &&& s.len() >= 2
            &&& s[0] is Line
            &&& s.last() is Spacing
            &&& within_tolerance(n as int, s[0].size())
        },
        Area::Spacing(n) => {
            ||| (s.len() == 1 && s[0] is Line)
            ||| {
                &&& s.len() >= 3
                &&& s[0] is Line
                &&& s[1] is Spacing
                &&& s.last() is Line
                &&& within_tolerance(n as int, s[1].size())
            }
        },
    }
}

/// Areas after offering `a` to a staff whose areas are `s`: pushed when the
/// staff is not complete and takes it, else unchanged.
pub open spec fn extend(s: Seq<Area>, a: Area) -> Seq<Area> {
    if s.len() < STAFF_AREAS && accepts(s, a) {
        s.push(a)
    } else {
        s
    }
}

/// The tolerance band for lines: a staff that is not complete and ends on a
/// spacing takes a line of size `n` exactly when `n` lies within
/// `[floor(f * 0.8), floor(f * 1.2)]`, `f` being the size of its first line;
/// outside the band the line is refused and the staff unchanged.
pub proof fn lemma_line_tolerance_band(s: Seq<Area>, n: usize)
    requires
        valid_staff(s),
        s.len() < STAFF_AREAS,
        s.last() is Spacing,
    ensures
        accepts(s, Area::Line(n)) <==> (s[0].size() * 4) / 5 <= n <= (s[0].size() * 6) / 5,
        accepts(s, Area::Line(n)) ==> extend(s, Area::Line(n)) == s.push(Area::Line(n)),
        !accepts(s, Area::Line(n)) ==> extend(s, Area::Line(n)) == s,
{
    assert(s[s.len() - 1] is Spacing);
}

/// The tolerance band for spacings: a staff that is not complete, ends on a
/// line and already holds a spacing takes a spacing of size `n` exactly when
/// `n` lies within `[floor(f * 0.8), floor(f * 1.2)]`, `f` being the size of
/// its first spacing; outside the band the spacing is refused.
pub proof fn lemma_spacing_tolerance_band(s: Seq<Area>, n: usize)
    requires
        valid_staff(s),
        s.len() < STAFF_AREAS,
        s.len() >= 3,
        s.last() is Line,
    ensures
        accepts(s, Area::Spacing(n)) <==> (s[1].size() * 4) / 5 <= n <= (s[1].size() * 6) / 5,
        accepts(s, Area::Spacing(n)) ==> extend(s, Area::Spacing(n)) == s.push(Area::Spacing(n)),
        !accepts(s, Area::Spacing(n)) ==> extend(s, Area::Spacing(n)) == s,
{
    assert(s[0] is Line);
    assert(s[1] is Spacing);
}

/// The tolerance band, for any staff that is not complete: a line offered
/// after a spacing, or a spacing offered after a line once a spacing is
/// recorded, is taken exactly when its size `n` satisfies
/// `floor(f * 0.8) <= n <= floor(f * 1.2)`, `f` being the size of the first
/// area of its kind; otherwise the staff is left as it was (and `add_area`
/// answers `NoMatch`).
pub proof fn lemma_tolerance_band(s: Staff, n: usize)
    requires
        s.wf(),
        !s.complete,
    ensures
        s@.last() is Spacing ==> (extend(s@, Area::Line(n)) == s@.push(Area::Line(n)) <==> (
        s@[0].size() * 4) / 5 <= n <= (s@[0].size() * 6) / 5),
        s@.last() is Spacing && !((s@[0].size() * 4) / 5 <= n <= (s@[0].size() * 6) / 5)
            ==> extend(s@, Area::Line(n)) == s@ && !accepts(s@, Area::Line(n)),
        s@.len() >= 3 && s@.last() is Line ==> (extend(s@, Area::Spacing(n)) == s@.push(
            Area::Spacing(n),
        ) <==> (s@[1].size() * 4) / 5 <= n <= (s@[1].size() * 6) / 5),
        s@.len() >= 3 && s@.last() is Line && !((s@[1].size() * 4) / 5 <= n <= (s@[1].size() * 6)
            / 5) ==> extend(s@, Area::Spacing(n)) == s@ && !accepts(s@, Area::Spacing(n)),
{
    if s@.last() is Spacing {
        lemma_line_tolerance_band(s@, n);
        assert(s@.push(Area::Line(n)) != s@) by {
            assert(s@.push(Area::Line(n)).len() != s@.len());
        }
    }
    if s@.len() >= 3 && s@.last() is Line {
        lemma_spacing_tolerance_band(s@, n);
        assert(s@.push(Area::Spacing(n)) != s@) by {
            assert(s@.push(Area::Spacing(n)).len() != s@.len());
        }
    }
}

/// A complete staff holds exactly nine areas, lines at the even positions and
/// spacings at the odd ones, so no two neighbours are of one kind.
pub proof fn lemma_complete_staff_alternates(s: Staff)
    requires
        s.wf(),
        s.complete,
    ensures
        s@.len() == STAFF_AREAS,
        forall|i: int| 0 <= i < s@.len() ==> (#[trigger] s@[i] is Line <==> i % 2 == 0),
        forall|i: int| 0 <= i < s@.len() - 1 ==> (#[trigger] s@[i] is Line) != (s@[i + 1] is Line),
{
    assert forall|i: int| 0 <= i < s@.len() - 1 implies (#[trigger] s@[i] is Line) != (s@[i
        + 1] is Line) by {
        assert(s@[i] is Line <==> i % 2 == 0);
        assert(s@[i + 1] is Line <==> (i + 1) % 2 == 0);
    }
}

/// A well-formed staff is complete exactly when it holds nine areas, and never
/// holds more.
pub proof fn lemma_completion_exact(s: Staff)
    requires
        s.wf(),
    ensures
        s.complete <==> s@.len() == STAFF_AREAS,
        s@.len() <= STAFF_AREAS,
{
}

/// Why a staff did not take an area.
#[derive(Clone, Copy, Debug, PartialEq, Eq, Structural)]
pub enum StaffError {
    NoMatch,
    StaffComplete,
    StaffStartOnlyWithLine,
}

/// A staff candidate: alternating line and spacing areas, starting on a line.
#[derive(Debug, Clone)]
pub struct Staff {
    pub areas: Vec<Area>,
    pub complete: bool,
}

impl View for Staff {
    type V = Seq<Area>;

    open spec fn view(&self) -> Seq<Area> {
        self.areas@
    }
}

impl Staff {
    /// The staff's areas are well formed and `complete` says whether it has all nine.
    pub open spec fn wf(&self) -> bool {
        valid_staff(self@) && self.complete == (self@.len() == STAFF_AREAS)
    }

    /// Starts a staff on `area`, which must be a line.
    pub fn new(area: &Area) -> (r: Result<Staff, StaffError>)
        ensures
            area is Line ==> (r matches Ok(s) && s@ == seq![*area] && !s.complete && s.wf()),
            area is Spacing ==> r == Err::<Staff, StaffError>(StaffError::StaffStartOnlyWithLine),
    {
        match area {
            Area::Line(_) => {
                let mut areas: Vec<Area> = Vec::new();
                areas.push(*area);
                let s = Staff { areas, complete: false };
                assert(s@ =~= seq![*area]);
                Ok(s)
            },
            Area::Spacing(_) => Err(StaffError::StaffStartOnlyWithLine),
        }
    }

    /// The areas taken so far, in order.
    pub fn areas(&self) -> (r: &[Area])
        ensures
            r@ == self@,
    {
        self.areas.as_slice()
    }

    fn check_area_size(&self, new: usize, first: usize) -> (r: bool)
        ensures
            r == within_tolerance(new as int, first as int),
    {
        let fifth: usize = first / 5;
        let rem: usize = first % 5;
        let upper_ok = new <= first || new - first <= fifth;
        let lower_ok = new >= first || first - new <= fifth + (if rem == 0 {
            0
        } else {
            1
        });
        assert(upper_ok == (new as int <= (first as int * 6) / 5)) by (nonlinear_arith)
            requires
                fifth == first / 5,
                upper_ok == (new <= first || new - first <= fifth),
        ;
        assert(lower_ok == ((first as int * 4) / 5 <= new as int)) by (nonlinear_arith)
            requires
                fifth == first / 5,
                rem == first % 5,
                lower_ok == (new >= first || first - new <= fifth + (if rem == 0 {
                    0int
                } else {
                    1int
                })),
        ;
        upper_ok && lower_ok
    }

    /// Offers `area_to_match` to the staff. A complete staff refuses it with
    /// `StaffComplete`; one that does not take it by shape or size refuses it
    /// with `NoMatch`. Either way a refused area leaves the staff unchanged.
    pub fn add_area(&mut self, area_to_match: &Area) -> (r: Result<(), StaffError>)
        requires
            old(self).wf(),
        ensures
            final(self).wf(),
            old(self).complete ==> r == Err::<(), StaffError>(StaffError::StaffComplete),
            !old(self).complete && accepts(old(self)@, *area_to_match) ==> r == Ok::<(), StaffError>(()),
            !old(self).complete && !accepts(old(self)@, *area_to_match) ==> r == Err::<(), StaffError>(StaffError::NoMatch),
            r is Ok ==> final(self)@ == old(self)@.push(*area_to_match),
            r is Err ==> final(self)@ == old(self)@ && final(self).complete == old(self).complete,
            final(self)@ == extend(old(self)@, *area_to_match),
    {
        if self.complete {
            return Err(StaffError::StaffComplete);
        }
        let len = self.areas.len();
        let ok = match area_to_match {
            Area::Line(new) => {
                if len >= 2 {
                    match (self.areas[0], self.areas[len - 1]) {
                        (Area::Line(first), Area::Spacing(_)) => self.check_area_size(*new, first),
                        _ => false,
                    }
                } else {
                    false
                }
            },
            Area::Spacing(new) => {
                if len == 1 {
                    matches!(self.areas[0], Area::Line(_))
                } else if len >= 3 {
                    match (self.areas[0], self.areas[1], self.areas[len - 1]) {
                        (Area::Line(_), Area::Spacing(first), Area::Line(_)) => self.check_area_size(
                            *new,
                            first,
                        ),
                        _ => false,
                    }
                } else {
                    false
                }
            },
        };
        if !ok {
            return Err(StaffError::NoMatch);
        }
        self.areas.push(*area_to_match);
        self.complete = self.areas.len() == STAFF_AREAS;
        Ok(())
    }
}

} // verus!
