use vstd::prelude::*;

verus! {

/// Number of grid steps in one unit of length.
pub const UNIT: u32 = 1_000_000;

/// Invalid static setup of a simulation or an agent.
#[derive(Debug, Clone, Copy, PartialEq, Eq, Structural)]
pub enum ConfigurationError {
    /// Some interval has its lower end above its upper end.
    InvalidBounds,
    /// The requested agent strategy cannot produce an agent.
    UnsupportedStrategy,
    /// A stochastic strategy was requested without an entropy source.
    MissingEntropySource,
}

/// A closed interval `[lo, hi]` of grid coordinates.
#[derive(Debug, Clone, Copy, PartialEq, Eq, Structural)]
pub struct Interval {
    pub lo: u32,
    pub hi: u32,
}

impl Interval {
    pub open spec fn wf(self) -> bool {
        self.lo <= self.hi
    }

    pub open spec fn holds(self, x: u32) -> bool {
        self.lo <= x <= self.hi
    }
}

/// Whether `point` has one coordinate per interval, each inside its interval.
pub open spec fn in_box(point: Seq<u32>, bounds: Seq<Interval>) -> bool {
    &&& point.len() == bounds.len()
    &&& forall|k: int| 0 <= k < bounds.len() ==> (#[trigger] bounds[k]).holds(point[k])
}

/// Whether every interval of `bounds` is well formed.
pub open spec fn all_wf(bounds: Seq<Interval>) -> bool {
    forall|k: int| 0 <= k < bounds.len() ==> (#[trigger] bounds[k]).wf()
}

/// `x` moved to the nearest point of `[lo, hi]`.
pub open spec fn clamp(x: u32, iv: Interval) -> u32 {
    if x < iv.lo {
        iv.lo
    } else if x > iv.hi {
        iv.hi
    } else {
        x
    }
}

/// Each coordinate of `point` moved into its interval.
pub open spec fn projection(point: Seq<u32>, bounds: Seq<Interval>) -> Seq<u32> {
    Seq::new(bounds.len(), |k: int| clamp(point[k], bounds[k]))
}

/// A box of closed intervals, one per dimension.
#[derive(Debug, Clone)]
pub struct ActionSpace {
    pub intervals: Vec<Interval>,
}

impl View for ActionSpace {
    type V = Seq<Interval>;

    open spec fn view(&self) -> Seq<Interval> {
        self.intervals@
    }
}

impl ActionSpace {
    pub open spec fn wf(&self) -> bool {
        all_wf(self@)
    }

    /// Builds the box from its intervals; fails when some `lo > hi`.
    pub fn bounded(intervals: Vec<Interval>) -> (r: Result<ActionSpace, ConfigurationError>)
        ensures
            all_wf(intervals@) ==> (r matches Ok(s) && s@ == intervals@),
            !all_wf(intervals@) ==> r == Err::<ActionSpace, ConfigurationError>(
                ConfigurationError::InvalidBounds,
            ),
    {
        let mut k: usize = 0;
        while k < intervals.len()
            invariant
                k <= intervals@.len(),
                forall|j: int| 0 <= j < k ==> (#[trigger] intervals@[j]).wf(),
            decreases intervals@.len() - k,
        {
            if intervals[k].lo > intervals[k].hi {
                return Err(ConfigurationError::InvalidBounds);
            }
            k += 1;
        }
        Ok(ActionSpace { intervals })
    }

    /// The box `[0, UNIT]^dim`, the unit cube.
    pub fn unit_cube(dim: u32) -> (r: ActionSpace)
        ensures
            r.wf(),
            r@ == Seq::new(dim as nat, |k: int| Interval { lo: 0, hi: UNIT }),
    {
        let mut intervals: Vec<Interval> = Vec::new();
        let mut k: u32 = 0;
        while k < dim
            invariant
                k <= dim,
                intervals@ == Seq::new(k as nat, |j: int| Interval { lo: 0, hi: UNIT }),
            decreases dim - k,
        {
            intervals.push(Interval { lo: 0, hi: UNIT });
            k += 1;
            assert(intervals@ =~= Seq::new(k as nat, |j: int| Interval { lo: 0, hi: UNIT }));
        }
        ActionSpace { intervals }
    }

    /// Number of dimensions.
    pub fn dim(&self) -> (r: usize)
        ensures
            r == self@.len(),
    {
        self.intervals.len()
    }

    /// Whether `point` lies inside the box.
    pub fn contains(&self, point: &Vec<u32>) -> (r: bool)
        ensures
            r == in_box(point@, self@),
    {
        if point.len() != self.intervals.len() {
            return false;
        }
        let mut k: usize = 0;
        while k < point.len()
            invariant
                k <= point@.len(),
                point@.len() == self@.len(),
                forall|j: int| 0 <= j < k ==> (#[trigger] self@[j]).holds(point@[j]),
            decreases point@.len() - k,
        {
            let iv = self.intervals[k];
            if point[k] < iv.lo || point[k] > iv.hi {
                return false;
            }
            k += 1;
        }
        true
    }

    /// Moves each coordinate of `point` to the nearest value of its interval.
    pub fn project(&self, point: &Vec<u32>) -> (r: Vec<u32>)
        requires
            point@.len() == self@.len(),
        ensures
            r@ == projection(point@, self@),
            self.wf() ==> in_box(r@, self@),
    {
        let mut r: Vec<u32> = Vec::new();
        let mut k: usize = 0;
        while k < point.len()
            invariant
                k <= point@.len(),
                point@.len() == self@.len(),
                r@ == Seq::new(k as nat, |j: int| clamp(point@[j], self@[j])),
            decreases point@.len() - k,
        {
            let iv = self.intervals[k];
            let x = point[k];
            let c = if x < iv.lo {
                iv.lo
            } else if x > iv.hi {
                iv.hi
            } else {
                x
            };
            r.push(c);
            k += 1;
            assert(r@ =~= Seq::new(k as nat, |j: int| clamp(point@[j], self@[j])));
        }
        r
    }
}

} // verus!
