//! Price scenarios: what the mid price of a pair does over time.
//!
//! Prices, spreads and probabilities are keys.
use crate::collections::{Entries, StrMap};
use crate::mock::sizes::ONE_KEY;
use crate::text::{digits, number_text};
use vstd::prelude::*;

verus! {

/// How the mid price gets from one waypoint to the next.
#[derive(Clone, Copy, Debug, PartialEq, Eq, Structural)]
pub enum Interpolation {
    /// In a straight line.
    Linear,
    /// In one step, on arrival.
    Step,
}

impl Default for Interpolation {
    fn default() -> (r: Interpolation)
        ensures
            r == Interpolation::Linear,
    {
        Interpolation::Linear
    }
}

/// What happens when a scenario is over.
#[derive(Clone, Copy, Debug, PartialEq, Eq, Structural)]
pub enum EndBehavior {
    /// The last prices stay.
    HoldLast,
    /// The scenario begins again.
    Loop,
    /// The book is left alone.
    Stop,
}

impl Default for EndBehavior {
    fn default() -> (r: EndBehavior)
        ensures
            r == EndBehavior::HoldLast,
    {
        EndBehavior::HoldLast
    }
}

/// Values for segments that give none of their own.
#[derive(Clone, Copy, Debug)]
pub struct ScenarioDefaults {
    pub spread_pct: Option<i64>,
    pub fill_probability: Option<i64>,
    pub interpolation: Option<Interpolation>,
}

/// A point in time with its mid price and the settings of the segment that it begins.
#[derive(Clone, Copy, Debug)]
pub struct Waypoint {
    pub t_ms: u64,
    pub mid: i64,
    pub spread_pct: Option<i64>,
    pub fill_probability: Option<i64>,
    pub interpolation: Option<Interpolation>,
}

/// The scenario of one pair.
#[derive(Clone, Debug)]
pub struct PairScenario {
    pub starting_price: i64,
    pub waypoints: Vec<Waypoint>,
}

impl View for PairScenario {
    type V = (i64, Seq<Waypoint>);

    open spec fn view(&self) -> (i64, Seq<Waypoint>) {
        (self.starting_price, self.waypoints@)
    }
}

/// The scenarios of some pairs.
pub struct ScenarioFile {
    pub name: String,
    pub description: Option<String>,
    pub defaults: Option<ScenarioDefaults>,
    pub pairs: StrMap<PairScenario>,
    pub end_behavior: Option<EndBehavior>,
}

/// A mid price.
#[derive(Clone, Copy, Debug, PartialEq, Eq, Structural)]
#[allow(inconsistent_fields)]
pub enum Mid {
    /// The price with this key.
    At(i64),
    /// The price on the line from one price to another, `elapsed` of `span` along the way.
    Between { from: i64, to: i64, elapsed: u64, span: u64 },
}

/// Result of sampling a scenario at a given time.
#[derive(Clone, Copy, Debug)]
pub struct ScenarioSample {
    pub mid: Mid,
    pub spread_pct: Option<i64>,
    pub fill_probability: Option<i64>,
    pub finished: bool,
}

/// Why a scenario is not acceptable.
#[derive(Clone, Copy, Debug, PartialEq, Eq, Structural)]
#[allow(inconsistent_fields)]
pub enum ScenarioError {
    /// There are fewer than two waypoints.
    TooFewWaypoints { count: usize },
    /// The first waypoint is not at the start.
    FirstNotAtZero { t_ms: u64 },
    /// Waypoints do not follow one another in time.
    NotIncreasing { t_ms: u64, next: u64 },
    /// The starting price is not the first mid price.
    StartMismatch,
    /// A mid price is not positive.
    BadMid { t_ms: u64, mid: i64 },
    /// A spread is not positive.
    BadSpread { t_ms: u64, spread_pct: i64 },
    /// A probability is not between zero and one.
    BadProbability { t_ms: u64, fill_probability: i64 },
}

impl ScenarioError {
    /// The text of an error, with the text of the value at fault: the starting price, the mid
    /// price, the spread or the probability. For a starting price the first mid price is shown, too.
    pub open spec fn text(self, value: Seq<char>, first_mid: Seq<char>) -> Seq<char> {
        match self {
            ScenarioError::TooFewWaypoints { count } => "need at least 2 waypoints, got "@
                + digits(count as nat),
            ScenarioError::FirstNotAtZero { t_ms } => "first waypoint must have t_ms=0, got "@
                + digits(t_ms as nat),
            ScenarioError::NotIncreasing { t_ms, next } =>
                "waypoints must be strictly monotonically increasing (t_ms "@ + digits(
                t_ms as nat,
            ) + " followed by "@ + digits(next as nat) + ")"@,
            ScenarioError::StartMismatch => "starting_price ("@ + value
                + ") must match first waypoint mid ("@ + first_mid + ")"@,
            ScenarioError::BadMid { t_ms, .. } => "all mid values must be positive, got "@ + value
                + " at t_ms="@ + digits(t_ms as nat),
            ScenarioError::BadSpread { t_ms, .. } => "spread_pct must be positive, got "@ + value
                + " at t_ms="@ + digits(t_ms as nat),
            ScenarioError::BadProbability { t_ms, .. } =>
                "fill_probability must be in [0, 1], got "@ + value + " at t_ms="@ + digits(
                t_ms as nat,
            ),
        }
    }

    /// The text of the error, for the scenario of a pair.
    pub fn message(&self, symbol: &str, value: &str, first_mid: &str) -> (r: String)
        ensures
            r@ == symbol@ + ": "@ + self.text(value@, first_mid@),
    {
        let body = match self {
            ScenarioError::TooFewWaypoints { count } => String::from_str(
                "need at least 2 waypoints, got ",
            ).concat(number_text(*count as u64).as_str()),
            ScenarioError::FirstNotAtZero { t_ms } => String::from_str(
                "first waypoint must have t_ms=0, got ",
            ).concat(number_text(*t_ms).as_str()),
            ScenarioError::NotIncreasing { t_ms, next } => String::from_str(
                "waypoints must be strictly monotonically increasing (t_ms ",
            ).concat(number_text(*t_ms).as_str()).concat(" followed by ").concat(
                number_text(*next).as_str(),
            ).concat(")"),
            ScenarioError::StartMismatch => String::from_str("starting_price (").concat(
                value,
            ).concat(") must match first waypoint mid (").concat(first_mid).concat(")"),
            ScenarioError::BadMid { t_ms, .. } => String::from_str(
                "all mid values must be positive, got ",
            ).concat(value).concat(" at t_ms=").concat(number_text(*t_ms).as_str()),
            ScenarioError::BadSpread { t_ms, .. } => String::from_str(
                "spread_pct must be positive, got ",
            ).concat(value).concat(" at t_ms=").concat(number_text(*t_ms).as_str()),
            ScenarioError::BadProbability { t_ms, .. } => String::from_str(
                "fill_probability must be in [0, 1], got ",
            ).concat(value).concat(" at t_ms=").concat(number_text(*t_ms).as_str()),
        };
        symbol.to_owned().concat(": ").concat(body.as_str())
    }
}

/// What is wrong with two waypoints that follow one another.
pub open spec fn pair_fault(a: Waypoint, b: Waypoint) -> Option<ScenarioError> {
    if b.t_ms > a.t_ms {
        None
    } else {
        Some(ScenarioError::NotIncreasing { t_ms: a.t_ms, next: b.t_ms })
    }
}

/// The first fault in the times of waypoints, from the given index on.
pub open spec fn order_fault(w: Seq<Waypoint>, i: nat) -> Option<ScenarioError>
    decreases w.len() - i,
{
    if i + 1 >= w.len() {
        None
    } else {
        match pair_fault(w[i as int], w[i as int + 1]) {
            Some(e) => Some(e),
            None => order_fault(w, i + 1),
        }
    }
}

/// What is wrong with the values of a waypoint.
pub open spec fn value_fault(p: Waypoint) -> Option<ScenarioError> {
    if p.mid <= 0 {
        Some(ScenarioError::BadMid { t_ms: p.t_ms, mid: p.mid })
    } else if p.spread_pct is Some && p.spread_pct.unwrap() <= 0 {
        Some(ScenarioError::BadSpread { t_ms: p.t_ms, spread_pct: p.spread_pct.unwrap() })
    } else if p.fill_probability is Some && !(0 <= p.fill_probability.unwrap() <= ONE_KEY) {
        Some(
            ScenarioError::BadProbability {
                t_ms: p.t_ms,
                fill_probability: p.fill_probability.unwrap(),
            },
        )
    } else {
        None
    }
}

/// The first fault in the values of waypoints, from the given index on.
pub open spec fn values_fault(w: Seq<Waypoint>, i: nat) -> Option<ScenarioError>
    decreases w.len() - i,
{
    if i >= w.len() {
        None
    } else {
        match value_fault(w[i as int]) {
            Some(e) => Some(e),
            None => values_fault(w, i + 1),
        }
    }
}

/// The first fault of a scenario: too few waypoints, a late start, times out of order, another
/// starting price, or values out of range.
pub open spec fn fault(w: Seq<Waypoint>, start_matches: bool) -> Option<ScenarioError> {
    if w.len() < 2 {
        Some(ScenarioError::TooFewWaypoints { count: w.len() as usize })
    } else if w[0].t_ms != 0 {
        Some(ScenarioError::FirstNotAtZero { t_ms: w[0].t_ms })
    } else if order_fault(w, 0) is Some {
        order_fault(w, 0)
    } else if !start_matches {
        Some(ScenarioError::StartMismatch)
    } else {
        values_fault(w, 0)
    }
}

/// Whether waypoints begin at the start and follow one another in time.
pub open spec fn timed(w: Seq<Waypoint>) -> bool {
    &&& w.len() >= 2
    &&& w[0].t_ms == 0
    &&& forall|i: int, j: int| 0 <= i < j < w.len() ==> w[i].t_ms < w[j].t_ms
}

proof fn lemma_order(w: Seq<Waypoint>, i: nat, k: int)
    requires
        order_fault(w, i) is None,
        i <= k,
        k + 1 < w.len(),
    ensures
        w[k].t_ms < w[k + 1].t_ms,
    decreases k - i,
{
    if i < k {
        lemma_order(w, i + 1, k);
    }
}

proof fn lemma_rising(w: Seq<Waypoint>, i: int, j: int)
    requires
        order_fault(w, 0) is None,
        0 <= i < j < w.len(),
    ensures
        w[i].t_ms < w[j].t_ms,
    decreases j - i,
{
    lemma_order(w, 0, j - 1);
    if i < j - 1 {
        lemma_rising(w, i, j - 1);
    }
}

/// A scenario without a fault begins at the start and goes on in time.
pub proof fn accepted_scenarios_are_timed(w: Seq<Waypoint>, start_matches: bool)
    requires
        fault(w, start_matches) is None,
    ensures
        timed(w),
{
    assert forall|i: int, j: int| 0 <= i < j < w.len() implies w[i].t_ms < w[j].t_ms by {
        lemma_rising(w, i, j);
    }
}

/// Whether a time falls into the segment after a waypoint.
pub open spec fn falls_into(w: Seq<Waypoint>, t: u64, i: int) -> bool {
    0 <= i < w.len() - 1 && w[i].t_ms <= t && t < w[i + 1].t_ms
}

/// The index of the segment that a time falls into.
pub open spec fn segment(w: Seq<Waypoint>, t: u64) -> int {
    choose|i: int| falls_into(w, t, i)
}

/// The first of two optional keys that is there.
pub open spec fn key_or(a: Option<i64>, b: Option<i64>) -> Option<i64> {
    if a is Some {
        a
    } else {
        b
    }
}

/// The mid price on the way from one waypoint to the next.
pub open spec fn mid_between(
    a: Waypoint,
    b: Waypoint,
    t: u64,
    default: Option<Interpolation>,
) -> Mid {
    let way = match (a.interpolation, default) {
        (Some(x), _) => x,
        (None, Some(x)) => x,
        (None, None) => Interpolation::Linear,
    };
    match way {
        Interpolation::Linear => Mid::Between {
            from: a.mid,
            to: b.mid,
            elapsed: (t - a.t_ms) as u64,
            span: (b.t_ms - a.t_ms) as u64,
        },
        Interpolation::Step => Mid::At(a.mid),
    }
}

/// The sample at a time before the end.
pub open spec fn sample_within(w: Seq<Waypoint>, t: u64, d: ScenarioDefaults) -> ScenarioSample {
    let i = segment(w, t);
    ScenarioSample {
        mid: mid_between(w[i], w[i + 1], t, d.interpolation),
        spread_pct: key_or(w[i].spread_pct, d.spread_pct),
        fill_probability: key_or(w[i].fill_probability, d.fill_probability),
        finished: false,
    }
}

/// The sample at the end.
pub open spec fn sample_last(w: Seq<Waypoint>, d: ScenarioDefaults, finished: bool) -> ScenarioSample {
    ScenarioSample {
        mid: Mid::At(w.last().mid),
        spread_pct: key_or(w.last().spread_pct, d.spread_pct),
        fill_probability: key_or(w.last().fill_probability, d.fill_probability),
        finished,
    }
}

/// The sample at any time.
pub open spec fn sample(w: Seq<Waypoint>, t: u64, d: ScenarioDefaults, end: EndBehavior) -> ScenarioSample {
    let total = w.last().t_ms;
    if t < total {
        sample_within(w, t, d)
    } else {
        match end {
            EndBehavior::HoldLast => sample_last(w, d, false),
            EndBehavior::Stop => sample_last(w, d, true),
            EndBehavior::Loop => sample_within(w, (t % total) as u64, d),
        }
    }
}

/// The first pair from some index on whose scenario is not acceptable, and why not. `starts` tells
/// for each pair whether its starting price agrees with its first mid price.
pub open spec fn file_fault(
    pairs: Entries<(i64, Seq<Waypoint>)>,
    starts: Seq<bool>,
    from: nat,
) -> Option<(Seq<char>, ScenarioError)>
    decreases pairs.len() - from,
{
    if from >= pairs.len() {
        None
    } else {
        match fault(pairs[from as int].1.1, starts[from as int]) {
            Some(e) => Some((pairs[from as int].0, e)),
            None => file_fault(pairs, starts, from + 1),
        }
    }
}

impl ScenarioFile {
    /// Checks the scenarios, and names the first pair whose scenario is not acceptable. Whether
    /// the starting prices agree with the first mid prices is for the caller to say, pair by pair.
    pub fn validate(&self, start_matches: &Vec<bool>) -> (r: Result<(), (String, ScenarioError)>)
        requires
            start_matches@.len() == self.pairs@.len(),
        ensures
            match r {
                Ok(()) => file_fault(self.pairs@, start_matches@, 0) is None,
                Err(e) => file_fault(self.pairs@, start_matches@, 0) == Some((e.0@, e.1)),
            },
    {
        let mut i: usize = 0;
        while i < self.pairs.len()
            invariant
                i <= self.pairs@.len(),
                start_matches@.len() == self.pairs@.len(),
                file_fault(self.pairs@, start_matches@, i as nat) == file_fault(
                    self.pairs@,
                    start_matches@,
                    0,
                ),
            decreases self.pairs@.len() - i,
        {
            if let Err(e) = self.pairs.value_at(i).validate(start_matches[i]) {
                return Err((self.pairs.key_at(i).clone(), e));
            }
            i = i + 1;
        }
        Ok(())
    }
}

/// The scenarios of a file are acceptable if and only if each of them is.
pub proof fn files_are_accepted_pair_by_pair(
    pairs: Entries<(i64, Seq<Waypoint>)>,
    starts: Seq<bool>,
)
    requires
        starts.len() == pairs.len(),
    ensures
        file_fault(pairs, starts, 0) is None <==> forall|i: int|
            0 <= i < pairs.len() ==> fault((#[trigger] pairs[i]).1.1, starts[i]) is None,
{
    pair_by_pair(pairs, starts, 0);
}

proof fn pair_by_pair(pairs: Entries<(i64, Seq<Waypoint>)>, starts: Seq<bool>, from: nat)
    requires
        starts.len() == pairs.len(),
    ensures
        file_fault(pairs, starts, from) is None <==> forall|i: int|
            from <= i < pairs.len() ==> fault((#[trigger] pairs[i]).1.1, starts[i]) is None,
    decreases pairs.len() - from,
{
    if from < pairs.len() {
        pair_by_pair(pairs, starts, from + 1);
        assert(fault(pairs[from as int].1.1, starts[from as int]) is None
            || file_fault(pairs, starts, from) is Some);
    }
}

fn either_key(a: Option<i64>, b: Option<i64>) -> (r: Option<i64>)
    ensures
        r == key_or(a, b),
{
    if a.is_some() {
        a
    } else {
        b
    }
}

impl PairScenario {
    /// Checks a scenario. Whether the starting price agrees with the first mid price is for the
    /// caller to say, who has the numbers.
    pub fn validate(&self, start_matches: bool) -> (r: Result<(), ScenarioError>)
        ensures
            match r {
                Ok(()) => fault(self.waypoints@, start_matches) is None,
                Err(e) => fault(self.waypoints@, start_matches) == Some(e),
            },
    {
        let w = &self.waypoints;
        if w.len() < 2 {
            return Err(ScenarioError::TooFewWaypoints { count: w.len() });
        }
        if w[0].t_ms != 0 {
            return Err(ScenarioError::FirstNotAtZero { t_ms: w[0].t_ms });
        }
        let mut i: usize = 0;
        while i + 1 < w.len()
            invariant
                w == &self.waypoints,
                w@.len() >= 2,
                w@[0].t_ms == 0,
                i < w@.len() <= usize::MAX,
                order_fault(w@, i as nat) == order_fault(w@, 0),
            decreases w.len() - i,
        {
            if w[i + 1].t_ms <= w[i].t_ms {
                return Err(
                    ScenarioError::NotIncreasing { t_ms: w[i].t_ms, next: w[i + 1].t_ms },
                );
            }
            i = i + 1;
        }
        if !start_matches {
            return Err(ScenarioError::StartMismatch);
        }
        let mut k: usize = 0;
        while k < w.len()
            invariant
                k <= w@.len(),
                values_fault(w@, k as nat) == values_fault(w@, 0),
                w@.len() >= 2,
                w@[0].t_ms == 0,
                order_fault(w@, 0) is None,
                start_matches,
                w == &self.waypoints,
            decreases w.len() - k,
        {
            let p = w[k];
            if p.mid <= 0 {
                return Err(ScenarioError::BadMid { t_ms: p.t_ms, mid: p.mid });
            }
            if let Some(s) = p.spread_pct {
                if s <= 0 {
                    return Err(ScenarioError::BadSpread { t_ms: p.t_ms, spread_pct: s });
                }
            }
            if let Some(f) = p.fill_probability {
                if f < 0 || f > ONE_KEY {
                    return Err(ScenarioError::BadProbability { t_ms: p.t_ms, fill_probability: f });
                }
            }
            k = k + 1;
        }
        Ok(())
    }

    fn sample_inside(&self, t: u64, defaults: &ScenarioDefaults) -> (r: ScenarioSample)
        requires
            timed(self.waypoints@),
            t < self.waypoints@.last().t_ms,
        ensures
            r == sample_within(self.waypoints@, t, *defaults),
    {
        let w = &self.waypoints;
        let mut i: usize = 0;
        while w[i + 1].t_ms <= t
            invariant
                w == &self.waypoints,
                t < w@.last().t_ms,
                i + 1 < w.len(),
                w@[i as int].t_ms <= t,
            decreases w.len() - i,
        {
            i = i + 1;
        }
        proof {
            times_fall_into_one_segment(w@, t, i as int);
            assert(falls_into(w@, t, i as int));
        }
        let a = w[i];
        let b = w[i + 1];
        let way = match a.interpolation {
            Some(x) => x,
            None => match defaults.interpolation {
                Some(x) => x,
                None => Interpolation::default(),
            },
        };
        let mid = match way {
            Interpolation::Linear => Mid::Between {
                from: a.mid,
                to: b.mid,
                elapsed: t - a.t_ms,
                span: b.t_ms - a.t_ms,
            },
            Interpolation::Step => Mid::At(a.mid),
        };
        ScenarioSample {
            mid,
            spread_pct: either_key(a.spread_pct, defaults.spread_pct),
            fill_probability: either_key(a.fill_probability, defaults.fill_probability),
            finished: false,
        }
    }

    /// The mid price and the settings at a time since the start of the scenario.
    pub fn sample_at(
        &self,
        elapsed_ms: u64,
        defaults: &ScenarioDefaults,
        end_behavior: EndBehavior,
    ) -> (r: ScenarioSample)
        requires
            timed(self.waypoints@),
        ensures
            r == sample(self.waypoints@, elapsed_ms, *defaults, end_behavior),
    {
        let last = self.waypoints[self.waypoints.len() - 1];
        assert(self.waypoints@[0].t_ms < last.t_ms);
        if elapsed_ms < last.t_ms {
            return self.sample_inside(elapsed_ms, defaults);
        }
        match end_behavior {
            EndBehavior::Loop => self.sample_inside(elapsed_ms % last.t_ms, defaults),
            _ => ScenarioSample {
                mid: Mid::At(last.mid),
                spread_pct: either_key(last.spread_pct, defaults.spread_pct),
                fill_probability: either_key(last.fill_probability, defaults.fill_probability),
                finished: end_behavior == EndBehavior::Stop,
            },
        }
    }
}

/// A looping scenario repeats after its whole length.
pub proof fn loops_repeat(w: Seq<Waypoint>, t: u64, d: ScenarioDefaults)
    requires
        timed(w),
        t + w.last().t_ms <= u64::MAX,
    ensures
        sample(w, (t + w.last().t_ms) as u64, d, EndBehavior::Loop) == sample(
            w,
            t,
            d,
            EndBehavior::Loop,
        ),
{
    let total = w.last().t_ms as int;
    assert(w[0].t_ms < w[w.len() - 1].t_ms);
    assert((t + total) % total == t as int % total) by (nonlinear_arith)
        requires
            total > 0,
            t >= 0,
    ;
    if t < total {
        assert(t as int % total == t as int) by (nonlinear_arith)
            requires
                total > 0,
                0 <= t < total,
        ;
    }
}

/// Every time before the end falls into exactly one segment.
pub proof fn times_fall_into_one_segment(w: Seq<Waypoint>, t: u64, i: int)
    requires
        timed(w),
        t < w.last().t_ms,
    ensures
        falls_into(w, t, segment(w, t)),
        falls_into(w, t, i) ==> i == segment(w, t),
{
    let k = lemma_find(w, t, 0);
    assert(falls_into(w, t, k));
    let s = segment(w, t);
    if falls_into(w, t, i) && i != s {
        if i < s {
            assert(i + 1 == s || w[i + 1].t_ms < w[s].t_ms);
        } else {
            assert(s + 1 == i || w[s + 1].t_ms < w[i].t_ms);
        }
    }
}

proof fn lemma_find(w: Seq<Waypoint>, t: u64, i: int) -> (k: int)
    requires
        timed(w),
        t < w.last().t_ms,
        0 <= i < w.len() - 1,
        w[i].t_ms <= t,
    ensures
        falls_into(w, t, k),
    decreases w.len() - i,
{
    if t < w[i + 1].t_ms {
        i
    } else {
        lemma_find(w, t, i + 1)
    }
}

} // verus!
