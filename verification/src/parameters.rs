//! Scalar sweep parameters: a value is either fixed or a linearly spaced
//! range, and expands to the exact sequence of concrete values it denotes.
//!
//! Concrete values are exact rationals (`ScalarValue`), so a range expands
//! to `steps` evenly spaced points whose first and last entries equal the
//! configured bounds exactly, with no rounding anywhere.

use vstd::prelude::*;

verus! {

/// A configuration error, raised while a sweep description is expanded and
/// before any run is spawned.
#[derive(Clone, Copy, Debug, PartialEq, Eq, Structural)]
pub enum ConfigError {
    /// A scalar parameter carries both a complete range and a fixed value.
    ConflictingParameters,
    /// A scalar parameter carries neither a complete range nor a fixed value.
    IncompleteParameters,
    /// A range was given fewer than two steps; a single-point range is
    /// rejected rather than silently treated as fixed.
    InvalidSteps,
    /// A range was given more steps than the expansion supports.
    StepsTooLarge,
    /// The sweep names no process parameters at all, so the process
    /// expansion would be empty.
    EmptyProcess,
    /// The sweep names more than one set of process parameters.
    ConflictingProcesses,
}

/// An exact rational scalar, `num / den`.
///
/// Fixed parameters have denominator 1; the points of an expanded range
/// share the denominator `steps - 1`.
#[derive(Clone, Copy, Debug, PartialEq, Eq, Structural)]
pub struct ScalarValue {
    pub num: i128,
    pub den: u64,
}

/// A well-formed scalar has a positive denominator.
pub open spec fn scalar_wf(a: ScalarValue) -> bool {
    a.den >= 1
}

/// The rationals `a` and `b` denote the same value.
pub open spec fn ratio_eq(a: ScalarValue, b: ScalarValue) -> bool {
    a.num * b.den == b.num * a.den
}

/// The rational `a` denotes a strictly smaller value than `b`.
pub open spec fn ratio_lt(a: ScalarValue, b: ScalarValue) -> bool {
    a.num * b.den < b.num * a.den
}

impl ScalarValue {
    /// The scalar that denotes the integer `v` exactly.
    pub fn integer(v: i64) -> (r: ScalarValue)
        ensures
            r.num == v as int,
            r.den == 1,
    {
        ScalarValue { num: v as i128, den: 1 }
    }
}

/// Anything that expands to a sequence of concrete values: a single scalar
/// expands to one value, a sweep dimension to many, a whole meta
/// configuration to the cartesian product of its dimensions.
pub trait Parameterized<T> {
    /// Expands to the owned sequence of concrete values this description
    /// denotes, or reports why the description is invalid. Validation is
    /// eager: every error is raised here, at expansion time.
    fn generate(&self) -> Result<Vec<T>, ConfigError>;
}

/// A parameter pinned to one concrete value; expands to exactly that value.
#[derive(Clone, Copy, Debug, PartialEq, Eq, Structural)]
pub struct Fixed(pub ScalarValue);

impl Parameterized<ScalarValue> for Fixed {
    fn generate(&self) -> (r: Result<Vec<ScalarValue>, ConfigError>)
        ensures
            r matches Ok(v) && v@ =~= seq![self.0],
    {
        Ok(vec![self.0])
    }
}

/// The numerator of the `i`-th of `steps` points evenly spaced from `start`
/// to `end`; every point shares the denominator `steps - 1`.
pub open spec fn linspace_num(start: int, end: int, steps: int, i: int) -> int {
    start * (steps - 1 - i) + end * i
}

/// A raw scalar-parameter description: either `start`/`end`/`steps`
/// together, or `fixed` alone. The bounds are integers in whatever unit the
/// caller works in; an expanded point is an exact rational over them.
#[derive(Clone, Copy, Debug, PartialEq, Eq, Structural)]
pub struct LinspaceParameters {
    pub start: Option<i64>,
    pub end: Option<i64>,
    pub steps: Option<usize>,
    pub fixed: Option<i64>,
}

impl LinspaceParameters {
    /// All three range fields are present.
    pub open spec fn has_range(self) -> bool {
        self.start is Some && self.end is Some && self.steps is Some
    }

    /// Both forms are given at once: a complete range beside a fixed value.
    pub open spec fn is_conflicting(self) -> bool {
        self.has_range() && self.fixed is Some
    }

    /// Neither a complete range nor a fixed value is given.
    pub open spec fn is_incomplete(self) -> bool {
        !self.has_range() && self.fixed is None
    }

    /// The description is a range with too few steps: a degenerate range of
    /// zero or one point is rejected.
    pub open spec fn is_invalid_steps(self) -> bool {
        self.has_range() && self.fixed is None && self.steps->0 < 2
    }

    /// The description is a range with more steps than the expansion
    /// supports (the shared denominator must fit in 32 bits).
    pub open spec fn is_too_large(self) -> bool {
        self.has_range() && self.fixed is None && self.steps->0 >= 2 && self.steps->0 - 1
            > u32::MAX
    }

    /// The description is a fixed value (a partial range beside a fixed
    /// value is read as the fixed form, as the range is not complete).
    pub open spec fn is_fixed_form(self) -> bool {
        !self.has_range() && self.fixed is Some
    }

    /// The description is a complete, expandable range.
    pub open spec fn is_range_form(self) -> bool {
        self.has_range() && self.fixed is None && 2 <= self.steps->0 && self.steps->0 - 1
            <= u32::MAX
    }

    /// The description is valid and expands without error.
    pub open spec fn spec_ok(self) -> bool {
        self.is_fixed_form() || self.is_range_form()
    }

    /// The error an invalid description is rejected with.
    pub open spec fn spec_error(self) -> ConfigError {
        if self.is_conflicting() {
            ConfigError::ConflictingParameters
        } else if self.is_incomplete() {
            ConfigError::IncompleteParameters
        } else if self.is_invalid_steps() {
            ConfigError::InvalidSteps
        } else {
            ConfigError::StepsTooLarge
        }
    }

    /// The exact sequence of concrete values a valid description denotes.
    pub open spec fn spec_expansion(self) -> Seq<ScalarValue> {
        if self.is_fixed_form() {
            seq![ScalarValue { num: self.fixed->0 as i128, den: 1u64 }]
        } else {
            Seq::new(
                self.steps->0 as nat,
                |i: int|
                    ScalarValue {
                        num: linspace_num(self.start->0 as int, self.end->0 as int, self.steps->0 as int, i) as i128,
                        den: (self.steps->0 - 1) as u64,
                    },
            )
        }
    }

    /// Expands the description into its concrete values.
    ///
    /// Exactly one of the following holds, and the result says which:
    /// a complete range beside a fixed value is a conflict; neither form is
    /// incomplete; a range of fewer than two or more than `u32::MAX + 1`
    /// steps is rejected; a fixed value expands to itself; a valid range
    /// expands to `steps` evenly spaced exact rationals from `start` to
    /// `end` inclusive.
    pub fn generate(&self) -> (r: Result<Vec<ScalarValue>, ConfigError>)
        ensures
            r matches Ok(v) <==> self.spec_ok(),
            r matches Ok(v) ==> v@ =~= self.spec_expansion(),
            r matches Err(ConfigError::ConflictingParameters) <==> self.is_conflicting(),
            r matches Err(ConfigError::IncompleteParameters) <==> self.is_incomplete(),
            r matches Err(ConfigError::InvalidSteps) <==> self.is_invalid_steps(),
            r matches Err(ConfigError::StepsTooLarge) <==> self.is_too_large(),
            !self.spec_ok() ==> (r matches Err(e) && e == self.spec_error()),
            r matches Ok(v) ==> forall|i: int|
                0 <= i < v@.len() ==> scalar_wf(#[trigger] v@[i]),
    {
        match (self.start, self.end, self.steps) {
            (Some(start), Some(end), Some(steps)) => {
                if self.fixed.is_some() {
                    Err(ConfigError::ConflictingParameters)
                } else if steps < 2 {
                    Err(ConfigError::InvalidSteps)
                } else if steps - 1 > u32::MAX as usize {
                    Err(ConfigError::StepsTooLarge)
                } else {
                    Ok(linspace_points(start, end, steps))
                }
            },
            _ => {
                if self.fixed.is_some() {
                    let v = self.fixed.unwrap();
                    Ok(vec![ScalarValue { num: v as i128, den: 1 }])
                } else {
                    Err(ConfigError::IncompleteParameters)
                }
            },
        }
    }
}

/// The `steps` evenly spaced points from `start` to `end`, as exact
/// rationals over the shared denominator `steps - 1`.
fn linspace_points(start: i64, end: i64, steps: usize) -> (v: Vec<ScalarValue>)
    requires
        2 <= steps,
        steps - 1 <= u32::MAX,
    ensures
        v@.len() == steps,
        forall|i: int|
            0 <= i < steps ==> #[trigger] v@[i] == (ScalarValue {
                num: linspace_num(start as int, end as int, steps as int, i) as i128,
                den: (steps - 1) as u64,
            }),
{
    let den: u64 = (steps - 1) as u64;
    let s: i128 = start as i128;
    let e: i128 = end as i128;
    let mut v: Vec<ScalarValue> = Vec::new();
    let mut i: usize = 0;
    while i < steps
        invariant
            2 <= steps,
            steps - 1 <= u32::MAX,
            den == (steps - 1) as u64,
            s == start as int,
            e == end as int,
            i <= steps,
            v@.len() == i,
            forall|k: int|
                0 <= k < i ==> #[trigger] v@[k] == (ScalarValue {
                    num: linspace_num(start as int, end as int, steps as int, k) as i128,
                    den: (steps - 1) as u64,
                }),
        decreases steps - i,
    {
        let back: i128 = (steps - 1 - i) as i128;
        let fwd: i128 = i as i128;
        proof {
            lemma_linspace_term_bounds(s as int, e as int, back as int, fwd as int);
        }
        let num: i128 = s * back + e * fwd;
        v.push(ScalarValue { num, den });
        i = i + 1;
    }
    v
}

/// Both products in a linspace numerator stay far inside the `i128` range,
/// so the numerator itself cannot overflow.
proof fn lemma_linspace_term_bounds(s: int, e: int, back: int, fwd: int)
    requires
        -0x8000_0000_0000_0000 <= s <= 0x7fff_ffff_ffff_ffff,
        -0x8000_0000_0000_0000 <= e <= 0x7fff_ffff_ffff_ffff,
        0 <= back <= 0xffff_ffff,
        0 <= fwd <= 0xffff_ffff,
    ensures
        -0x8000_0000_0000_0000_0000_0000 <= s * back <= 0x8000_0000_0000_0000_0000_0000,
        -0x8000_0000_0000_0000_0000_0000 <= e * fwd <= 0x8000_0000_0000_0000_0000_0000,
{
    assert(-0x8000_0000_0000_0000_0000_0000 <= s * back <= 0x8000_0000_0000_0000_0000_0000)
        by (nonlinear_arith)
        requires
            -0x8000_0000_0000_0000 <= s <= 0x7fff_ffff_ffff_ffff,
            0 <= back <= 0xffff_ffff,
    ;
    assert(-0x8000_0000_0000_0000_0000_0000 <= e * fwd <= 0x8000_0000_0000_0000_0000_0000)
        by (nonlinear_arith)
        requires
            -0x8000_0000_0000_0000 <= e <= 0x7fff_ffff_ffff_ffff,
            0 <= fwd <= 0xffff_ffff,
    ;
}

/// The difference of two linspace numerators over the same range telescopes
/// to a multiple of the range width.
proof fn lemma_linspace_num_diff(s: int, e: int, steps: int, i: int, j: int)
    ensures
        linspace_num(s, e, steps, j) - linspace_num(s, e, steps, i) == (j - i) * (e - s),
{
    assert((s * (steps - 1 - j) + e * j) - (s * (steps - 1 - i) + e * i) == (j - i) * (e - s))
        by (nonlinear_arith);
}

/// Rationals over one shared positive denominator are ordered as their
/// numerators are.
proof fn lemma_ratio_same_den(a: ScalarValue, b: ScalarValue)
    requires
        a.den == b.den,
        a.den >= 1,
    ensures
        a.num < b.num ==> ratio_lt(a, b),
        a.num == b.num ==> ratio_eq(a, b),
{
    if a.num < b.num {
        assert(a.num * b.den < b.num * a.den) by (nonlinear_arith)
            requires
                a.den == b.den,
                a.den >= 1,
                a.num < b.num,
        ;
    }
}

/// Every linspace numerator lies far inside the `i128` range, so the cast
/// in the expansion preserves its value.
proof fn lemma_linspace_num_in_range(p: LinspaceParameters, i: int)
    requires
        p.is_range_form(),
        0 <= i < p.steps->0,
    ensures
        linspace_num(p.start->0 as int, p.end->0 as int, p.steps->0 as int, i) as i128
            == linspace_num(p.start->0 as int, p.end->0 as int, p.steps->0 as int, i),
{
    let s = p.start->0 as int;
    let e = p.end->0 as int;
    let steps = p.steps->0 as int;
    lemma_linspace_term_bounds(s, e, steps - 1 - i, i);
}

/// Law of range expansion: a valid range of `steps` points is exactly
/// `steps` long, starts exactly at `start`, ends exactly at `end`, and is
/// strictly monotonic — increasing when `start < end`, decreasing when
/// `start > end`, and constant when the bounds coincide.
pub proof fn lemma_range_expansion_monotonic(p: LinspaceParameters)
    requires
        p.is_range_form(),
    ensures
        p.spec_expansion().len() == p.steps->0,
        ratio_eq(p.spec_expansion()[0], (ScalarValue { num: p.start->0 as i128, den: 1 })),
        ratio_eq(
            p.spec_expansion()[p.steps->0 - 1],
            (ScalarValue { num: p.end->0 as i128, den: 1 }),
        ),
        forall|i: int, j: int|
            0 <= i < j < p.steps->0 && p.start->0 < p.end->0 ==> ratio_lt(
                #[trigger] p.spec_expansion()[i],
                #[trigger] p.spec_expansion()[j],
            ),
        forall|i: int, j: int|
            0 <= i < j < p.steps->0 && p.start->0 > p.end->0 ==> ratio_lt(
                #[trigger] p.spec_expansion()[j],
                #[trigger] p.spec_expansion()[i],
            ),
        forall|i: int, j: int|
            0 <= i < j < p.steps->0 && p.start->0 == p.end->0 ==> ratio_eq(
                #[trigger] p.spec_expansion()[i],
                #[trigger] p.spec_expansion()[j],
            ),
{
    let s = p.start->0 as int;
    let e = p.end->0 as int;
    let steps = p.steps->0 as int;
    let v = p.spec_expansion();
    lemma_linspace_num_in_range(p, 0);
    assert(e * 0 == 0) by (nonlinear_arith);
    assert(linspace_num(s, e, steps, 0) == s * (steps - 1));
    assert(v[0].num * 1 == s * (steps - 1));
    lemma_linspace_num_in_range(p, steps - 1);
    assert(s * (steps - 1 - (steps - 1)) == 0) by (nonlinear_arith);
    assert(linspace_num(s, e, steps, steps - 1) == e * (steps - 1));
    assert(v[steps - 1].num * 1 == e * (steps - 1));
    assert forall|i: int, j: int| 0 <= i < j < steps implies (s < e ==> ratio_lt(v[i], v[j]))
        && (s > e ==> ratio_lt(v[j], v[i])) && (s == e ==> ratio_eq(v[i], v[j])) by {
        lemma_linspace_num_in_range(p, i);
        lemma_linspace_num_in_range(p, j);
        lemma_linspace_num_diff(s, e, steps, i, j);
        if s < e {
            assert((j - i) * (e - s) > 0) by (nonlinear_arith)
                requires
                    j - i > 0,
                    e - s > 0,
            ;
            lemma_ratio_same_den(v[i], v[j]);
        } else if s > e {
            assert((j - i) * (e - s) < 0) by (nonlinear_arith)
                requires
                    j - i > 0,
                    e - s < 0,
            ;
            lemma_ratio_same_den(v[j], v[i]);
        } else {
            assert((j - i) * (e - s) == 0) by (nonlinear_arith)
                requires
                    e - s == 0,
            ;
            lemma_ratio_same_den(v[i], v[j]);
        }
    }
}

/// A still-expandable sweep dimension: a meta parameter wraps a raw
/// description and expands to every point it denotes.
#[derive(Clone, Copy, Debug, PartialEq, Eq, Structural)]
pub struct Meta(pub LinspaceParameters);

impl Parameterized<ScalarValue> for Meta {
    fn generate(&self) -> (r: Result<Vec<ScalarValue>, ConfigError>)
        ensures
            r matches Ok(v) <==> self.0.spec_ok(),
            r matches Ok(v) ==> v@ =~= self.0.spec_expansion(),
            r matches Err(ConfigError::ConflictingParameters) <==> self.0.is_conflicting(),
            r matches Err(ConfigError::IncompleteParameters) <==> self.0.is_incomplete(),
            r matches Err(ConfigError::InvalidSteps) <==> self.0.is_invalid_steps(),
            r matches Err(ConfigError::StepsTooLarge) <==> self.0.is_too_large(),
            !self.0.spec_ok() ==> (r matches Err(e) && e == self.0.spec_error()),
    {
        self.0.generate()
    }
}

/// Block parameters are not swept; the timestep size is carried through to
/// every concrete run unchanged.
#[derive(Clone, Copy, Debug, PartialEq, Eq, Structural)]
pub struct BlockParameters {
    pub timestep_size: u64,
}

/// The flat position of the combination `(a, b, c, d)` in the nested
/// iteration order of a trajectory expansion: initial price outermost, then
/// start time, then end time, then path index innermost.
pub open spec fn flat_index(
    a: int,
    b: int,
    c: int,
    d: int,
    t0_len: int,
    tn_len: int,
    paths: int,
) -> int {
    ((a * t0_len + b) * tn_len + c) * paths + d
}

/// `(x0, x1, x2, x3)` precedes `(y0, y1, y2, y3)` lexicographically.
pub(crate) open spec fn lex4_lt(
    x0: int,
    x1: int,
    x2: int,
    x3: int,
    y0: int,
    y1: int,
    y2: int,
    y3: int,
) -> bool {
    ||| x0 < y0
    ||| (x0 == y0 && x1 < y1)
    ||| (x0 == y0 && x1 == y1 && x2 < y2)
    ||| (x0 == y0 && x1 == y1 && x2 == y2 && x3 < y3)
}

/// In-range combinations map to flat positions inside the product, so the
/// expansion can be indexed at every [`flat_index`].
pub proof fn lemma_flat_index_bounds(
    a: int,
    b: int,
    c: int,
    d: int,
    ip_len: int,
    t0_len: int,
    tn_len: int,
    paths: int,
)
    requires
        0 <= a < ip_len,
        0 <= b < t0_len,
        0 <= c < tn_len,
        0 <= d < paths,
    ensures
        0 <= flat_index(a, b, c, d, t0_len, tn_len, paths) < ip_len * t0_len * tn_len * paths,
{
    assert(0 <= ((a * t0_len + b) * tn_len + c) * paths + d < ((ip_len * t0_len) * tn_len)
        * paths) by (nonlinear_arith)
        requires
            0 <= a < ip_len,
            0 <= b < t0_len,
            0 <= c < tn_len,
            0 <= d < paths,
    ;
}

/// A lexicographically earlier in-range combination sits at a strictly
/// earlier flat position: the nested loops emit elements in flat order.
pub(crate) proof fn lemma_flat_lex_mono(
    x0: int,
    x1: int,
    x2: int,
    x3: int,
    y0: int,
    y1: int,
    y2: int,
    y3: int,
    t0_len: int,
    tn_len: int,
    paths: int,
)
    requires
        0 <= x0,
        0 <= x1 < t0_len,
        0 <= x2 < tn_len,
        0 <= x3 < paths,
        0 <= y0,
        0 <= y1 <= t0_len,
        0 <= y2 <= tn_len,
        0 <= y3 <= paths,
        lex4_lt(x0, x1, x2, x3, y0, y1, y2, y3),
    ensures
        flat_index(x0, x1, x2, x3, t0_len, tn_len, paths) < flat_index(
            y0,
            y1,
            y2,
            y3,
            t0_len,
            tn_len,
            paths,
        ),
{
    assert(((x0 * t0_len + x1) * tn_len + x2) * paths + x3 < ((y0 * t0_len + y1) * tn_len + y2)
        * paths + y3) by (nonlinear_arith)
        requires
            0 <= x0,
            0 <= x1 < t0_len,
            0 <= x2 < tn_len,
            0 <= x3 < paths,
            0 <= y0,
            0 <= y1 <= t0_len,
            0 <= y2 <= tn_len,
            0 <= y3 <= paths,
            x0 < y0 || (x0 == y0 && x1 < y1) || (x0 == y0 && x1 == y1 && x2 < y2) || (x0 == y0
                && x1 == y1 && x2 == y2 && x3 < y3),
    ;
}

/// Defines a price trajectory: its stochastic process, its bounds, and how
/// many discrete steps and independent paths it is simulated with. Generic
/// over the scalar kind `P`: a meta trajectory still holds expandable
/// parameters, a concrete one holds a single value per field.
#[derive(Debug, PartialEq, Eq)]
pub struct TrajectoryParameters<P> {
    /// The name of the stochastic process that drives the price.
    pub process: String,
    /// The initial price of the asset.
    pub initial_price: P,
    /// The start time of the process.
    pub t_0: P,
    /// The end time of the process.
    pub t_n: P,
    /// The number of discrete steps in the process.
    pub num_steps: usize,
    /// The number of independent paths the trajectory is expanded into.
    pub num_paths: usize,
    /// The base seed of the trajectory's deterministic seed chain.
    pub seed: u64,
    /// The tag appended to the output file name of a concrete run.
    pub output_tag: Option<String>,
}

impl TrajectoryParameters<Meta> {
    /// The values the initial-price dimension expands to.
    pub open spec fn ip_values(self) -> Seq<ScalarValue> {
        self.initial_price.0.spec_expansion()
    }

    /// The values the start-time dimension expands to.
    pub open spec fn t0_values(self) -> Seq<ScalarValue> {
        self.t_0.0.spec_expansion()
    }

    /// The values the end-time dimension expands to.
    pub open spec fn tn_values(self) -> Seq<ScalarValue> {
        self.t_n.0.spec_expansion()
    }

    /// Every swept dimension of the trajectory is a valid description.
    pub open spec fn dims_ok(self) -> bool {
        &&& self.initial_price.0.spec_ok()
        &&& self.t_0.0.spec_ok()
        &&& self.t_n.0.spec_ok()
    }

    /// The error the expansion reports: the first invalid dimension's, in
    /// field order.
    pub open spec fn spec_error(self) -> ConfigError {
        if !self.initial_price.0.spec_ok() {
            self.initial_price.0.spec_error()
        } else if !self.t_0.0.spec_ok() {
            self.t_0.0.spec_error()
        } else {
            self.t_n.0.spec_error()
        }
    }

    /// How many concrete trajectories the expansion produces: the product
    /// of the three dimension widths and the number of paths.
    pub open spec fn total(self) -> nat {
        self.ip_values().len() * self.t0_values().len() * self.tn_values().len() * (
        self.num_paths as nat)
    }

    /// The concrete trajectory at combination `(a, b, c, d)` carries the
    /// chosen value of each dimension, a single path, the seed of its flat
    /// position in the chain, and its path index as output tag.
    pub open spec fn element_matches(
        self,
        e: TrajectoryParameters<Fixed>,
        a: int,
        b: int,
        c: int,
        d: int,
    ) -> bool {
        let g = flat_index(
            a,
            b,
            c,
            d,
            self.t0_values().len() as int,
            self.tn_values().len() as int,
            self.num_paths as int,
        );
        &&& e.process == self.process
        &&& e.initial_price == Fixed(self.ip_values()[a])
        &&& e.t_0 == Fixed(self.t0_values()[b])
        &&& e.t_n == Fixed(self.tn_values()[c])
        &&& e.num_steps == self.num_steps
        &&& e.num_paths == 1
        &&& e.seed == crate::seed::seed_at(self.seed, g as nat)
        &&& (e.output_tag matches Some(t) && t@ == crate::decimal::dec_digits(d as nat))
    }
}

impl Parameterized<TrajectoryParameters<Fixed>> for TrajectoryParameters<Meta> {
    /// Expands the trajectory into the cartesian product of its swept
    /// dimensions, each combination further expanded across `num_paths`
    /// independent paths with chained seeds and indexed output tags.
    fn generate(&self) -> (r: Result<Vec<TrajectoryParameters<Fixed>>, ConfigError>)
        ensures
            r is Ok <==> self.dims_ok(),
            !self.dims_ok() ==> (r matches Err(e) && e == self.spec_error()),
            r matches Ok(v) ==> v@.len() == self.total(),
            r matches Ok(v) ==> forall|a: int, b: int, c: int, d: int|
                0 <= a < self.ip_values().len() && 0 <= b < self.t0_values().len() && 0 <= c
                    < self.tn_values().len() && 0 <= d < self.num_paths
                    ==> self.element_matches(
                    v@[#[trigger] flat_index(
                        a,
                        b,
                        c,
                        d,
                        self.t0_values().len() as int,
                        self.tn_values().len() as int,
                        self.num_paths as int,
                    )],
                    a,
                    b,
                    c,
                    d,
                ),
    {
        let ip = match self.initial_price.generate() {
            Ok(v) => v,
            Err(e) => {
                return Err(e);
            },
        };
        let t0 = match self.t_0.generate() {
            Ok(v) => v,
            Err(e) => {
                return Err(e);
            },
        };
        let tn = match self.t_n.generate() {
            Ok(v) => v,
            Err(e) => {
                return Err(e);
            },
        };
        let ghost t0l = self.t0_values().len() as int;
        let ghost tnl = self.tn_values().len() as int;
        let ghost p = self.num_paths as int;
        let paths = self.num_paths;
        let mut result: Vec<TrajectoryParameters<Fixed>> = Vec::new();
        let mut chain = crate::seed::SeedChain::new(self.seed);
        proof {
            assert(((0 * t0l + 0) * tnl + 0) * p + 0 == 0) by (nonlinear_arith);
        }
        let mut a: usize = 0;
        while a < ip.len()
            invariant
                ip@ == self.ip_values(),
                t0@ == self.t0_values(),
                tn@ == self.tn_values(),
                t0l == self.t0_values().len() as int,
                tnl == self.tn_values().len() as int,
                p == self.num_paths as int,
                paths == self.num_paths,
                a <= ip@.len(),
                chain.wf(),
                chain.base() == self.seed,
                chain.emitted() == result@.len(),
                result@.len() == flat_index(a as int, 0, 0, 0, t0l, tnl, p),
                forall|x0: int, x1: int, x2: int, x3: int|
                    0 <= x0 < ip@.len() && 0 <= x1 < t0@.len() && 0 <= x2 < tn@.len() && 0 <= x3
                        < paths && lex4_lt(x0, x1, x2, x3, a as int, 0, 0, 0)
                        ==> self.element_matches(
                        result@[#[trigger] flat_index(x0, x1, x2, x3, t0l, tnl, p)],
                        x0,
                        x1,
                        x2,
                        x3,
                    ),
            decreases ip@.len() - a,
        {
            let mut b: usize = 0;
            while b < t0.len()
                invariant
                    ip@ == self.ip_values(),
                    t0@ == self.t0_values(),
                    tn@ == self.tn_values(),
                    t0l == self.t0_values().len() as int,
                    tnl == self.tn_values().len() as int,
                    p == self.num_paths as int,
                    paths == self.num_paths,
                    a < ip@.len(),
                    b <= t0@.len(),
                    chain.wf(),
                    chain.base() == self.seed,
                    chain.emitted() == result@.len(),
                    result@.len() == flat_index(a as int, b as int, 0, 0, t0l, tnl, p),
                    forall|x0: int, x1: int, x2: int, x3: int|
                        0 <= x0 < ip@.len() && 0 <= x1 < t0@.len() && 0 <= x2 < tn@.len() && 0
                            <= x3 < paths && lex4_lt(x0, x1, x2, x3, a as int, b as int, 0, 0)
                            ==> self.element_matches(
                            result@[#[trigger] flat_index(x0, x1, x2, x3, t0l, tnl, p)],
                            x0,
                            x1,
                            x2,
                            x3,
                        ),
                decreases t0@.len() - b,
            {
                let mut c: usize = 0;
                while c < tn.len()
                    invariant
                        ip@ == self.ip_values(),
                        t0@ == self.t0_values(),
                        tn@ == self.tn_values(),
                        t0l == self.t0_values().len() as int,
                        tnl == self.tn_values().len() as int,
                        p == self.num_paths as int,
                        paths == self.num_paths,
                        a < ip@.len(),
                        b < t0@.len(),
                        c <= tn@.len(),
                        chain.wf(),
                        chain.base() == self.seed,
                        chain.emitted() == result@.len(),
                        result@.len() == flat_index(a as int, b as int, c as int, 0, t0l, tnl, p),
                        forall|x0: int, x1: int, x2: int, x3: int|
                            0 <= x0 < ip@.len() && 0 <= x1 < t0@.len() && 0 <= x2 < tn@.len()
                                && 0 <= x3 < paths && lex4_lt(
                                x0,
                                x1,
                                x2,
                                x3,
                                a as int,
                                b as int,
                                c as int,
                                0,
                            ) ==> self.element_matches(
                                result@[#[trigger] flat_index(x0, x1, x2, x3, t0l, tnl, p)],
                                x0,
                                x1,
                                x2,
                                x3,
                            ),
                    decreases tn@.len() - c,
                {
                    let mut d: usize = 0;
                    while d < paths
                        invariant
                            ip@ == self.ip_values(),
                            t0@ == self.t0_values(),
                            tn@ == self.tn_values(),
                            t0l == self.t0_values().len() as int,
                            tnl == self.tn_values().len() as int,
                            p == self.num_paths as int,
                            paths == self.num_paths,
                            a < ip@.len(),
                            b < t0@.len(),
                            c < tn@.len(),
                            d <= paths,
                            chain.wf(),
                            chain.base() == self.seed,
                            chain.emitted() == result@.len(),
                            result@.len() == flat_index(
                                a as int,
                                b as int,
                                c as int,
                                d as int,
                                t0l,
                                tnl,
                                p,
                            ),
                            forall|x0: int, x1: int, x2: int, x3: int|
                                0 <= x0 < ip@.len() && 0 <= x1 < t0@.len() && 0 <= x2
                                    < tn@.len() && 0 <= x3 < paths && lex4_lt(
                                    x0,
                                    x1,
                                    x2,
                                    x3,
                                    a as int,
                                    b as int,
                                    c as int,
                                    d as int,
                                ) ==> self.element_matches(
                                    result@[#[trigger] flat_index(x0, x1, x2, x3, t0l, tnl, p)],
                                    x0,
                                    x1,
                                    x2,
                                    x3,
                                ),
                        decreases paths - d,
                    {
                        let s = chain.next();
                        let tag = crate::decimal::decimal_string_usize(d);
                        result.push(
                            TrajectoryParameters::<Fixed> {
                                process: self.process.clone(),
                                initial_price: Fixed(ip[a]),
                                t_0: Fixed(t0[b]),
                                t_n: Fixed(tn[c]),
                                num_steps: self.num_steps,
                                num_paths: 1,
                                seed: s,
                                output_tag: Some(tag),
                            },
                        );
                        proof {
                            let prev = result@.drop_last();
                            assert forall|x0: int, x1: int, x2: int, x3: int|
                                0 <= x0 < ip@.len() && 0 <= x1 < t0@.len() && 0 <= x2
                                    < tn@.len() && 0 <= x3 < paths && lex4_lt(
                                    x0,
                                    x1,
                                    x2,
                                    x3,
                                    a as int,
                                    b as int,
                                    c as int,
                                    d + 1,
                                ) implies self.element_matches(
                                result@[#[trigger] flat_index(x0, x1, x2, x3, t0l, tnl, p)],
                                x0,
                                x1,
                                x2,
                                x3,
                            ) by {
                                if lex4_lt(x0, x1, x2, x3, a as int, b as int, c as int, d as int) {
                                    lemma_flat_lex_mono(
                                        x0,
                                        x1,
                                        x2,
                                        x3,
                                        a as int,
                                        b as int,
                                        c as int,
                                        d as int,
                                        t0l,
                                        tnl,
                                        p,
                                    );
                                }
                            }
                        }
                        d = d + 1;
                    }
                    proof {
                        let x = (a as int) * t0l + b;
                        assert((x * tnl + c) * p + p == (x * tnl + (c + 1)) * p)
                            by (nonlinear_arith);
                    }
                    c = c + 1;
                }
                proof {
                    let x = (a as int) * t0l + b;
                    assert((x * tnl + tnl) * p == ((x + 1) * tnl) * p) by (nonlinear_arith);
                }
                b = b + 1;
            }
            proof {
                assert((((a as int) * t0l + t0l) * tnl) * p == ((((a as int) + 1) * t0l) * tnl)
                    * p) by (nonlinear_arith);
            }
            a = a + 1;
        }
        proof {
            assert(((ip@.len() as int) * t0l * tnl) * p == self.total()) by (nonlinear_arith)
                requires
                    t0l == self.t0_values().len() as int,
                    tnl == self.tn_values().len() as int,
                    p == self.num_paths as int,
                    ip@ == self.ip_values(),
                    self.total() == self.ip_values().len() * self.t0_values().len()
                        * self.tn_values().len() * self.num_paths,
            ;
        }
        Ok(result)
    }
}

/// The flat position of `(a, b)` when the second dimension has width
/// `inner`.
pub open spec fn pair_index(a: int, b: int, inner: int) -> int {
    a * inner + b
}

/// The flat position of `(a, b, c)` when the trailing dimensions have
/// widths `bl` and `cl`.
pub open spec fn triple_index(a: int, b: int, c: int, bl: int, cl: int) -> int {
    (a * bl + b) * cl + c
}

/// Lexicographic order of in-range pairs matches their flat order.
pub(crate) proof fn lemma_pair_lex_mono(x0: int, x1: int, y0: int, y1: int, inner: int)
    requires
        0 <= x0,
        0 <= x1 < inner,
        0 <= y0,
        0 <= y1 <= inner,
        x0 < y0 || (x0 == y0 && x1 < y1),
    ensures
        pair_index(x0, x1, inner) < pair_index(y0, y1, inner),
{
    assert(x0 * inner + x1 < y0 * inner + y1) by (nonlinear_arith)
        requires
            0 <= x0,
            0 <= x1 < inner,
            0 <= y0,
            0 <= y1 <= inner,
            x0 < y0 || (x0 == y0 && x1 < y1),
    ;
}

/// Lexicographic order of in-range triples matches their flat order.
pub(crate) proof fn lemma_triple_lex_mono(
    x0: int,
    x1: int,
    x2: int,
    y0: int,
    y1: int,
    y2: int,
    bl: int,
    cl: int,
)
    requires
        0 <= x0,
        0 <= x1 < bl,
        0 <= x2 < cl,
        0 <= y0,
        0 <= y1 <= bl,
        0 <= y2 <= cl,
        x0 < y0 || (x0 == y0 && x1 < y1) || (x0 == y0 && x1 == y1 && x2 < y2),
    ensures
        triple_index(x0, x1, x2, bl, cl) < triple_index(y0, y1, y2, bl, cl),
{
    assert((x0 * bl + x1) * cl + x2 < (y0 * bl + y1) * cl + y2) by (nonlinear_arith)
        requires
            0 <= x0,
            0 <= x1 < bl,
            0 <= x2 < cl,
            0 <= y0,
            0 <= y1 <= bl,
            0 <= y2 <= cl,
            x0 < y0 || (x0 == y0 && x1 < y1) || (x0 == y0 && x1 == y1 && x2 < y2),
    ;
}

/// Every flat position inside the product is hit by some in-range
/// combination: [`flat_index`] maps the combination box onto the product
/// range.
pub(crate) proof fn lemma_flat_index_surjective(
    g: int,
    ip_len: int,
    t0_len: int,
    tn_len: int,
    paths: int,
)
    requires
        0 <= ip_len,
        0 <= t0_len,
        0 <= tn_len,
        0 <= paths,
        0 <= g < ip_len * t0_len * tn_len * paths,
    ensures
        exists|a: int, b: int, c: int, d: int|
            0 <= a < ip_len && 0 <= b < t0_len && 0 <= c < tn_len && 0 <= d < paths
                && #[trigger] flat_index(a, b, c, d, t0_len, tn_len, paths) == g,
{
    assert(ip_len > 0 && t0_len > 0 && tn_len > 0 && paths > 0) by (nonlinear_arith)
        requires
            0 <= ip_len,
            0 <= t0_len,
            0 <= tn_len,
            0 <= paths,
            0 <= g < ip_len * t0_len * tn_len * paths,
    ;
    let w2 = tn_len * paths;
    let w3 = t0_len * w2;
    assert(w2 > 0 && w3 > 0 && ip_len * t0_len * tn_len * paths == ip_len * w3)
        by (nonlinear_arith)
        requires
            t0_len > 0,
            tn_len > 0,
            paths > 0,
            w2 == tn_len * paths,
            w3 == t0_len * w2,
    ;
    let a = g / w3;
    let r1 = g % w3;
    vstd::arithmetic::div_mod::lemma_fundamental_div_mod(g, w3);
    vstd::arithmetic::div_mod::lemma_mod_bound(g, w3);
    vstd::arithmetic::div_mod::lemma_div_pos_is_pos(g, w3);
    vstd::arithmetic::div_mod::lemma_multiply_divide_lt(g, w3, ip_len);
    let b = r1 / w2;
    let r2 = r1 % w2;
    vstd::arithmetic::div_mod::lemma_fundamental_div_mod(r1, w2);
    vstd::arithmetic::div_mod::lemma_mod_bound(r1, w2);
    vstd::arithmetic::div_mod::lemma_div_pos_is_pos(r1, w2);
    vstd::arithmetic::div_mod::lemma_multiply_divide_lt(r1, w2, t0_len);
    let c = r2 / paths;
    let d = r2 % paths;
    vstd::arithmetic::div_mod::lemma_fundamental_div_mod(r2, paths);
    vstd::arithmetic::div_mod::lemma_mod_bound(r2, paths);
    vstd::arithmetic::div_mod::lemma_div_pos_is_pos(r2, paths);
    assert(tn_len * paths == paths * tn_len) by (nonlinear_arith);
    vstd::arithmetic::div_mod::lemma_multiply_divide_lt(r2, paths, tn_len);
    assert(((a * t0_len + b) * tn_len + c) * paths + d == g) by (nonlinear_arith)
        requires
            g == w3 * a + r1,
            r1 == w2 * b + r2,
            r2 == paths * c + d,
            w2 == tn_len * paths,
            w3 == t0_len * w2,
    ;
    assert(flat_index(a, b, c, d, t0_len, tn_len, paths) == g);
}

/// Every flat position inside a pair product is hit by some in-range
/// pair.
pub(crate) proof fn lemma_pair_index_surjective(g: int, outer: int, inner: int)
    requires
        0 <= outer,
        0 <= inner,
        0 <= g < outer * inner,
    ensures
        exists|a: int, b: int|
            0 <= a < outer && 0 <= b < inner && #[trigger] pair_index(a, b, inner) == g,
{
    assert(outer > 0 && inner > 0) by (nonlinear_arith)
        requires
            0 <= outer,
            0 <= inner,
            0 <= g < outer * inner,
    ;
    let a = g / inner;
    let b = g % inner;
    vstd::arithmetic::div_mod::lemma_fundamental_div_mod(g, inner);
    vstd::arithmetic::div_mod::lemma_mod_bound(g, inner);
    vstd::arithmetic::div_mod::lemma_div_pos_is_pos(g, inner);
    assert(outer * inner == inner * outer) by (nonlinear_arith);
    vstd::arithmetic::div_mod::lemma_multiply_divide_lt(g, inner, outer);
    assert(a * inner + b == g) by (nonlinear_arith)
        requires
            g == inner * a + b,
    ;
    assert(pair_index(a, b, inner) == g);
}

/// Every flat position inside a triple product is hit by some in-range
/// triple.
pub(crate) proof fn lemma_triple_index_surjective(g: int, al: int, bl: int, cl: int)
    requires
        0 <= al,
        0 <= bl,
        0 <= cl,
        0 <= g < al * bl * cl,
    ensures
        exists|a: int, b: int, c: int|
            0 <= a < al && 0 <= b < bl && 0 <= c < cl && #[trigger] triple_index(a, b, c, bl, cl)
                == g,
{
    assert(al > 0 && bl > 0 && cl > 0) by (nonlinear_arith)
        requires
            0 <= al,
            0 <= bl,
            0 <= cl,
            0 <= g < al * bl * cl,
    ;
    let w = bl * cl;
    assert(w > 0 && al * bl * cl == al * w) by (nonlinear_arith)
        requires
            bl > 0,
            cl > 0,
            w == bl * cl,
    ;
    let a = g / w;
    let r = g % w;
    vstd::arithmetic::div_mod::lemma_fundamental_div_mod(g, w);
    vstd::arithmetic::div_mod::lemma_mod_bound(g, w);
    vstd::arithmetic::div_mod::lemma_div_pos_is_pos(g, w);
    vstd::arithmetic::div_mod::lemma_multiply_divide_lt(g, w, al);
    let b = r / cl;
    let c = r % cl;
    vstd::arithmetic::div_mod::lemma_fundamental_div_mod(r, cl);
    vstd::arithmetic::div_mod::lemma_mod_bound(r, cl);
    vstd::arithmetic::div_mod::lemma_div_pos_is_pos(r, cl);
    assert(bl * cl == cl * bl) by (nonlinear_arith);
    vstd::arithmetic::div_mod::lemma_multiply_divide_lt(r, cl, bl);
    assert((a * bl + b) * cl + c == g) by (nonlinear_arith)
        requires
            g == w * a + r,
            r == cl * b + c,
            w == bl * cl,
    ;
    assert(triple_index(a, b, c, bl, cl) == g);
}

/// In-range pairs map to flat positions inside the product.
pub(crate) proof fn lemma_pair_index_bounds(a: int, b: int, outer: int, inner: int)
    requires
        0 <= a < outer,
        0 <= b < inner,
    ensures
        0 <= pair_index(a, b, inner) < outer * inner,
{
    assert(0 <= a * inner + b < outer * inner) by (nonlinear_arith)
        requires
            0 <= a < outer,
            0 <= b < inner,
    ;
}

/// In-range triples map to flat positions inside the product.
pub(crate) proof fn lemma_triple_index_bounds(a: int, b: int, c: int, al: int, bl: int, cl: int)
    requires
        0 <= a < al,
        0 <= b < bl,
        0 <= c < cl,
    ensures
        0 <= triple_index(a, b, c, bl, cl) < (al * bl) * cl,
{
    assert(0 <= (a * bl + b) * cl + c < (al * bl) * cl) by (nonlinear_arith)
        requires
            0 <= a < al,
            0 <= b < bl,
            0 <= c < cl,
    ;
}

/// The parameters of a drift-diffusion price process. Generic over the
/// scalar kind `P` like the trajectory.
#[derive(Clone, Copy, Debug, PartialEq, Eq)]
pub struct GBMParameters<P> {
    /// The drift of the process.
    pub drift: P,
    /// The volatility of the process.
    pub volatility: P,
}

impl GBMParameters<Meta> {
    /// The values the drift dimension expands to.
    pub open spec fn drift_values(self) -> Seq<ScalarValue> {
        self.drift.0.spec_expansion()
    }

    /// The values the volatility dimension expands to.
    pub open spec fn vol_values(self) -> Seq<ScalarValue> {
        self.volatility.0.spec_expansion()
    }

    /// Both swept dimensions are valid descriptions.
    pub open spec fn dims_ok(self) -> bool {
        self.drift.0.spec_ok() && self.volatility.0.spec_ok()
    }

    /// The error the expansion reports: the first invalid dimension's.
    pub open spec fn spec_error(self) -> ConfigError {
        if !self.drift.0.spec_ok() {
            self.drift.0.spec_error()
        } else {
            self.volatility.0.spec_error()
        }
    }

    /// How many concrete parameter sets the expansion produces.
    pub open spec fn total(self) -> nat {
        self.drift_values().len() * self.vol_values().len()
    }
}

impl Parameterized<GBMParameters<Fixed>> for GBMParameters<Meta> {
    /// Expands to the cartesian product of the drift and volatility
    /// dimensions, drift outermost.
    fn generate(&self) -> (r: Result<Vec<GBMParameters<Fixed>>, ConfigError>)
        ensures
            r is Ok <==> self.dims_ok(),
            !self.dims_ok() ==> (r matches Err(e) && e == self.spec_error()),
            r matches Ok(v) ==> v@.len() == self.total(),
            r matches Ok(v) ==> forall|a: int, b: int|
                0 <= a < self.drift_values().len() && 0 <= b < self.vol_values().len() ==> {
                    let e = v@[#[trigger] pair_index(a, b, self.vol_values().len() as int)];
                    e.drift == Fixed(self.drift_values()[a]) && e.volatility == Fixed(
                        self.vol_values()[b],
                    )
                },
    {
        let ds = match self.drift.generate() {
            Ok(v) => v,
            Err(e) => {
                return Err(e);
            },
        };
        let vs = match self.volatility.generate() {
            Ok(v) => v,
            Err(e) => {
                return Err(e);
            },
        };
        let ghost vl = self.vol_values().len() as int;
        let mut result: Vec<GBMParameters<Fixed>> = Vec::new();
        proof {
            assert(0 * vl + 0 == 0) by (nonlinear_arith);
        }
        let mut a: usize = 0;
        while a < ds.len()
            invariant
                ds@ == self.drift_values(),
                vs@ == self.vol_values(),
                vl == self.vol_values().len() as int,
                a <= ds@.len(),
                result@.len() == pair_index(a as int, 0, vl),
                forall|x0: int, x1: int|
                    0 <= x0 < ds@.len() && 0 <= x1 < vs@.len() && (x0 < a || (x0 == a && x1 < 0))
                        ==> {
                        let e = result@[#[trigger] pair_index(x0, x1, vl)];
                        e.drift == Fixed(ds@[x0]) && e.volatility == Fixed(vs@[x1])
                    },
            decreases ds@.len() - a,
        {
            let mut b: usize = 0;
            while b < vs.len()
                invariant
                    ds@ == self.drift_values(),
                    vs@ == self.vol_values(),
                    vl == self.vol_values().len() as int,
                    a < ds@.len(),
                    b <= vs@.len(),
                    result@.len() == pair_index(a as int, b as int, vl),
                    forall|x0: int, x1: int|
                        0 <= x0 < ds@.len() && 0 <= x1 < vs@.len() && (x0 < a || (x0 == a && x1
                            < b)) ==> {
                            let e = result@[#[trigger] pair_index(x0, x1, vl)];
                            e.drift == Fixed(ds@[x0]) && e.volatility == Fixed(vs@[x1])
                        },
                decreases vs@.len() - b,
            {
                result.push(GBMParameters::<Fixed> { drift: Fixed(ds[a]), volatility: Fixed(vs[b]) });
                proof {
                    assert forall|x0: int, x1: int|
                        0 <= x0 < ds@.len() && 0 <= x1 < vs@.len() && (x0 < a || (x0 == a && x1
                            < b + 1)) implies {
                        let e = result@[#[trigger] pair_index(x0, x1, vl)];
                        e.drift == Fixed(ds@[x0]) && e.volatility == Fixed(vs@[x1])
                    } by {
                        if x0 < a as int || (x0 == a as int && x1 < b as int) {
                            lemma_pair_lex_mono(x0, x1, a as int, b as int, vl);
                        }
                    }
                }
                b = b + 1;
            }
            proof {
                assert((a as int) * vl + vl == ((a as int) + 1) * vl) by (nonlinear_arith);
            }
            a = a + 1;
        }
        proof {
            assert(result@.len() == self.total());
        }
        Ok(result)
    }
}

/// The parameters of a mean-reverting price process. Generic over the
/// scalar kind `P` like the trajectory.
#[derive(Clone, Copy, Debug, PartialEq, Eq)]
pub struct OUParameters<P> {
    /// The mean (price) the process reverts to.
    pub mean: P,
    /// The standard deviation of the process.
    pub std_dev: P,
    /// How strongly the process reverts to the mean.
    pub theta: P,
}

impl OUParameters<Meta> {
    /// The values the mean dimension expands to.
    pub open spec fn mean_values(self) -> Seq<ScalarValue> {
        self.mean.0.spec_expansion()
    }

    /// The values the standard-deviation dimension expands to.
    pub open spec fn std_values(self) -> Seq<ScalarValue> {
        self.std_dev.0.spec_expansion()
    }

    /// The values the reversion-rate dimension expands to.
    pub open spec fn theta_values(self) -> Seq<ScalarValue> {
        self.theta.0.spec_expansion()
    }

    /// Every swept dimension is a valid description.
    pub open spec fn dims_ok(self) -> bool {
        self.mean.0.spec_ok() && self.std_dev.0.spec_ok() && self.theta.0.spec_ok()
    }

    /// The error the expansion reports: the first invalid dimension's.
    pub open spec fn spec_error(self) -> ConfigError {
        if !self.mean.0.spec_ok() {
            self.mean.0.spec_error()
        } else if !self.std_dev.0.spec_ok() {
            self.std_dev.0.spec_error()
        } else {
            self.theta.0.spec_error()
        }
    }

    /// How many concrete parameter sets the expansion produces.
    pub open spec fn total(self) -> nat {
        self.mean_values().len() * self.std_values().len() * self.theta_values().len()
    }
}

impl Parameterized<OUParameters<Fixed>> for OUParameters<Meta> {
    /// Expands to the cartesian product of the mean, standard-deviation and
    /// reversion-rate dimensions, mean outermost.
    fn generate(&self) -> (r: Result<Vec<OUParameters<Fixed>>, ConfigError>)
        ensures
            r is Ok <==> self.dims_ok(),
            !self.dims_ok() ==> (r matches Err(e) && e == self.spec_error()),
            r matches Ok(v) ==> v@.len() == self.total(),
            r matches Ok(v) ==> forall|a: int, b: int, c: int|
                0 <= a < self.mean_values().len() && 0 <= b < self.std_values().len() && 0 <= c
                    < self.theta_values().len() ==> {
                    let e = v@[#[trigger] triple_index(
                        a,
                        b,
                        c,
                        self.std_values().len() as int,
                        self.theta_values().len() as int,
                    )];
                    e.mean == Fixed(self.mean_values()[a]) && e.std_dev == Fixed(
                        self.std_values()[b],
                    ) && e.theta == Fixed(self.theta_values()[c])
                },
    {
        let ms = match self.mean.generate() {
            Ok(v) => v,
            Err(e) => {
                return Err(e);
            },
        };
        let ss = match self.std_dev.generate() {
            Ok(v) => v,
            Err(e) => {
                return Err(e);
            },
        };
        let ts = match self.theta.generate() {
            Ok(v) => v,
            Err(e) => {
                return Err(e);
            },
        };
        let ghost sl = self.std_values().len() as int;
        let ghost tl = self.theta_values().len() as int;
        let mut result: Vec<OUParameters<Fixed>> = Vec::new();
        proof {
            assert((0 * sl + 0) * tl + 0 == 0) by (nonlinear_arith);
        }
        let mut a: usize = 0;
        while a < ms.len()
            invariant
                ms@ == self.mean_values(),
                ss@ == self.std_values(),
                ts@ == self.theta_values(),
                sl == self.std_values().len() as int,
                tl == self.theta_values().len() as int,
                a <= ms@.len(),
                result@.len() == triple_index(a as int, 0, 0, sl, tl),
                forall|x0: int, x1: int, x2: int|
                    0 <= x0 < ms@.len() && 0 <= x1 < ss@.len() && 0 <= x2 < ts@.len() && x0 < a
                        ==> {
                        let e = result@[#[trigger] triple_index(x0, x1, x2, sl, tl)];
                        e.mean == Fixed(ms@[x0]) && e.std_dev == Fixed(ss@[x1]) && e.theta
                            == Fixed(ts@[x2])
                    },
            decreases ms@.len() - a,
        {
            let mut b: usize = 0;
            while b < ss.len()
                invariant
                    ms@ == self.mean_values(),
                    ss@ == self.std_values(),
                    ts@ == self.theta_values(),
                    sl == self.std_values().len() as int,
                    tl == self.theta_values().len() as int,
                    a < ms@.len(),
                    b <= ss@.len(),
                    result@.len() == triple_index(a as int, b as int, 0, sl, tl),
                    forall|x0: int, x1: int, x2: int|
                        0 <= x0 < ms@.len() && 0 <= x1 < ss@.len() && 0 <= x2 < ts@.len() && (x0
                            < a || (x0 == a && x1 < b)) ==> {
                            let e = result@[#[trigger] triple_index(x0, x1, x2, sl, tl)];
                            e.mean == Fixed(ms@[x0]) && e.std_dev == Fixed(ss@[x1]) && e.theta
                                == Fixed(ts@[x2])
                        },
                decreases ss@.len() - b,
            {
                let mut c: usize = 0;
                while c < ts.len()
                    invariant
                        ms@ == self.mean_values(),
                        ss@ == self.std_values(),
                        ts@ == self.theta_values(),
                        sl == self.std_values().len() as int,
                        tl == self.theta_values().len() as int,
                        a < ms@.len(),
                        b < ss@.len(),
                        c <= ts@.len(),
                        result@.len() == triple_index(a as int, b as int, c as int, sl, tl),
                        forall|x0: int, x1: int, x2: int|
                            0 <= x0 < ms@.len() && 0 <= x1 < ss@.len() && 0 <= x2 < ts@.len()
                                && (x0 < a || (x0 == a && x1 < b) || (x0 == a && x1 == b && x2
                                < c)) ==> {
                                let e = result@[#[trigger] triple_index(x0, x1, x2, sl, tl)];
                                e.mean == Fixed(ms@[x0]) && e.std_dev == Fixed(ss@[x1])
                                    && e.theta == Fixed(ts@[x2])
                            },
                    decreases ts@.len() - c,
                {
                    result.push(
                        OUParameters::<Fixed> {
                            mean: Fixed(ms[a]),
                            std_dev: Fixed(ss[b]),
                            theta: Fixed(ts[c]),
                        },
                    );
                    proof {
                        assert forall|x0: int, x1: int, x2: int|
                            0 <= x0 < ms@.len() && 0 <= x1 < ss@.len() && 0 <= x2 < ts@.len()
                                && (x0 < a || (x0 == a && x1 < b) || (x0 == a && x1 == b && x2
                                < c + 1)) implies {
                            let e = result@[#[trigger] triple_index(x0, x1, x2, sl, tl)];
                            e.mean == Fixed(ms@[x0]) && e.std_dev == Fixed(ss@[x1]) && e.theta
                                == Fixed(ts@[x2])
                        } by {
                            if x0 < a as int || (x0 == a as int && x1 < b as int) || (x0
                                == a as int && x1 == b as int && x2 < c as int) {
                                lemma_triple_lex_mono(
                                    x0,
                                    x1,
                                    x2,
                                    a as int,
                                    b as int,
                                    c as int,
                                    sl,
                                    tl,
                                );
                            }
                        }
                    }
                    c = c + 1;
                }
                proof {
                    assert(((a as int) * sl + b) * tl + tl == ((a as int) * sl + (b + 1)) * tl)
                        by (nonlinear_arith);
                }
                b = b + 1;
            }
            proof {
                assert(((a as int) * sl + sl) * tl == (((a as int) + 1) * sl) * tl)
                    by (nonlinear_arith);
            }
            a = a + 1;
        }
        proof {
            assert(((ms@.len() as int) * sl) * tl == self.total()) by (nonlinear_arith)
                requires
                    sl == self.std_values().len() as int,
                    tl == self.theta_values().len() as int,
                    ms@ == self.mean_values(),
                    self.total() == self.mean_values().len() * self.std_values().len()
                        * self.theta_values().len(),
            ;
        }
        Ok(result)
    }
}

} // verus!
