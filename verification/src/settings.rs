//! The sweep configuration and its expansion into concrete runs.
//!
//! A meta configuration pairs a trajectory description with one set of
//! process parameters; `generate` expands it into the cartesian product of
//! every trajectory combination and every process combination, and derives
//! each run's output names deterministically from its process values and
//! its path tag.

use crate::decimal::{
    dec_digits, dec_signed, decimal_string_i128, decimal_string_u64, lemma_dec_digits_injective,
};
use crate::parameters::{
    flat_index, lemma_flat_index_bounds, lemma_flat_index_surjective, lemma_flat_lex_mono,
    lemma_pair_index_bounds, lemma_pair_index_surjective, lemma_pair_lex_mono,
    lemma_triple_index_bounds, lemma_triple_index_surjective, lemma_triple_lex_mono, lex4_lt,
    pair_index, triple_index,
    BlockParameters, ConfigError, Fixed, GBMParameters, Meta, OUParameters, Parameterized,
    ScalarValue, TrajectoryParameters,
};
use crate::simulations::SimulationType;
use vstd::prelude::*;

verus! {

/// A scalar value rendered for an output path: the numerator, an
/// underscore, the denominator.
pub open spec fn scalar_label(v: ScalarValue) -> Seq<char> {
    dec_signed(v.num as int) + "_"@ + dec_digits(v.den as nat)
}

/// The directory suffix of a drift-diffusion run: its process name and its
/// concrete drift and volatility.
pub open spec fn gbm_dir_suffix(drift: ScalarValue, vol: ScalarValue) -> Seq<char> {
    "/gbm_drift_"@ + scalar_label(drift) + "_vol_"@ + scalar_label(vol)
}

/// The directory suffix of a mean-reverting run: its process name and its
/// concrete mean, standard deviation and reversion rate.
pub open spec fn ou_dir_suffix(mean: ScalarValue, std_dev: ScalarValue, theta: ScalarValue) -> Seq<
    char,
> {
    "/ou_mean_"@ + scalar_label(mean) + "_std_"@ + scalar_label(std_dev) + "_theta_"@
        + scalar_label(theta)
}

/// Appends the rendering of one scalar value.
fn append_scalar_label(s: &mut String, v: ScalarValue)
    ensures
        final(s)@ == old(s)@ + scalar_label(v),
{
    let num_part = decimal_string_i128(v.num);
    s.append(num_part.as_str());
    s.append("_");
    let den_part = decimal_string_u64(v.den);
    s.append(den_part.as_str());
    proof {
        assert(final(s)@ =~= old(s)@ + scalar_label(v));
    }
}

/// An owned copy of a concrete trajectory, equal to the original.
fn duplicate_trajectory(t: &TrajectoryParameters<Fixed>) -> (r: TrajectoryParameters<Fixed>)
    ensures
        r == *t,
{
    let output_tag = match &t.output_tag {
        Some(tag) => Some(tag.clone()),
        None => None,
    };
    TrajectoryParameters::<Fixed> {
        process: t.process.clone(),
        initial_price: t.initial_price,
        t_0: t.t_0,
        t_n: t.t_n,
        num_steps: t.num_steps,
        num_paths: t.num_paths,
        seed: t.seed,
        output_tag,
    }
}

/// The whole description of a simulation sweep. Generic over the scalar
/// kind `P`: a meta configuration still holds expandable parameters, a
/// concrete one describes a single run. Exactly one set of process
/// parameters must be present.
#[derive(Debug, PartialEq, Eq)]
pub struct SimulationConfig<P> {
    /// The kind of simulation to run.
    pub simulation: SimulationType,
    /// How many runs may hold a permit at once; unbounded when absent.
    /// Carried through unchanged: the bound itself is not swept.
    pub max_parallel: Option<usize>,
    /// The directory the run's output is written to.
    pub output_directory: String,
    /// The file the run's output is written to.
    pub output_file_name: String,
    /// The trajectory of the simulated price.
    pub trajectory: TrajectoryParameters<P>,
    /// The parameters of a drift-diffusion process, if that is the process.
    pub gbm: Option<GBMParameters<P>>,
    /// The parameters of a mean-reverting process, if that is the process.
    pub ou: Option<OUParameters<P>>,
    /// The block parameters, carried through unchanged.
    pub block: BlockParameters,
}

impl SimulationConfig<Meta> {
    /// The sweep uses the drift-diffusion process.
    pub open spec fn gbm_mode(self) -> bool {
        self.gbm is Some && self.ou is None
    }

    /// The sweep uses the mean-reverting process.
    pub open spec fn ou_mode(self) -> bool {
        self.ou is Some && self.gbm is None
    }

    /// The whole description is valid: the trajectory dimensions expand,
    /// exactly one process is named, and its dimensions expand.
    pub open spec fn spec_ok(self) -> bool {
        &&& self.trajectory.dims_ok()
        &&& ((self.gbm_mode() && self.gbm->0.dims_ok()) || (self.ou_mode()
            && self.ou->0.dims_ok()))
    }

    /// The error an invalid description is rejected with: the trajectory's
    /// first, then the process selection, then the process dimensions.
    pub open spec fn spec_error(self) -> ConfigError {
        if !self.trajectory.dims_ok() {
            self.trajectory.spec_error()
        } else if self.gbm is None && self.ou is None {
            ConfigError::EmptyProcess
        } else if self.gbm is Some && self.ou is Some {
            ConfigError::ConflictingProcesses
        } else if self.gbm_mode() {
            self.gbm->0.spec_error()
        } else {
            self.ou->0.spec_error()
        }
    }

    /// How many concrete runs the sweep expands to: every trajectory
    /// combination paired with every process combination.
    pub open spec fn spec_total(self) -> nat {
        self.trajectory.total() * (
        if self.gbm_mode() {
            self.gbm->0.total()
        } else {
            self.ou->0.total()
        })
    }

    /// The concrete run at trajectory combination `(a, b, c, d)` carries
    /// that combination's trajectory, the unswept fields unchanged, and the
    /// meta file name suffixed with the path tag.
    pub open spec fn common_fields_match(
        self,
        cfg: SimulationConfig<Fixed>,
        a: int,
        b: int,
        c: int,
        d: int,
    ) -> bool {
        &&& cfg.simulation == self.simulation
        &&& cfg.max_parallel == self.max_parallel
        &&& cfg.block == self.block
        &&& self.trajectory.element_matches(cfg.trajectory, a, b, c, d)
        &&& cfg.output_file_name@ == self.output_file_name@ + "_"@ + dec_digits(d as nat)
    }

    /// The concrete run at drift-diffusion combination `(e, f)` carries
    /// that combination's parameters and a directory suffixed with them.
    pub open spec fn gbm_fields_match(self, cfg: SimulationConfig<Fixed>, e: int, f: int) -> bool {
        let gm = self.gbm->0;
        &&& cfg.ou is None
        &&& (cfg.gbm matches Some(gp) && gp.drift == Fixed(gm.drift_values()[e])
            && gp.volatility == Fixed(gm.vol_values()[f]))
        &&& cfg.output_directory@ == self.output_directory@ + gbm_dir_suffix(
            gm.drift_values()[e],
            gm.vol_values()[f],
        )
    }

    /// The concrete run at mean-reverting combination `(e, f, h)` carries
    /// that combination's parameters and a directory suffixed with them.
    pub open spec fn ou_fields_match(
        self,
        cfg: SimulationConfig<Fixed>,
        e: int,
        f: int,
        h: int,
    ) -> bool {
        let om = self.ou->0;
        &&& cfg.gbm is None
        &&& (cfg.ou matches Some(op) && op.mean == Fixed(om.mean_values()[e]) && op.std_dev
            == Fixed(om.std_values()[f]) && op.theta == Fixed(om.theta_values()[h]))
        &&& cfg.output_directory@ == self.output_directory@ + ou_dir_suffix(
            om.mean_values()[e],
            om.std_values()[f],
            om.theta_values()[h],
        )
    }
}

/// Two concrete runs agree on every field the expansion contract pins
/// down; the text fields are compared as character sequences.
pub open spec fn configs_agree(x: SimulationConfig<Fixed>, y: SimulationConfig<Fixed>) -> bool {
    &&& x.simulation == y.simulation
    &&& x.max_parallel == y.max_parallel
    &&& x.block == y.block
    &&& x.output_directory@ == y.output_directory@
    &&& x.output_file_name@ == y.output_file_name@
    &&& x.gbm == y.gbm
    &&& x.ou == y.ou
    &&& x.trajectory.process@ == y.trajectory.process@
    &&& x.trajectory.initial_price == y.trajectory.initial_price
    &&& x.trajectory.t_0 == y.trajectory.t_0
    &&& x.trajectory.t_n == y.trajectory.t_n
    &&& x.trajectory.num_steps == y.trajectory.num_steps
    &&& x.trajectory.num_paths == y.trajectory.num_paths
    &&& x.trajectory.seed == y.trajectory.seed
    &&& (x.trajectory.output_tag matches Some(xt) && (y.trajectory.output_tag matches Some(yt)
        && xt@ == yt@))
}

/// Law of the product size: a drift-diffusion sweep expands to exactly
/// `|initial_price| * |t_0| * |t_n| * num_paths * |drift| * |volatility|`
/// concrete runs.
pub proof fn lemma_product_size(m: SimulationConfig<Meta>)
    requires
        m.gbm_mode(),
    ensures
        m.spec_total() == m.trajectory.ip_values().len() * m.trajectory.t0_values().len()
            * m.trajectory.tn_values().len() * m.trajectory.num_paths
            * m.gbm->0.drift_values().len() * m.gbm->0.vol_values().len(),
{
    let i = m.trajectory.ip_values().len() as int;
    let t = m.trajectory.t0_values().len() as int;
    let n = m.trajectory.tn_values().len() as int;
    let p = m.trajectory.num_paths as int;
    let d = m.gbm->0.drift_values().len() as int;
    let v = m.gbm->0.vol_values().len() as int;
    assert((((i * t) * n) * p) * ((d * v)) == ((((((i * t) * n) * p) * d) * v)))
        by (nonlinear_arith);
}

/// Law of determinism: expansion is a pure function of the meta
/// configuration. Any two results that satisfy the expansion contract of
/// one drift-diffusion sweep have the same length and agree, seeds and
/// output names included, at every position and every combination of
/// trajectory and process indices.
pub proof fn lemma_expansion_deterministic_gbm(
    m: SimulationConfig<Meta>,
    v1: Seq<SimulationConfig<Fixed>>,
    v2: Seq<SimulationConfig<Fixed>>,
)
    requires
        m.spec_ok(),
        m.gbm_mode(),
        v1.len() == m.spec_total(),
        v2.len() == m.spec_total(),
        forall|a: int, b: int, c: int, d: int, j: int|
            0 <= a < m.trajectory.ip_values().len() && 0 <= b < m.trajectory.t0_values().len()
                && 0 <= c < m.trajectory.tn_values().len() && 0 <= d < m.trajectory.num_paths
                && 0 <= j < m.gbm->0.total() ==> m.common_fields_match(
                v1[#[trigger] pair_index(
                    flat_index(
                        a,
                        b,
                        c,
                        d,
                        m.trajectory.t0_values().len() as int,
                        m.trajectory.tn_values().len() as int,
                        m.trajectory.num_paths as int,
                    ),
                    j,
                    m.gbm->0.total() as int,
                )],
                a,
                b,
                c,
                d,
            ) && m.common_fields_match(
                v2[pair_index(
                    flat_index(
                        a,
                        b,
                        c,
                        d,
                        m.trajectory.t0_values().len() as int,
                        m.trajectory.tn_values().len() as int,
                        m.trajectory.num_paths as int,
                    ),
                    j,
                    m.gbm->0.total() as int,
                )],
                a,
                b,
                c,
                d,
            ),
        forall|ti: int, e: int, f: int|
            0 <= ti < m.trajectory.total() && 0 <= e < m.gbm->0.drift_values().len() && 0 <= f
                < m.gbm->0.vol_values().len() ==> m.gbm_fields_match(
                v1[#[trigger] pair_index(
                    ti,
                    pair_index(e, f, m.gbm->0.vol_values().len() as int),
                    m.gbm->0.total() as int,
                )],
                e,
                f,
            ) && m.gbm_fields_match(
                v2[pair_index(
                    ti,
                    pair_index(e, f, m.gbm->0.vol_values().len() as int),
                    m.gbm->0.total() as int,
                )],
                e,
                f,
            ),
    ensures
        v1.len() == v2.len(),
        forall|kk: int| 0 <= kk < v1.len() ==> configs_agree(#[trigger] v1[kk], v2[kk]),
        forall|a: int, b: int, c: int, d: int, e: int, f: int|
            0 <= a < m.trajectory.ip_values().len() && 0 <= b < m.trajectory.t0_values().len()
                && 0 <= c < m.trajectory.tn_values().len() && 0 <= d < m.trajectory.num_paths
                && 0 <= e < m.gbm->0.drift_values().len() && 0 <= f
                < m.gbm->0.vol_values().len() ==> configs_agree(
                v1[#[trigger] pair_index(
                    flat_index(
                        a,
                        b,
                        c,
                        d,
                        m.trajectory.t0_values().len() as int,
                        m.trajectory.tn_values().len() as int,
                        m.trajectory.num_paths as int,
                    ),
                    pair_index(e, f, m.gbm->0.vol_values().len() as int),
                    m.gbm->0.total() as int,
                )],
                v2[pair_index(
                    flat_index(
                        a,
                        b,
                        c,
                        d,
                        m.trajectory.t0_values().len() as int,
                        m.trajectory.tn_values().len() as int,
                        m.trajectory.num_paths as int,
                    ),
                    pair_index(e, f, m.gbm->0.vol_values().len() as int),
                    m.gbm->0.total() as int,
                )],
            ),
{
    let ipl = m.trajectory.ip_values().len() as int;
    let t0l = m.trajectory.t0_values().len() as int;
    let tnl = m.trajectory.tn_values().len() as int;
    let p = m.trajectory.num_paths as int;
    let dl = m.gbm->0.drift_values().len() as int;
    let vl = m.gbm->0.vol_values().len() as int;
    let procs = m.gbm->0.total() as int;
    assert forall|a: int, b: int, c: int, d: int, e: int, f: int|
        0 <= a < ipl && 0 <= b < t0l && 0 <= c < tnl && 0 <= d < p && 0 <= e < dl && 0 <= f
            < vl implies configs_agree(
        v1[#[trigger] pair_index(
            flat_index(a, b, c, d, t0l, tnl, p),
            pair_index(e, f, vl),
            procs,
        )],
        v2[pair_index(flat_index(a, b, c, d, t0l, tnl, p), pair_index(e, f, vl), procs)],
    ) by {
        lemma_flat_index_bounds(a, b, c, d, ipl, t0l, tnl, p);
        lemma_pair_index_bounds(e, f, dl, vl);
        assert(dl * vl == procs);
    }
    assert forall|kk: int| 0 <= kk < v1.len() implies configs_agree(#[trigger] v1[kk], v2[kk]) by {
        lemma_pair_index_surjective(kk, m.trajectory.total() as int, procs);
        let (ti, j) = choose|ti: int, j: int|
            0 <= ti < m.trajectory.total() && 0 <= j < procs && #[trigger] pair_index(
                ti,
                j,
                procs,
            ) == kk;
        lemma_flat_index_surjective(ti, ipl, t0l, tnl, p);
        let (a, b, c, d) = choose|a: int, b: int, c: int, d: int|
            0 <= a < ipl && 0 <= b < t0l && 0 <= c < tnl && 0 <= d < p && #[trigger] flat_index(
                a,
                b,
                c,
                d,
                t0l,
                tnl,
                p,
            ) == ti;
        assert(dl * vl == procs);
        lemma_pair_index_surjective(j, dl, vl);
        let (e, f) = choose|e: int, f: int|
            0 <= e < dl && 0 <= f < vl && #[trigger] pair_index(e, f, vl) == j;
        assert(m.common_fields_match(
            v1[pair_index(flat_index(a, b, c, d, t0l, tnl, p), j, procs)],
            a,
            b,
            c,
            d,
        ));
        assert(m.gbm_fields_match(v1[pair_index(ti, pair_index(e, f, vl), procs)], e, f));
    }
}

/// Law of determinism for the mean-reverting process: the counterpart of
/// the drift-diffusion law. Any two results that satisfy the expansion
/// contract of one mean-reverting sweep have the same length and agree at
/// every position and every combination of indices.
pub proof fn lemma_expansion_deterministic_ou(
    m: SimulationConfig<Meta>,
    v1: Seq<SimulationConfig<Fixed>>,
    v2: Seq<SimulationConfig<Fixed>>,
)
    requires
        m.spec_ok(),
        m.ou_mode(),
        v1.len() == m.spec_total(),
        v2.len() == m.spec_total(),
        forall|a: int, b: int, c: int, d: int, j: int|
            0 <= a < m.trajectory.ip_values().len() && 0 <= b < m.trajectory.t0_values().len()
                && 0 <= c < m.trajectory.tn_values().len() && 0 <= d < m.trajectory.num_paths
                && 0 <= j < m.ou->0.total() ==> m.common_fields_match(
                v1[#[trigger] pair_index(
                    flat_index(
                        a,
                        b,
                        c,
                        d,
                        m.trajectory.t0_values().len() as int,
                        m.trajectory.tn_values().len() as int,
                        m.trajectory.num_paths as int,
                    ),
                    j,
                    m.ou->0.total() as int,
                )],
                a,
                b,
                c,
                d,
            ) && m.common_fields_match(
                v2[pair_index(
                    flat_index(
                        a,
                        b,
                        c,
                        d,
                        m.trajectory.t0_values().len() as int,
                        m.trajectory.tn_values().len() as int,
                        m.trajectory.num_paths as int,
                    ),
                    j,
                    m.ou->0.total() as int,
                )],
                a,
                b,
                c,
                d,
            ),
        forall|ti: int, e: int, f: int, h: int|
            0 <= ti < m.trajectory.total() && 0 <= e < m.ou->0.mean_values().len() && 0 <= f
                < m.ou->0.std_values().len() && 0 <= h < m.ou->0.theta_values().len()
                ==> m.ou_fields_match(
                v1[#[trigger] pair_index(
                    ti,
                    triple_index(
                        e,
                        f,
                        h,
                        m.ou->0.std_values().len() as int,
                        m.ou->0.theta_values().len() as int,
                    ),
                    m.ou->0.total() as int,
                )],
                e,
                f,
                h,
            ) && m.ou_fields_match(
                v2[pair_index(
                    ti,
                    triple_index(
                        e,
                        f,
                        h,
                        m.ou->0.std_values().len() as int,
                        m.ou->0.theta_values().len() as int,
                    ),
                    m.ou->0.total() as int,
                )],
                e,
                f,
                h,
            ),
    ensures
        v1.len() == v2.len(),
        forall|kk: int| 0 <= kk < v1.len() ==> configs_agree(#[trigger] v1[kk], v2[kk]),
{
    let ipl = m.trajectory.ip_values().len() as int;
    let t0l = m.trajectory.t0_values().len() as int;
    let tnl = m.trajectory.tn_values().len() as int;
    let p = m.trajectory.num_paths as int;
    let ml = m.ou->0.mean_values().len() as int;
    let sl = m.ou->0.std_values().len() as int;
    let tl = m.ou->0.theta_values().len() as int;
    let procs = m.ou->0.total() as int;
    assert forall|kk: int| 0 <= kk < v1.len() implies configs_agree(#[trigger] v1[kk], v2[kk]) by {
        lemma_pair_index_surjective(kk, m.trajectory.total() as int, procs);
        let (ti, j) = choose|ti: int, j: int|
            0 <= ti < m.trajectory.total() && 0 <= j < procs && #[trigger] pair_index(
                ti,
                j,
                procs,
            ) == kk;
        lemma_flat_index_surjective(ti, ipl, t0l, tnl, p);
        let (a, b, c, d) = choose|a: int, b: int, c: int, d: int|
            0 <= a < ipl && 0 <= b < t0l && 0 <= c < tnl && 0 <= d < p && #[trigger] flat_index(
                a,
                b,
                c,
                d,
                t0l,
                tnl,
                p,
            ) == ti;
        assert(ml * sl * tl == procs);
        lemma_triple_index_surjective(j, ml, sl, tl);
        let (e, f, h) = choose|e: int, f: int, h: int|
            0 <= e < ml && 0 <= f < sl && 0 <= h < tl && #[trigger] triple_index(e, f, h, sl, tl)
                == j;
        assert(m.common_fields_match(
            v1[pair_index(flat_index(a, b, c, d, t0l, tnl, p), j, procs)],
            a,
            b,
            c,
            d,
        ));
        assert(m.ou_fields_match(v1[pair_index(ti, triple_index(e, f, h, sl, tl), procs)], e, f, h));
    }
}

/// Law of path naming: two concrete runs of one sweep whose path indices
/// differ never share an output file name, whatever the rest of their
/// combinations is. The file name determines the path index.
pub proof fn lemma_distinct_paths_distinct_names(
    m: SimulationConfig<Meta>,
    run1: SimulationConfig<Fixed>,
    run2: SimulationConfig<Fixed>,
    a1: int,
    b1: int,
    c1: int,
    d1: int,
    a2: int,
    b2: int,
    c2: int,
    d2: int,
)
    requires
        m.common_fields_match(run1, a1, b1, c1, d1),
        m.common_fields_match(run2, a2, b2, c2, d2),
        0 <= d1,
        0 <= d2,
        d1 != d2,
    ensures
        run1.output_file_name@ != run2.output_file_name@,
{
    let base = m.output_file_name@ + "_"@;
    let x = dec_digits(d1 as nat);
    let y = dec_digits(d2 as nat);
    if run1.output_file_name@ == run2.output_file_name@ {
        assert(base + x == base + y);
        assert(x.len() == y.len());
        assert forall|i: int| 0 <= i < x.len() implies x[i] == y[i] by {
            assert((base + x)[base.len() + i] == x[i]);
            assert((base + y)[base.len() + i] == y[i]);
        }
        assert(x =~= y);
        lemma_dec_digits_injective(d1 as nat, d2 as nat);
        assert(false);
    }
}

impl Parameterized<SimulationConfig<Fixed>> for SimulationConfig<Meta> {
    /// Expands the sweep into one concrete configuration per pair of a
    /// trajectory combination and a process combination, trajectories
    /// outermost. Each run's directory is suffixed deterministically with
    /// its process values and its file name with its path tag: the output
    /// names are how parallel runs keep their files apart.
    #[verifier::loop_isolation(false)]
    #[verifier::rlimit(100)]
    fn generate(&self) -> (r: Result<Vec<SimulationConfig<Fixed>>, ConfigError>)
        ensures
            r is Ok <==> self.spec_ok(),
            !self.spec_ok() ==> (r matches Err(er) && er == self.spec_error()),
            r matches Ok(v) ==> v@.len() == self.spec_total(),
            (self.spec_ok() && self.gbm_mode()) ==> (r matches Ok(v) && (forall|
                a: int,
                b: int,
                c: int,
                d: int,
                j: int,
            |
                0 <= a < self.trajectory.ip_values().len() && 0 <= b
                    < self.trajectory.t0_values().len() && 0 <= c
                    < self.trajectory.tn_values().len() && 0 <= d < self.trajectory.num_paths
                    && 0 <= j < self.gbm->0.total() ==> self.common_fields_match(
                    v@[#[trigger] pair_index(
                        flat_index(
                            a,
                            b,
                            c,
                            d,
                            self.trajectory.t0_values().len() as int,
                            self.trajectory.tn_values().len() as int,
                            self.trajectory.num_paths as int,
                        ),
                        j,
                        self.gbm->0.total() as int,
                    )],
                    a,
                    b,
                    c,
                    d,
                ))),
            (self.spec_ok() && self.gbm_mode()) ==> (r matches Ok(v) && (forall|
                ti: int,
                e: int,
                f: int,
            |
                0 <= ti < self.trajectory.total() && 0 <= e < self.gbm->0.drift_values().len()
                    && 0 <= f < self.gbm->0.vol_values().len() ==> self.gbm_fields_match(
                    v@[#[trigger] pair_index(
                        ti,
                        pair_index(e, f, self.gbm->0.vol_values().len() as int),
                        self.gbm->0.total() as int,
                    )],
                    e,
                    f,
                ))),
            (self.spec_ok() && self.ou_mode()) ==> (r matches Ok(v) && (forall|
                a: int,
                b: int,
                c: int,
                d: int,
                j: int,
            |
                0 <= a < self.trajectory.ip_values().len() && 0 <= b
                    < self.trajectory.t0_values().len() && 0 <= c
                    < self.trajectory.tn_values().len() && 0 <= d < self.trajectory.num_paths
                    && 0 <= j < self.ou->0.total() ==> self.common_fields_match(
                    v@[#[trigger] pair_index(
                        flat_index(
                            a,
                            b,
                            c,
                            d,
                            self.trajectory.t0_values().len() as int,
                            self.trajectory.tn_values().len() as int,
                            self.trajectory.num_paths as int,
                        ),
                        j,
                        self.ou->0.total() as int,
                    )],
                    a,
                    b,
                    c,
                    d,
                ))),
            (self.spec_ok() && self.ou_mode()) ==> (r matches Ok(v) && (forall|
                ti: int,
                e: int,
                f: int,
                h: int,
            |
                0 <= ti < self.trajectory.total() && 0 <= e < self.ou->0.mean_values().len()
                    && 0 <= f < self.ou->0.std_values().len() && 0 <= h
                    < self.ou->0.theta_values().len() ==> self.ou_fields_match(
                    v@[#[trigger] pair_index(
                        ti,
                        triple_index(
                            e,
                            f,
                            h,
                            self.ou->0.std_values().len() as int,
                            self.ou->0.theta_values().len() as int,
                        ),
                        self.ou->0.total() as int,
                    )],
                    e,
                    f,
                    h,
                ))),
    {
        let tv = match self.trajectory.generate() {
            Ok(v) => v,
            Err(e) => {
                return Err(e);
            },
        };
        if self.gbm.is_some() && self.ou.is_some() {
            return Err(ConfigError::ConflictingProcesses);
        }
        let ghost ipl = self.trajectory.ip_values().len() as int;
        let ghost t0l = self.trajectory.t0_values().len() as int;
        let ghost tnl = self.trajectory.tn_values().len() as int;
        let ghost p = self.trajectory.num_paths as int;
        if let Some(gm) = &self.gbm {
            let pv = match gm.generate() {
                Ok(v) => v,
                Err(e) => {
                    return Err(e);
                },
            };
            let ghost dl = gm.drift_values().len() as int;
            let ghost vl = gm.vol_values().len() as int;
            let ghost procs = gm.total() as int;
            proof {
                assert(dl >= 1 && vl >= 1);
                assert(procs == dl * vl && procs >= 1) by (nonlinear_arith)
                    requires
                        procs == dl * vl,
                        dl >= 1,
                        vl >= 1,
                ;
            }
            let mut out: Vec<SimulationConfig<Fixed>> = Vec::new();
            let ghost mut qa: int = 0;
            let ghost mut qb: int = 0;
            let ghost mut qc: int = 0;
            let ghost mut qd: int = 0;
            proof {
                assert(((0 * t0l + 0) * tnl + 0) * p + 0 == 0) by (nonlinear_arith);
                assert(ipl >= 1 && t0l >= 1 && tnl >= 1);
                assert(p == 0 ==> ipl * t0l * tnl * p == 0) by (nonlinear_arith);
            }
            let mut ti: usize = 0;
            while ti < tv.len()
                invariant
                    ti <= tv@.len(),
                    out@.len() == pair_index(ti as int, 0, procs),
                    ti as int == flat_index(qa, qb, qc, qd, t0l, tnl, p),
                    ti < tv@.len() ==> (0 <= qa < ipl && 0 <= qb < t0l && 0 <= qc < tnl && 0
                        <= qd < p),
                    ti == tv@.len() && tv@.len() > 0 ==> (qa == ipl && qb == 0 && qc == 0 && qd
                        == 0),
                    forall|x0: int, x1: int, x2: int, x3: int, x4: int|
                        0 <= x0 < ipl && 0 <= x1 < t0l && 0 <= x2 < tnl && 0 <= x3 < p && 0
                            <= x4 < procs && (lex4_lt(x0, x1, x2, x3, qa, qb, qc, qd))
                            ==> self.common_fields_match(
                            out@[#[trigger] pair_index(
                                flat_index(x0, x1, x2, x3, t0l, tnl, p),
                                x4,
                                procs,
                            )],
                            x0,
                            x1,
                            x2,
                            x3,
                        ),
                    forall|xt: int, xe: int, xf: int|
                        0 <= xt < ti && 0 <= xe < dl && 0 <= xf < vl
                            ==> self.gbm_fields_match(
                            out@[#[trigger] pair_index(xt, pair_index(xe, xf, vl), procs)],
                            xe,
                            xf,
                        ),
                decreases tv@.len() - ti,
            {
                let ghost mut pe: int = 0;
                let ghost mut pf: int = 0;
                proof {
                    assert(0 * vl + 0 == 0) by (nonlinear_arith);
                }
                let mut j: usize = 0;
                while j < pv.len()
                    invariant
                        j <= pv@.len(),
                        out@.len() == pair_index(ti as int, j as int, procs),
                        j as int == pair_index(pe, pf, vl),
                        j < pv@.len() ==> (0 <= pe < dl && 0 <= pf < vl),
                        j == pv@.len() ==> (pe == dl && pf == 0),
                        forall|x0: int, x1: int, x2: int, x3: int, x4: int|
                            0 <= x0 < ipl && 0 <= x1 < t0l && 0 <= x2 < tnl && 0 <= x3 < p && 0
                                <= x4 < procs && (lex4_lt(x0, x1, x2, x3, qa, qb, qc, qd) || (
                            x0 == qa && x1 == qb && x2 == qc && x3 == qd && x4 < j))
                                ==> self.common_fields_match(
                                out@[#[trigger] pair_index(
                                    flat_index(x0, x1, x2, x3, t0l, tnl, p),
                                    x4,
                                    procs,
                                )],
                                x0,
                                x1,
                                x2,
                                x3,
                            ),
                        forall|xt: int, xe: int, xf: int|
                            0 <= xt <= ti && 0 <= xe < dl && 0 <= xf < vl && (xt < ti || (xe
                                < pe || (xe == pe && xf < pf))) ==> self.gbm_fields_match(
                                out@[#[trigger] pair_index(xt, pair_index(xe, xf, vl), procs)],
                                xe,
                                xf,
                            ),
                    decreases pv@.len() - j,
                {
                    let mut dir = self.output_directory.clone();
                    dir.append("/gbm_drift_");
                    append_scalar_label(&mut dir, pv[j].drift.0);
                    dir.append("_vol_");
                    append_scalar_label(&mut dir, pv[j].volatility.0);
                    let mut file = self.output_file_name.clone();
                    file.append("_");
                    match &tv[ti].output_tag {
                        Some(tag) => file.append(tag.as_str()),
                        None => unreached(),
                    }
                    let telem = duplicate_trajectory(&tv[ti]);
                    let cfg = SimulationConfig::<Fixed> {
                        simulation: self.simulation,
                        max_parallel: self.max_parallel,
                        output_directory: dir,
                        output_file_name: file,
                        trajectory: telem,
                        gbm: Some(pv[j]),
                        ou: None,
                        block: self.block,
                    };
                    out.push(cfg);
                    proof {
                        assert(out@.last().output_directory@ =~= self.output_directory@
                            + gbm_dir_suffix(gm.drift_values()[pe], gm.vol_values()[pf]));
                        assert(out@.last().output_file_name@ =~= self.output_file_name@ + "_"@
                            + dec_digits(qd as nat));
                        assert forall|x0: int, x1: int, x2: int, x3: int, x4: int|
                            0 <= x0 < ipl && 0 <= x1 < t0l && 0 <= x2 < tnl && 0 <= x3 < p && 0
                                <= x4 < procs && (lex4_lt(x0, x1, x2, x3, qa, qb, qc, qd) || (
                        x0 == qa && x1 == qb && x2 == qc && x3 == qd && x4 < j + 1)) implies self.common_fields_match(
                            out@[#[trigger] pair_index(
                                flat_index(x0, x1, x2, x3, t0l, tnl, p),
                                x4,
                                procs,
                            )],
                            x0,
                            x1,
                            x2,
                            x3,
                        ) by {
                            if lex4_lt(x0, x1, x2, x3, qa, qb, qc, qd) {
                                lemma_flat_lex_mono(
                                    x0,
                                    x1,
                                    x2,
                                    x3,
                                    qa,
                                    qb,
                                    qc,
                                    qd,
                                    t0l,
                                    tnl,
                                    p,
                                );
                                lemma_pair_lex_mono(
                                    flat_index(x0, x1, x2, x3, t0l, tnl, p),
                                    x4,
                                    ti as int,
                                    j as int,
                                    procs,
                                );
                            } else if x0 == qa && x1 == qb && x2 == qc && x3 == qd && x4 < j {
                                lemma_pair_lex_mono(ti as int, x4, ti as int, j as int, procs);
                            }
                        }
                        assert forall|xt: int, xe: int, xf: int|
                            0 <= xt <= ti && 0 <= xe < dl && 0 <= xf < vl && (xt < ti || (xe
                                < pe || (xe == pe && xf < pf + 1))) implies self.gbm_fields_match(
                            out@[#[trigger] pair_index(xt, pair_index(xe, xf, vl), procs)],
                            xe,
                            xf,
                        ) by {
                            if xt < ti as int {
                                lemma_pair_index_bounds(xe, xf, dl, vl);
                                lemma_pair_lex_mono(
                                    xt,
                                    pair_index(xe, xf, vl),
                                    ti as int,
                                    j as int,
                                    procs,
                                );
                            } else if xe < pe || (xe == pe && xf < pf) {
                                lemma_pair_lex_mono(xe, xf, pe, pf, vl);
                                lemma_pair_lex_mono(
                                    xt,
                                    pair_index(xe, xf, vl),
                                    ti as int,
                                    j as int,
                                    procs,
                                );
                            }
                        }
                        pf = pf + 1;
                        if pf == vl {
                            assert(pe * vl + vl == (pe + 1) * vl) by (nonlinear_arith);
                            pf = 0;
                            pe = pe + 1;
                        }
                        if pe < dl {
                            lemma_pair_index_bounds(pe, pf, dl, vl);
                        }
                    }
                    j = j + 1;
                }
                proof {
                    assert((ti as int) * procs + procs == ((ti as int) + 1) * procs)
                        by (nonlinear_arith);
                    qd = qd + 1;
                    if qd == p {
                        let x = (qa * t0l + qb) * tnl + qc;
                        assert(x * p + p == (x + 1) * p) by (nonlinear_arith);
                        qd = 0;
                        qc = qc + 1;
                        if qc == tnl {
                            let y = qa * t0l + qb;
                            assert((y * tnl + tnl) * p == ((y + 1) * tnl) * p)
                                by (nonlinear_arith);
                            qc = 0;
                            qb = qb + 1;
                            if qb == t0l {
                                assert(((qa * t0l + t0l) * tnl) * p == (((qa + 1) * t0l) * tnl)
                                    * p) by (nonlinear_arith);
                                qb = 0;
                                qa = qa + 1;
                            }
                        }
                    }
                    if qa < ipl {
                        lemma_flat_index_bounds(qa, qb, qc, qd, ipl, t0l, tnl, p);
                    }
                }
                ti = ti + 1;
            }
            proof {
                assert(out@.len() == self.spec_total());
                assert forall|x0: int, x1: int, x2: int, x3: int|
                    0 <= x0 < ipl && 0 <= x1 < t0l && 0 <= x2 < tnl && 0 <= x3 < p
                        implies #[trigger] lex4_lt(x0, x1, x2, x3, qa, qb, qc, qd) by {
                    if tv@.len() == 0 {
                        lemma_flat_index_bounds(x0, x1, x2, x3, ipl, t0l, tnl, p);
                    }
                }
            }
            return Ok(out);
        }
        if let Some(om) = &self.ou {
            let pv = match om.generate() {
                Ok(v) => v,
                Err(e) => {
                    return Err(e);
                },
            };
            let ghost ml = om.mean_values().len() as int;
            let ghost sl = om.std_values().len() as int;
            let ghost tl = om.theta_values().len() as int;
            let ghost procs = om.total() as int;
            proof {
                assert(ml >= 1 && sl >= 1 && tl >= 1);
                assert(procs == ml * sl * tl && procs >= 1) by (nonlinear_arith)
                    requires
                        procs == ml * sl * tl,
                        ml >= 1,
                        sl >= 1,
                        tl >= 1,
                ;
            }
            let mut out: Vec<SimulationConfig<Fixed>> = Vec::new();
            let ghost mut qa: int = 0;
            let ghost mut qb: int = 0;
            let ghost mut qc: int = 0;
            let ghost mut qd: int = 0;
            proof {
                assert(((0 * t0l + 0) * tnl + 0) * p + 0 == 0) by (nonlinear_arith);
                assert(ipl >= 1 && t0l >= 1 && tnl >= 1);
                assert(p == 0 ==> ipl * t0l * tnl * p == 0) by (nonlinear_arith);
            }
            let mut ti: usize = 0;
            while ti < tv.len()
                invariant
                    ti <= tv@.len(),
                    out@.len() == pair_index(ti as int, 0, procs),
                    ti as int == flat_index(qa, qb, qc, qd, t0l, tnl, p),
                    ti < tv@.len() ==> (0 <= qa < ipl && 0 <= qb < t0l && 0 <= qc < tnl && 0
                        <= qd < p),
                    ti == tv@.len() && tv@.len() > 0 ==> (qa == ipl && qb == 0 && qc == 0 && qd
                        == 0),
                    forall|x0: int, x1: int, x2: int, x3: int, x4: int|
                        0 <= x0 < ipl && 0 <= x1 < t0l && 0 <= x2 < tnl && 0 <= x3 < p && 0
                            <= x4 < procs && (lex4_lt(x0, x1, x2, x3, qa, qb, qc, qd))
                            ==> self.common_fields_match(
                            out@[#[trigger] pair_index(
                                flat_index(x0, x1, x2, x3, t0l, tnl, p),
                                x4,
                                procs,
                            )],
                            x0,
                            x1,
                            x2,
                            x3,
                        ),
                    forall|xt: int, xe: int, xf: int, xh: int|
                        0 <= xt < ti && 0 <= xe < ml && 0 <= xf < sl && 0 <= xh < tl
                            ==> self.ou_fields_match(
                            out@[#[trigger] pair_index(
                                xt,
                                triple_index(xe, xf, xh, sl, tl),
                                procs,
                            )],
                            xe,
                            xf,
                            xh,
                        ),
                decreases tv@.len() - ti,
            {
                let ghost mut pe: int = 0;
                let ghost mut pf: int = 0;
                let ghost mut ph: int = 0;
                proof {
                    assert((0 * sl + 0) * tl + 0 == 0) by (nonlinear_arith);
                }
                let mut j: usize = 0;
                while j < pv.len()
                    invariant
                        j <= pv@.len(),
                        out@.len() == pair_index(ti as int, j as int, procs),
                        j as int == triple_index(pe, pf, ph, sl, tl),
                        j < pv@.len() ==> (0 <= pe < ml && 0 <= pf < sl && 0 <= ph < tl),
                        j == pv@.len() ==> (pe == ml && pf == 0 && ph == 0),
                        forall|x0: int, x1: int, x2: int, x3: int, x4: int|
                            0 <= x0 < ipl && 0 <= x1 < t0l && 0 <= x2 < tnl && 0 <= x3 < p && 0
                                <= x4 < procs && (lex4_lt(x0, x1, x2, x3, qa, qb, qc, qd) || (
                            x0 == qa && x1 == qb && x2 == qc && x3 == qd && x4 < j))
                                ==> self.common_fields_match(
                                out@[#[trigger] pair_index(
                                    flat_index(x0, x1, x2, x3, t0l, tnl, p),
                                    x4,
                                    procs,
                                )],
                                x0,
                                x1,
                                x2,
                                x3,
                            ),
                        forall|xt: int, xe: int, xf: int, xh: int|
                            0 <= xt <= ti && 0 <= xe < ml && 0 <= xf < sl && 0 <= xh < tl && (
                            xt < ti || (xe < pe || (xe == pe && xf < pf) || (xe == pe && xf
                                == pf && xh < ph))) ==> self.ou_fields_match(
                                out@[#[trigger] pair_index(
                                    xt,
                                    triple_index(xe, xf, xh, sl, tl),
                                    procs,
                                )],
                                xe,
                                xf,
                                xh,
                            ),
                    decreases pv@.len() - j,
                {
                    let mut dir = self.output_directory.clone();
                    dir.append("/ou_mean_");
                    append_scalar_label(&mut dir, pv[j].mean.0);
                    dir.append("_std_");
                    append_scalar_label(&mut dir, pv[j].std_dev.0);
                    dir.append("_theta_");
                    append_scalar_label(&mut dir, pv[j].theta.0);
                    let mut file = self.output_file_name.clone();
                    file.append("_");
                    match &tv[ti].output_tag {
                        Some(tag) => file.append(tag.as_str()),
                        None => unreached(),
                    }
                    let telem = duplicate_trajectory(&tv[ti]);
                    let cfg = SimulationConfig::<Fixed> {
                        simulation: self.simulation,
                        max_parallel: self.max_parallel,
                        output_directory: dir,
                        output_file_name: file,
                        trajectory: telem,
                        gbm: None,
                        ou: Some(pv[j]),
                        block: self.block,
                    };
                    out.push(cfg);
                    proof {
                        assert(out@.last().output_directory@ =~= self.output_directory@
                            + ou_dir_suffix(
                            om.mean_values()[pe],
                            om.std_values()[pf],
                            om.theta_values()[ph],
                        ));
                        assert(out@.last().output_file_name@ =~= self.output_file_name@ + "_"@
                            + dec_digits(qd as nat));
                        assert forall|x0: int, x1: int, x2: int, x3: int, x4: int|
                            0 <= x0 < ipl && 0 <= x1 < t0l && 0 <= x2 < tnl && 0 <= x3 < p && 0
                                <= x4 < procs && (lex4_lt(x0, x1, x2, x3, qa, qb, qc, qd) || (
                        x0 == qa && x1 == qb && x2 == qc && x3 == qd && x4 < j + 1)) implies self.common_fields_match(
                            out@[#[trigger] pair_index(
                                flat_index(x0, x1, x2, x3, t0l, tnl, p),
                                x4,
                                procs,
                            )],
                            x0,
                            x1,
                            x2,
                            x3,
                        ) by {
                            if lex4_lt(x0, x1, x2, x3, qa, qb, qc, qd) {
                                lemma_flat_lex_mono(
                                    x0,
                                    x1,
                                    x2,
                                    x3,
                                    qa,
                                    qb,
                                    qc,
                                    qd,
                                    t0l,
                                    tnl,
                                    p,
                                );
                                lemma_pair_lex_mono(
                                    flat_index(x0, x1, x2, x3, t0l, tnl, p),
                                    x4,
                                    ti as int,
                                    j as int,
                                    procs,
                                );
                            } else if x0 == qa && x1 == qb && x2 == qc && x3 == qd && x4 < j {
                                lemma_pair_lex_mono(ti as int, x4, ti as int, j as int, procs);
                            }
                        }
                        assert forall|xt: int, xe: int, xf: int, xh: int|
                            0 <= xt <= ti && 0 <= xe < ml && 0 <= xf < sl && 0 <= xh < tl && (
                        xt < ti || (xe < pe || (xe == pe && xf < pf) || (xe == pe && xf == pf
                            && xh < ph + 1))) implies self.ou_fields_match(
                            out@[#[trigger] pair_index(
                                xt,
                                triple_index(xe, xf, xh, sl, tl),
                                procs,
                            )],
                            xe,
                            xf,
                            xh,
                        ) by {
                            if xt < ti as int {
                                lemma_triple_index_bounds(xe, xf, xh, ml, sl, tl);
                                lemma_pair_lex_mono(
                                    xt,
                                    triple_index(xe, xf, xh, sl, tl),
                                    ti as int,
                                    j as int,
                                    procs,
                                );
                            } else if xe < pe || (xe == pe && xf < pf) || (xe == pe && xf == pf
                                && xh < ph) {
                                lemma_triple_lex_mono(xe, xf, xh, pe, pf, ph, sl, tl);
                                lemma_pair_lex_mono(
                                    xt,
                                    triple_index(xe, xf, xh, sl, tl),
                                    ti as int,
                                    j as int,
                                    procs,
                                );
                            }
                        }
                        ph = ph + 1;
                        if ph == tl {
                            let y = pe * sl + pf;
                            assert(y * tl + tl == (y + 1) * tl) by (nonlinear_arith);
                            ph = 0;
                            pf = pf + 1;
                            if pf == sl {
                                assert((pe * sl + sl) * tl == ((pe + 1) * sl) * tl)
                                    by (nonlinear_arith);
                                pf = 0;
                                pe = pe + 1;
                            }
                        }
                        if pe < ml {
                            lemma_triple_index_bounds(pe, pf, ph, ml, sl, tl);
                        }
                    }
                    j = j + 1;
                }
                proof {
                    assert((ti as int) * procs + procs == ((ti as int) + 1) * procs)
                        by (nonlinear_arith);
                    qd = qd + 1;
                    if qd == p {
                        let x = (qa * t0l + qb) * tnl + qc;
                        assert(x * p + p == (x + 1) * p) by (nonlinear_arith);
                        qd = 0;
                        qc = qc + 1;
                        if qc == tnl {
                            let y = qa * t0l + qb;
                            assert((y * tnl + tnl) * p == ((y + 1) * tnl) * p)
                                by (nonlinear_arith);
                            qc = 0;
                            qb = qb + 1;
                            if qb == t0l {
                                assert(((qa * t0l + t0l) * tnl) * p == (((qa + 1) * t0l) * tnl)
                                    * p) by (nonlinear_arith);
                                qb = 0;
                                qa = qa + 1;
                            }
                        }
                    }
                    if qa < ipl {
                        lemma_flat_index_bounds(qa, qb, qc, qd, ipl, t0l, tnl, p);
                    }
                }
                ti = ti + 1;
            }
            proof {
                assert(out@.len() == self.spec_total());
                assert forall|x0: int, x1: int, x2: int, x3: int|
                    0 <= x0 < ipl && 0 <= x1 < t0l && 0 <= x2 < tnl && 0 <= x3 < p
                        implies #[trigger] lex4_lt(x0, x1, x2, x3, qa, qb, qc, qd) by {
                    if tv@.len() == 0 {
                        lemma_flat_index_bounds(x0, x1, x2, x3, ipl, t0l, tnl, p);
                    }
                }
            }
            return Ok(out);
        }
        Err(ConfigError::EmptyProcess)
    }
}

} // verus!
