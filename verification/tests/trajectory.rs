use simsweep::parameters::{
    Fixed, GBMParameters, LinspaceParameters, Meta, OUParameters, Parameterized, ScalarValue,
    TrajectoryParameters,
};
use simsweep::parameters::ConfigError;
use simsweep::seed::derive_seeds;

fn meta_range(start: i64, end: i64, steps: usize) -> Meta {
    Meta(LinspaceParameters {
        start: Some(start),
        end: Some(end),
        steps: Some(steps),
        fixed: None,
    })
}

fn meta_fixed(v: i64) -> Meta {
    Meta(LinspaceParameters { start: None, end: None, steps: None, fixed: Some(v) })
}

fn small_trajectory(seed: u64) -> TrajectoryParameters<Meta> {
    TrajectoryParameters {
        process: String::from("gbm"),
        initial_price: meta_fixed(100),
        t_0: meta_fixed(0),
        t_n: meta_range(0, 6, 2),
        num_steps: 5,
        num_paths: 2,
        seed,
        output_tag: None,
    }
}

#[test]
fn trajectory_expands_nested_product_in_order() {
    let v = small_trajectory(11).generate().unwrap();
    // 1 initial price * 1 start time * 2 end times * 2 paths
    assert_eq!(v.len(), 4);
    let tn_values = [ScalarValue { num: 0, den: 1 }, ScalarValue { num: 6, den: 1 }];
    // order: end time outer, path index inner
    for (i, t) in v.iter().enumerate() {
        assert_eq!(t.process, "gbm");
        assert_eq!(t.initial_price, Fixed(ScalarValue { num: 100, den: 1 }));
        assert_eq!(t.t_0, Fixed(ScalarValue { num: 0, den: 1 }));
        assert_eq!(t.t_n, Fixed(tn_values[i / 2]));
        assert_eq!(t.num_steps, 5);
        assert_eq!(t.num_paths, 1);
        assert_eq!(t.output_tag, Some((i % 2).to_string()));
    }
}

#[test]
fn trajectory_seeds_follow_the_derived_chain() {
    let v = small_trajectory(42).generate().unwrap();
    let seeds = derive_seeds(42, v.len());
    for (i, t) in v.iter().enumerate() {
        assert_eq!(t.seed, seeds[i]);
    }
    assert_eq!(seeds[0], 42);
}

#[test]
fn seed_chain_rederivation_reproduces_the_sequence() {
    let a = derive_seeds(7, 5);
    let b = derive_seeds(7, 5);
    assert_eq!(a, b);
    let prefix = derive_seeds(7, 3);
    assert_eq!(&a[..3], &prefix[..]);
}

#[test]
fn seed_chain_yields_distinct_seeds_for_small_counts() {
    let seeds = derive_seeds(1, 8);
    for i in 0..seeds.len() {
        for j in (i + 1)..seeds.len() {
            assert_ne!(seeds[i], seeds[j]);
        }
    }
}

#[test]
fn trajectory_expansion_is_deterministic() {
    let t = small_trajectory(99);
    assert_eq!(t.generate(), t.generate());
}

#[test]
fn trajectory_reports_first_invalid_dimension() {
    let mut t = small_trajectory(1);
    t.initial_price = Meta(LinspaceParameters {
        start: Some(0),
        end: Some(1),
        steps: Some(2),
        fixed: Some(3),
    });
    t.t_0 = Meta(LinspaceParameters { start: None, end: None, steps: None, fixed: None });
    assert_eq!(t.generate(), Err(ConfigError::ConflictingParameters));
}

#[test]
fn gbm_expands_drift_outermost() {
    let g = GBMParameters { drift: meta_range(1, 2, 2), volatility: meta_range(10, 20, 2) };
    let v = g.generate().unwrap();
    let pairs: Vec<(i128, i128)> = v.iter().map(|e| (e.drift.0.num, e.volatility.0.num)).collect();
    assert_eq!(pairs, vec![(1, 10), (1, 20), (2, 10), (2, 20)]);
}

#[test]
fn ou_expands_mean_std_theta_in_order() {
    let o = OUParameters {
        mean: meta_fixed(5),
        std_dev: meta_range(1, 2, 2),
        theta: meta_range(7, 9, 2),
    };
    let v = o.generate().unwrap();
    let triples: Vec<(i128, i128, i128)> =
        v.iter().map(|e| (e.mean.0.num, e.std_dev.0.num, e.theta.0.num)).collect();
    assert_eq!(triples, vec![(5, 1, 7), (5, 1, 9), (5, 2, 7), (5, 2, 9)]);
}

#[test]
fn zero_paths_expand_to_no_trajectories() {
    let mut t = small_trajectory(3);
    t.num_paths = 0;
    assert_eq!(t.generate(), Ok(vec![]));
}
