use simsweep::parameters::{
    BlockParameters, ConfigError, GBMParameters, LinspaceParameters, Meta, OUParameters,
    Parameterized, ScalarValue,
};
use simsweep::parameters::TrajectoryParameters;
use simsweep::settings::SimulationConfig;
use simsweep::simulations::SimulationType;

fn meta_range(start: i64, end: i64, steps: usize) -> Meta {
    Meta(LinspaceParameters {
        start: Some(start),
        end: Some(end),
        steps: Some(steps),
        fixed: None,
    })
}

fn meta_fixed(v: i64) -> Meta {
    Meta(LinspaceParameters { start: None, end: None, steps: None, fixed: Some(v) })
}

fn base_config() -> SimulationConfig<Meta> {
    SimulationConfig {
        simulation: SimulationType::SimulatedPricePath,
        max_parallel: Some(4),
        output_directory: String::from("out"),
        output_file_name: String::from("run"),
        trajectory: TrajectoryParameters {
            process: String::from("gbm"),
            initial_price: meta_range(0, 10, 2),
            t_0: meta_fixed(0),
            t_n: meta_fixed(1),
            num_steps: 3,
            num_paths: 1,
            seed: 5,
            output_tag: None,
        },
        gbm: Some(GBMParameters { drift: meta_fixed(3), volatility: meta_fixed(4) }),
        ou: None,
        block: BlockParameters { timestep_size: 12 },
    }
}

#[test]
fn gbm_sweep_emits_one_run_per_combination() {
    let v = base_config().generate().unwrap();
    assert_eq!(v.len(), 2);
    for cfg in &v {
        assert_eq!(cfg.simulation, SimulationType::SimulatedPricePath);
        assert_eq!(cfg.max_parallel, Some(4));
        assert_eq!(cfg.block, BlockParameters { timestep_size: 12 });
        assert_eq!(cfg.output_directory, "out/gbm_drift_3_1_vol_4_1");
        assert_eq!(cfg.output_file_name, "run_0");
        assert_eq!(
            cfg.gbm,
            Some(GBMParameters {
                drift: simsweep::parameters::Fixed(ScalarValue { num: 3, den: 1 }),
                volatility: simsweep::parameters::Fixed(ScalarValue { num: 4, den: 1 }),
            })
        );
        assert_eq!(cfg.ou, None);
        assert_eq!(cfg.trajectory.num_paths, 1);
    }
    assert_eq!(v[0].trajectory.initial_price.0, ScalarValue { num: 0, den: 1 });
    assert_eq!(v[1].trajectory.initial_price.0, ScalarValue { num: 10, den: 1 });
}

#[test]
fn product_size_spans_all_six_dimensions() {
    let mut m = base_config();
    m.trajectory.initial_price = meta_range(0, 10, 2);
    m.trajectory.t_0 = meta_range(0, 1, 2);
    m.trajectory.t_n = meta_fixed(1);
    m.trajectory.num_paths = 2;
    m.gbm = Some(GBMParameters { drift: meta_range(1, 3, 3), volatility: meta_fixed(4) });
    let v = m.generate().unwrap();
    // 2 * 2 * 1 * 2 * 3 * 1
    assert_eq!(v.len(), 24);
}

#[test]
fn expansion_is_deterministic_including_seeds() {
    let m = base_config();
    let a = m.generate().unwrap();
    let b = m.generate().unwrap();
    assert_eq!(a, b);
    for (x, y) in a.iter().zip(b.iter()) {
        assert_eq!(x.trajectory.seed, y.trajectory.seed);
    }
}

#[test]
fn negative_values_are_rendered_with_their_sign() {
    let mut m = base_config();
    m.gbm = Some(GBMParameters { drift: meta_fixed(-5), volatility: meta_fixed(4) });
    let v = m.generate().unwrap();
    assert_eq!(v[0].output_directory, "out/gbm_drift_-5_1_vol_4_1");
}

#[test]
fn ranged_process_values_carry_their_denominator() {
    let mut m = base_config();
    m.gbm = Some(GBMParameters { drift: meta_range(0, 1, 3), volatility: meta_fixed(4) });
    let v = m.generate().unwrap();
    assert_eq!(v.len(), 6);
    // drift points are 0/2, 1/2, 2/2; the directory encodes numerator and
    // denominator of each
    assert_eq!(v[0].output_directory, "out/gbm_drift_0_2_vol_4_1");
    assert_eq!(v[1].output_directory, "out/gbm_drift_1_2_vol_4_1");
    assert_eq!(v[2].output_directory, "out/gbm_drift_2_2_vol_4_1");
}

#[test]
fn ou_sweep_names_its_directory_after_its_parameters() {
    let mut m = base_config();
    m.gbm = None;
    m.ou = Some(OUParameters {
        mean: meta_fixed(1),
        std_dev: meta_fixed(2),
        theta: meta_fixed(3),
    });
    let v = m.generate().unwrap();
    assert_eq!(v.len(), 2);
    assert_eq!(v[0].output_directory, "out/ou_mean_1_1_std_2_1_theta_3_1");
    assert_eq!(v[0].gbm, None);
    assert!(v[0].ou.is_some());
}

#[test]
fn file_names_distinguish_paths_within_a_sweep() {
    let mut m = base_config();
    m.trajectory.initial_price = meta_fixed(100);
    m.trajectory.num_paths = 3;
    let v = m.generate().unwrap();
    let names: Vec<&str> = v.iter().map(|c| c.output_file_name.as_str()).collect();
    assert_eq!(names, vec!["run_0", "run_1", "run_2"]);
}

#[test]
fn sweep_without_process_parameters_is_rejected() {
    let mut m = base_config();
    m.gbm = None;
    m.ou = None;
    assert_eq!(m.generate(), Err(ConfigError::EmptyProcess));
}

#[test]
fn sweep_with_two_process_parameter_sets_is_rejected() {
    let mut m = base_config();
    m.ou = Some(OUParameters {
        mean: meta_fixed(1),
        std_dev: meta_fixed(2),
        theta: meta_fixed(3),
    });
    assert_eq!(m.generate(), Err(ConfigError::ConflictingProcesses));
}

#[test]
fn conflicting_scalar_rejects_the_whole_sweep_before_any_run() {
    let mut m = base_config();
    m.trajectory.t_n = Meta(LinspaceParameters {
        start: Some(0),
        end: Some(1),
        steps: Some(2),
        fixed: Some(2),
    });
    assert_eq!(m.generate(), Err(ConfigError::ConflictingParameters));
}

#[test]
fn invalid_process_dimension_is_reported() {
    let mut m = base_config();
    m.gbm = Some(GBMParameters {
        drift: Meta(LinspaceParameters { start: None, end: None, steps: None, fixed: None }),
        volatility: meta_fixed(4),
    });
    assert_eq!(m.generate(), Err(ConfigError::IncompleteParameters));
}
