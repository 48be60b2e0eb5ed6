use vrust::seirs::{totals, ConfigError, SeirsConfig, SeirsModel, SeirsState};
use vrust::Fix;

fn fx(i: i64) -> Fix {
    Fix::from_int(i)
}

fn ratio(n: i64, d: i64) -> Fix {
    Fix::from_ratio(n, d)
}

fn approx(x: Fix) -> f64 {
    x.raw as f64 / 4294967296.0
}

fn base_config(n_age: usize, k_e: usize, k_i: usize) -> SeirsConfig {
    let mut contact: Vec<Vec<Fix>> = Vec::new();
    for i in 0..n_age {
        let mut row: Vec<Fix> = Vec::new();
        for j in 0..n_age {
            row.push(if i == j { fx(6) } else { fx(1) });
        }
        contact.push(row);
    }
    let mut pop: Vec<Fix> = Vec::new();
    for i in 0..n_age {
        pop.push(fx(1000 - 100 * (i as i64)));
    }
    SeirsConfig {
        n_age,
        k_e,
        k_i,
        sigma: ratio(1, 14),
        gamma: ratio(1, 180),
        omega: fx(0),
        mu: fx(0),
        mu_i_extra: fx(0),
        beta0: ratio(6, 100),
        beta_schedule: vec![(fx(0), fx(1))],
        contact,
        pop,
        vacc_rate: None,
        aging_rate_per_day: None,
        fertility_per_day: None,
        female_fraction: ratio(1, 2),
    }
}

fn total_mass(cfg: &SeirsConfig, y: &Vec<Fix>) -> f64 {
    let (s, e, i, r) = totals(cfg, y);
    approx(s.qadd(e).qadd(i).qadd(r))
}

#[test]
fn seeding_goes_to_first_infectious_stage() {
    let cfg = base_config(2, 2, 3);
    // Second group's request exceeds its population and is clamped.
    let seeding = vec![fx(10), fx(2000)];
    let st = SeirsState::init_from_seeding(&cfg, &seeding);
    let block = 2 + 2 + 3;
    assert_eq!(st.y.len(), 2 * block);
    // Group 0: S = 990, I1 = 10, everything else zero.
    assert_eq!(st.y[0].raw, fx(990).raw);
    assert_eq!(st.y[1].raw, 0);
    assert_eq!(st.y[2].raw, 0);
    assert_eq!(st.y[3].raw, fx(10).raw);
    assert_eq!(st.y[4].raw, 0);
    assert_eq!(st.y[5].raw, 0);
    assert_eq!(st.y[6].raw, 0);
    // Group 1: the whole population of 900 is seeded.
    assert_eq!(st.y[block].raw, 0);
    assert_eq!(st.y[block + 3].raw, fx(900).raw);
    assert_eq!(st.y[block + 6].raw, 0);
}

#[test]
fn conservation_without_mortality_or_demography() {
    let mut cfg = base_config(3, 2, 2);
    // Waning and vaccination move mass around but never out.
    cfg.omega = ratio(1, 50);
    cfg.vacc_rate = Some(vec![ratio(1, 200), ratio(1, 300), fx(0)]);
    let model = SeirsModel::new(cfg).expect("config must validate");
    let seeding = vec![fx(5), fx(5), fx(5)];
    let mut st = SeirsState::init_from_seeding(&model.cfg, &seeding);
    let initial = total_mass(&model.cfg, &st.y);
    let traj = model.simulate(&mut st, fx(0), fx(30), ratio(1, 2));
    assert_eq!(traj.len(), 61);
    for (_, y) in &traj {
        let m = total_mass(&model.cfg, y);
        assert!(
            ((m - initial) / initial).abs() < 1e-6,
            "total mass drifted: {} vs {}",
            m,
            initial
        );
    }
}

#[test]
fn mortality_removes_mass() {
    let mut cfg = base_config(2, 1, 1);
    cfg.mu = ratio(1, 1000);
    let model = SeirsModel::new(cfg).expect("config must validate");
    let seeding = vec![fx(5), fx(5)];
    let mut st = SeirsState::init_from_seeding(&model.cfg, &seeding);
    let initial = total_mass(&model.cfg, &st.y);
    let traj = model.simulate(&mut st, fx(0), fx(30), ratio(1, 2));
    let last = total_mass(&model.cfg, &traj.last().unwrap().1);
    assert!(last < initial * 0.99);
}

#[test]
fn mean_exposed_duration_invariant_in_stage_count() {
    // A pure decay of the Exposed chain: no transmission, so the only flow
    // out of E is the staged progression. The mean residence time, estimated
    // as the time integral of the exposed mass over the initial mass, must
    // stay 1/sigma = 3 days whether the chain has one stage or four.
    let mut means: Vec<f64> = Vec::new();
    for &k_e in &[1usize, 4usize] {
        let mut cfg = base_config(1, k_e, 1);
        cfg.sigma = ratio(1, 3);
        cfg.beta0 = fx(0);
        let model = SeirsModel::new(cfg).expect("config must validate");
        let mut st = SeirsState::new_zero(&model.cfg);
        // Put 100 people in the first exposed stage by hand.
        st.y[1] = fx(100);
        let dt = ratio(1, 100);
        let traj = model.simulate(&mut st, fx(0), fx(60), dt);
        let mut integral = 0.0f64;
        for (_, y) in &traj {
            let (_, e, _, _) = totals(&model.cfg, y);
            integral += approx(e) * 0.01;
        }
        means.push(integral / 100.0);
    }
    assert!((means[0] - 3.0).abs() < 0.05, "k_e=1 mean {}", means[0]);
    assert!((means[1] - 3.0).abs() < 0.05, "k_e=4 mean {}", means[1]);
    assert!((means[0] - means[1]).abs() < 0.05);
}

#[test]
fn optimized_and_allocating_runs_are_bit_identical() {
    let mut cfg = base_config(4, 3, 2);
    cfg.omega = ratio(1, 100);
    let mut model = SeirsModel::new(cfg).expect("config must validate");
    let seeding = vec![fx(3), fx(4), fx(5), fx(6)];
    let mut st_a = SeirsState::init_from_seeding(&model.cfg, &seeding);
    let mut st_b = SeirsState::init_from_seeding(&model.cfg, &seeding);
    let t_end = fx(20);
    let dt = ratio(1, 4);
    let traj_a = model.simulate(&mut st_a, fx(0), t_end, dt);
    let traj_b = model.simulate_optimized(&mut st_b, fx(0), t_end, dt);
    assert_eq!(traj_a.len(), traj_b.len());
    for (pa, pb) in traj_a.iter().zip(traj_b.iter()) {
        assert_eq!(pa.0.raw, pb.0.raw);
        assert_eq!(pa.1.len(), pb.1.len());
        for (va, vb) in pa.1.iter().zip(pb.1.iter()) {
            assert_eq!(va.raw, vb.raw);
        }
    }
}

#[test]
fn rk4_step_forms_agree() {
    let cfg = base_config(2, 1, 1);
    let seeding = vec![fx(10), fx(10)];
    let st = SeirsState::init_from_seeding(&cfg, &seeding);
    let mut y_a = st.y.clone();
    let mut y_b = st.y.clone();
    let mut ws = vrust::Rk4Workspace::new(0);
    let mut sc = vrust::ode::OdeRhs::new_scratch(&cfg);
    let dt = ratio(1, 4);
    vrust::rk4_step(&cfg, &mut y_a, fx(0), dt);
    vrust::rk4_step_ws(&cfg, &mut y_b, fx(0), dt, &mut ws, &mut sc);
    for (va, vb) in y_a.iter().zip(y_b.iter()) {
        assert_eq!(va.raw, vb.raw);
    }
}

#[test]
fn infectious_mass_grows_before_peaking() {
    // R0 well above one, constant transmission, small seed: the infectious
    // total must strictly increase over an initial window.
    let mut cfg = base_config(2, 1, 1);
    cfg.sigma = ratio(1, 3);
    cfg.gamma = ratio(1, 5);
    cfg.pop = vec![fx(100000), fx(100000)];
    cfg.beta0 = vrust::beta0_from_r0(&cfg.contact, cfg.gamma, ratio(5, 2));
    let model = SeirsModel::new(cfg).expect("config must validate");
    let seeding = vec![fx(1), fx(1)];
    let mut st = SeirsState::init_from_seeding(&model.cfg, &seeding);
    let traj = model.simulate(&mut st, fx(0), fx(120), ratio(1, 2));
    let series: Vec<f64> = traj
        .iter()
        .map(|(_, y)| {
            let (_, _, i, _) = totals(&model.cfg, y);
            approx(i)
        })
        .collect();
    let mut peak = 0usize;
    for k in 0..series.len() {
        if series[k] > series[peak] {
            peak = k;
        }
    }
    // The epidemic takes off: the peak dwarfs the seed of 2 and lies inside
    // the simulated span, and the infectious mass grows strictly through the
    // window leading up to it.
    assert!(series[peak] > 20.0 * series[0]);
    assert!(peak > 40 && peak + 1 < series.len());
    for k in (peak - 40)..peak {
        assert!(
            series[k] < series[k + 1],
            "infectious mass failed to grow at step {}: {} vs {}",
            k,
            series[k],
            series[k + 1]
        );
    }
}

#[test]
fn concrete_two_group_scenario() {
    let mut cfg = base_config(2, 1, 1);
    cfg.sigma = ratio(1, 3);
    cfg.gamma = ratio(1, 5);
    cfg.pop = vec![fx(5000000), fx(4000000)];
    cfg.contact = vec![vec![fx(8), fx(2)], vec![fx(2), fx(6)]];
    let beta0 = vrust::beta0_from_r0(&cfg.contact, cfg.gamma, ratio(5, 2));
    assert!(beta0.raw > 0);
    cfg.beta0 = beta0;
    let model = SeirsModel::new(cfg).expect("config must validate");
    let seeding = vec![fx(10), fx(10)];
    let mut st = SeirsState::init_from_seeding(&model.cfg, &seeding);
    let traj = model.simulate(&mut st, fx(0), fx(360), ratio(1, 4));
    assert_eq!(traj.len(), 1441);
    let (s, e, i, r) = totals(&model.cfg, &traj[0].1);
    assert_eq!(i.raw, fx(20).raw);
    assert_eq!(e.raw, 0);
    assert_eq!(r.raw, 0);
    assert_eq!(s.qadd(e).qadd(i).qadd(r).raw, fx(9000000).raw);
}

#[test]
fn snapshots_are_independent_copies() {
    let cfg = base_config(2, 1, 1);
    let model = SeirsModel::new(cfg).expect("config must validate");
    let seeding = vec![fx(10), fx(10)];
    let mut st = SeirsState::init_from_seeding(&model.cfg, &seeding);
    let traj = model.simulate(&mut st, fx(0), fx(5), fx(1));
    let first_before = traj[0].1[0].raw;
    st.y[0] = fx(-777);
    assert_eq!(traj[0].1[0].raw, first_before);
}

#[test]
fn aging_moves_mass_to_older_bins_and_conserves_it() {
    let mut cfg = base_config(3, 1, 1);
    cfg.beta0 = fx(0);
    cfg.aging_rate_per_day = Some(vec![ratio(1, 10), ratio(1, 10), fx(0)]);
    cfg.fertility_per_day = None;
    let model = SeirsModel::new(cfg).expect("config must validate");
    let seeding = vec![fx(0), fx(0), fx(0)];
    let mut st = SeirsState::init_from_seeding(&model.cfg, &seeding);
    let initial = total_mass(&model.cfg, &st.y);
    let s0_before = approx(st.y[0]);
    let traj = model.simulate(&mut st, fx(0), fx(10), ratio(1, 4));
    let last = &traj.last().unwrap().1;
    let s0_after = approx(last[0]);
    // Mass leaves the youngest bin for the older ones but stays in the
    // system, because the oldest bin has no outflow.
    assert!(s0_after < s0_before * 0.5);
    let m = total_mass(&model.cfg, last);
    assert!(((m - initial) / initial).abs() < 1e-6);
}

#[test]
fn births_flow_into_youngest_susceptibles() {
    let mut cfg = base_config(2, 1, 1);
    cfg.beta0 = fx(0);
    cfg.fertility_per_day = Some(vec![fx(0), ratio(1, 100)]);
    cfg.female_fraction = ratio(1, 2);
    let model = SeirsModel::new(cfg).expect("config must validate");
    let seeding = vec![fx(0), fx(0)];
    let mut st = SeirsState::init_from_seeding(&model.cfg, &seeding);
    let s0_before = approx(st.y[0]);
    let initial = total_mass(&model.cfg, &st.y);
    let traj = model.simulate(&mut st, fx(0), fx(10), ratio(1, 4));
    let last = &traj.last().unwrap().1;
    assert!(approx(last[0]) > s0_before);
    assert!(total_mass(&model.cfg, last) > initial);
}

#[test]
fn validation_reports_each_violation() {
    let good = base_config(2, 1, 1);
    assert!(good.check().is_ok());

    let mut c = base_config(2, 1, 1);
    c.contact.pop();
    assert_eq!(c.check(), Err(ConfigError::ContactRows));

    let mut c = base_config(2, 1, 1);
    c.contact[1].pop();
    assert_eq!(c.check(), Err(ConfigError::ContactNotSquare));

    let mut c = base_config(2, 1, 1);
    c.pop.push(fx(1));
    assert_eq!(c.check(), Err(ConfigError::PopLen));

    let mut c = base_config(2, 1, 1);
    c.vacc_rate = Some(vec![fx(0)]);
    assert_eq!(c.check(), Err(ConfigError::VaccLen));

    let mut c = base_config(2, 1, 1);
    c.aging_rate_per_day = Some(vec![fx(0), fx(0), fx(0)]);
    assert_eq!(c.check(), Err(ConfigError::AgingLen));

    let mut c = base_config(2, 1, 1);
    c.fertility_per_day = Some(vec![]);
    assert_eq!(c.check(), Err(ConfigError::FertLen));

    let mut c = base_config(2, 1, 1);
    c.k_e = 0;
    assert_eq!(c.check(), Err(ConfigError::StageCounts));
    assert!(SeirsModel::new(c).is_err());

    let mut c = base_config(2, 1, 1);
    c.mu = fx(-1);
    assert_eq!(c.check(), Err(ConfigError::NegativeMortality));
}

#[test]
fn beta_schedule_steps_apply_in_order() {
    let mut cfg = base_config(1, 1, 1);
    cfg.beta0 = fx(2);
    cfg.beta_schedule = vec![(fx(0), fx(1)), (fx(10), ratio(1, 2)), (fx(20), ratio(1, 4))];
    assert_eq!(cfg.beta_at(fx(-1)).raw, fx(2).raw);
    assert_eq!(cfg.beta_at(fx(0)).raw, fx(2).raw);
    assert_eq!(cfg.beta_at(fx(5)).raw, fx(2).raw);
    assert_eq!(cfg.beta_at(fx(10)).raw, fx(1).raw);
    assert_eq!(cfg.beta_at(fx(19)).raw, fx(1).raw);
    assert_eq!(cfg.beta_at(fx(25)).raw, ratio(1, 2).raw);

    cfg.beta_schedule = vec![];
    assert_eq!(cfg.beta_at(fx(100)).raw, fx(2).raw);
}

#[test]
fn deriv_forms_agree_and_conserve() {
    let mut cfg = base_config(3, 2, 2);
    cfg.omega = ratio(1, 100);
    let mut model = SeirsModel::new(cfg).expect("config must validate");
    let seeding = vec![fx(7), fx(8), fx(9)];
    let st = SeirsState::init_from_seeding(&model.cfg, &seeding);
    let n = st.y.len();
    let mut dy_a = vec![Fix::from_int(0); n];
    let mut dy_b = vec![Fix::from_int(0); n];
    model.deriv(fx(1), &st.y, &mut dy_a);
    model.deriv_allocfree_mut(fx(1), &st.y, &mut dy_b);
    let mut sum: i128 = 0;
    for (a, b) in dy_a.iter().zip(dy_b.iter()) {
        assert_eq!(a.raw, b.raw);
        sum += a.raw;
    }
    // The conservation law holds exactly at the derivative level.
    assert_eq!(sum, 0);
}

#[test]
fn zero_population_group_contributes_nothing() {
    // The force-of-infection sum skips a group whose current population is
    // zero instead of dividing by it.
    let mut cfg = base_config(2, 1, 1);
    cfg.pop = vec![fx(1000), fx(0)];
    let model = SeirsModel::new(cfg).expect("config must validate");
    let seeding = vec![fx(10), fx(0)];
    let mut st = SeirsState::init_from_seeding(&model.cfg, &seeding);
    let initial = total_mass(&model.cfg, &st.y);
    assert!((initial - 1000.0).abs() < 1e-6);
    let traj = model.simulate(&mut st, fx(0), fx(20), ratio(1, 2));
    for (_, y) in &traj {
        // The empty group's compartments stay empty.
        assert_eq!(y[4].raw, 0);
        assert_eq!(y[5].raw, 0);
        assert_eq!(y[6].raw, 0);
        assert_eq!(y[7].raw, 0);
        let m = total_mass(&model.cfg, y);
        assert!(((m - initial) / initial).abs() < 1e-6);
    }
}
