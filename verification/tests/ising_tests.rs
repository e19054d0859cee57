use ising::ensemble::Ensemble;
use ising::params::{IsingError, Params, MAX_DIM};
use ising::random::{RandomSource, ThreadRngSource};

/// A scripted random source: site draws and acceptance answers come from
/// fixed lists, so every test is reproducible.
struct ScriptedSource {
    picks: Vec<usize>,
    next_pick: usize,
    accepts: Vec<bool>,
    next_accept: usize,
}

impl ScriptedSource {
    fn new(picks: Vec<usize>, accepts: Vec<bool>) -> ScriptedSource {
        ScriptedSource { picks, next_pick: 0, accepts, next_accept: 0 }
    }
}

impl RandomSource for ScriptedSource {
    fn pick_index(&mut self, bound: usize) -> usize {
        let v = self.picks[self.next_pick];
        self.next_pick += 1;
        assert!(v < bound, "scripted pick out of range");
        v
    }

    fn boltzmann_accept(&mut self, _beta: i64, _exponent: i64) -> bool {
        let v = self.accepts[self.next_accept];
        self.next_accept += 1;
        v
    }
}

/// A source that counts how often it is consulted.
struct CountingSource {
    picks: usize,
    accepts: usize,
}

impl RandomSource for CountingSource {
    fn pick_index(&mut self, _bound: usize) -> usize {
        self.picks += 1;
        0
    }

    fn boltzmann_accept(&mut self, _beta: i64, _exponent: i64) -> bool {
        self.accepts += 1;
        true
    }
}

fn params_unit() -> Params {
    Params { coupling_const: 1, beta: 1, mag_field: 0 }
}

fn setup() -> Ensemble {
    let mut ensemble = Ensemble::new(4, params_unit());
    for i in 0..4 {
        for j in 0..4 {
            if (i + j) % 2 == 0 {
                ensemble.set_spin(i, j, 1);
            } else {
                ensemble.set_spin(i, j, -1);
            }
        }
    }
    ensemble
}

fn uniform_up(dim: usize, params: Params) -> Ensemble {
    let mut e = Ensemble::new(dim, params);
    for i in 0..dim {
        for j in 0..dim {
            e.set_spin(i, j, 1);
        }
    }
    e
}

#[test]
fn test_site_energy() {
    // Sum over +1 spin with 4 neighbouring spins that are -1
    let ensemble = setup();
    let s_k = ensemble.get_spin(1, 1) as i64;
    let value = -ensemble.params.coupling_const * s_k * -4;
    assert_eq!(ensemble.calc_site_energy(1, 1), value);
    assert_eq!(ensemble.calc_site_energy(1, 1), 4);
}

#[test]
fn test_site_energy_diff() {
    let ensemble = setup();
    let s_k = ensemble.get_spin(1, 1) as i64;
    let value = -ensemble.params.coupling_const * s_k * -4 * -2;
    assert_eq!(ensemble.calc_site_energy_diff(1, 1), value);
    assert_eq!(ensemble.calc_site_energy_diff(1, 1), -8);
}

#[test]
fn test_state_energy() {
    let ensemble = setup();
    // Each site is -J * s_k * sum_i=0..4 s_i, which is
    // -1.0 * -/+1.0 * +/-4.0 * 16.0 = 64
    let value: i64 = 64;
    assert_eq!(ensemble.calc_state_energy(), value);
}

#[test]
fn state_energy_scales_with_coupling() {
    // All spins up: every site contributes -J * 1 * 4; with J = 2 on a
    // 3 x 3 lattice the total is 9 * -8 = -72.
    let e = uniform_up(3, Params { coupling_const: 2, beta: 1, mag_field: 0 });
    assert_eq!(e.calc_site_energy(0, 0), -8);
    assert_eq!(e.calc_site_energy_diff(0, 0), 16);
    assert_eq!(e.calc_state_energy(), -72);
}

#[test]
fn new_lattice_is_neutral() {
    let e = Ensemble::new(3, params_unit());
    for i in 0..3 {
        for j in 0..3 {
            assert_eq!(e.get_spin(i, j), 0);
        }
    }
}

#[test]
fn init_assigns_spins_from_draws() {
    let mut picks = Vec::new();
    for k in 0..9 {
        picks.push(k % 2);
    }
    let mut src = ScriptedSource::new(picks, vec![]);
    let mut e = Ensemble::new(3, params_unit());
    e.init_ensemble(&mut src);
    for i in 0..3 {
        for j in 0..3 {
            let expected: i8 = if (i * 3 + j) % 2 == 0 { -1 } else { 1 };
            assert_eq!(e.get_spin(i, j), expected);
        }
    }
}

#[test]
fn init_with_thread_source_gives_valid_spins() {
    let mut src = ThreadRngSource::new(vec![]);
    let mut e = Ensemble::new(5, params_unit());
    e.init_ensemble(&mut src);
    for i in 0..5 {
        for j in 0..5 {
            let s = e.get_spin(i, j);
            assert!(s == 1 || s == -1);
        }
    }
}

#[test]
fn thread_source_pick_respects_bound() {
    let mut src = ThreadRngSource::new(vec![]);
    for _ in 0..32 {
        assert_eq!(src.pick_index(1), 0);
        assert!(src.pick_index(7) < 7);
    }
}

#[test]
fn step_flips_cell_with_negative_exponent() {
    // Checkerboard cell (1, 1) has exponent -8; the step must flip it even
    // though the acceptance draw would say no.
    let mut e = setup();
    let mut src = ScriptedSource::new(vec![1, 1], vec![false]);
    let r = e.step(&mut src);
    assert!(r.is_ok());
    assert_eq!(e.get_spin(1, 1), -1);
    // Only the acceptance draw for a positive exponent is ever consulted,
    // and this exponent was negative.
    assert_eq!(src.next_accept, 0);
}

#[test]
fn step_changes_at_most_one_cell() {
    let mut e = setup();
    let before: Vec<i8> = (0..4)
        .flat_map(|i| (0..4).map(move |j| (i, j)))
        .map(|(i, j)| e.get_spin(i, j))
        .collect();
    let mut src = ScriptedSource::new(vec![2, 3], vec![false]);
    e.step(&mut src).unwrap();
    let mut changed: usize = 0;
    for i in 0..4 {
        for j in 0..4 {
            if e.get_spin(i, j) != before[i * 4 + j] {
                changed += 1;
            }
        }
    }
    assert!(changed <= 1);
}

#[test]
fn step_respects_rejection_on_positive_exponent() {
    // On an all-up lattice with positive coupling every flip raises the
    // energy: exponent is 8, so the acceptance draw decides.
    let mut e = uniform_up(3, params_unit());
    assert_eq!(e.calc_site_energy_diff(1, 2), 8);
    let mut src = ScriptedSource::new(vec![1, 2], vec![false]);
    e.step(&mut src).unwrap();
    assert_eq!(e.get_spin(1, 2), 1);
    assert_eq!(src.next_accept, 1);
}

#[test]
fn step_respects_acceptance_on_positive_exponent() {
    let mut e = uniform_up(3, params_unit());
    let mut src = ScriptedSource::new(vec![1, 2], vec![true]);
    e.step(&mut src).unwrap();
    assert_eq!(e.get_spin(1, 2), -1);
    assert_eq!(src.next_accept, 1);
}

#[test]
fn thread_source_without_entry_rejects_hot_flip() {
    // The production source never accepts an exponent missing from its
    // threshold table, so this step must leave the lattice unchanged.
    let mut e = uniform_up(2, params_unit());
    let mut src = ThreadRngSource::new(vec![]);
    e.step(&mut src).unwrap();
    for i in 0..2 {
        for j in 0..2 {
            assert_eq!(e.get_spin(i, j), 1);
        }
    }
}

#[test]
fn thread_source_zero_threshold_rejects_hot_flip() {
    // A zero threshold means a 32-bit draw below zero, which cannot happen.
    let mut e = uniform_up(2, params_unit());
    let mut src = ThreadRngSource::new(vec![(8, 0)]);
    e.step(&mut src).unwrap();
    for i in 0..2 {
        for j in 0..2 {
            assert_eq!(e.get_spin(i, j), 1);
        }
    }
}

#[test]
fn degenerate_lattice_site_energy() {
    // On a 1 x 1 lattice every neighbor wraps to the cell itself:
    // E = -J * s * 4s = -4J.
    let mut e = Ensemble::new(1, params_unit());
    e.set_spin(0, 0, 1);
    assert_eq!(e.calc_site_energy(0, 0), -4);
    assert_eq!(e.calc_state_energy(), -4);
    e.set_spin(0, 0, -1);
    assert_eq!(e.calc_site_energy(0, 0), -4);
}

#[test]
fn degenerate_lattice_step_always_flips_with_negative_coupling() {
    // With J = -1 the single cell's exponent is -8, so every step flips it.
    let params = Params { coupling_const: -1, beta: 1, mag_field: 0 };
    let mut e = Ensemble::new(1, params);
    e.set_spin(0, 0, 1);
    assert_eq!(e.calc_site_energy_diff(0, 0), -8);
    let mut src = ScriptedSource::new(vec![0, 0, 0, 0], vec![]);
    e.step(&mut src).unwrap();
    assert_eq!(e.get_spin(0, 0), -1);
    e.step(&mut src).unwrap();
    assert_eq!(e.get_spin(0, 0), 1);
}

#[test]
fn update_site_toggles_valid_spins() {
    let mut e = setup();
    assert_eq!(e.get_spin(0, 0), 1);
    assert!(e.update_site(0, 0).is_ok());
    assert_eq!(e.get_spin(0, 0), -1);
    assert!(e.update_site(0, 0).is_ok());
    assert_eq!(e.get_spin(0, 0), 1);
}

#[test]
fn update_site_rejects_neutral_cell() {
    let mut e = Ensemble::new(2, params_unit());
    let r = e.update_site(0, 0);
    assert_eq!(r, Err(IsingError::InvalidState));
    assert_eq!(e.get_spin(0, 0), 0);
}

#[test]
fn run_takes_dim_squared_steps() {
    let mut e = uniform_up(3, Params { coupling_const: 0, beta: 1, mag_field: 0 });
    let mut src = CountingSource { picks: 0, accepts: 0 };
    let r = e.run(&mut src);
    assert_eq!(r, Ok(9));
    assert_eq!(e.dim, 3);
    // Each step draws one row and one column index.
    assert_eq!(src.picks, 18);
    // With zero coupling every exponent is zero, so each of the nine steps
    // flips the cell the source picked: (0, 0) nine times.
    assert_eq!(e.get_spin(0, 0), -1);
    for i in 0..3 {
        for j in 0..3 {
            if (i, j) != (0, 0) {
                assert_eq!(e.get_spin(i, j), 1);
            }
        }
    }
}

#[test]
fn render_produces_expected_bytes() {
    let mut e = Ensemble::new(2, params_unit());
    e.set_spin(0, 0, 1);
    e.set_spin(0, 1, -1);
    e.set_spin(1, 0, -1);
    e.set_spin(1, 1, 1);
    let out = e.render_state();
    assert_eq!(out, b"1 -1\n-1 1\n".to_vec());
}

#[test]
fn snapshot_round_trip_is_exact() {
    let e = setup();
    let out = e.render_state();
    let parsed = Ensemble::parse_state(&out, e.params).expect("round trip must parse");
    assert_eq!(parsed.dim, 4);
    assert_eq!(parsed.params, e.params);
    for i in 0..4 {
        for j in 0..4 {
            assert_eq!(parsed.get_spin(i, j), e.get_spin(i, j));
        }
    }
}

#[test]
fn parse_accepts_single_cell_grid() {
    let e = Ensemble::parse_state(b"-1\n", params_unit()).expect("1 x 1 grid parses");
    assert_eq!(e.dim, 1);
    assert_eq!(e.get_spin(0, 0), -1);
}

#[test]
fn parse_rejects_malformed_snapshots() {
    let p = params_unit();
    assert!(Ensemble::parse_state(b"", p).is_none());
    assert!(Ensemble::parse_state(b"1", p).is_none());
    assert!(Ensemble::parse_state(b"2\n", p).is_none());
    assert!(Ensemble::parse_state(b"1 1\n", p).is_none());
    assert!(Ensemble::parse_state(b"1 -1\n-1\n", p).is_none());
    assert!(Ensemble::parse_state(b"1 -1\n-1 1\n\n", p).is_none());
    assert!(Ensemble::parse_state(b"1 -1\n-1 1", p).is_none());
    assert!(Ensemble::parse_state(b"1  -1\n-1 1\n", p).is_none());
}

#[test]
fn larger_lattice_allocates_within_bounds() {
    assert!(100 <= MAX_DIM);
    let e = Ensemble::new(100, params_unit());
    assert_eq!(e.dim, 100);
    assert_eq!(e.get_spin(99, 99), 0);
}
