use spectral::signal::{FixedComplex, Phase, RandComplex, Sine};

#[test]
fn zero_frequency_sine_is_silent() {
    let mut sine = Sine::new(0, 1000);
    for _ in 0..100 {
        let p = sine.next_phase();
        assert_eq!(p.turns_num, 0);
        assert_eq!((std::f64::consts::TAU * p.turns_num as f64 / p.turns_den as f64).sin(), 0.0);
    }
}

#[test]
fn sine_phase_advances_from_one() {
    let mut sine = Sine::new(200, 500);
    assert_eq!(sine.next_phase(), Phase { turns_num: 200, turns_den: 500 });
    assert_eq!(sine.next_phase(), Phase { turns_num: 400, turns_den: 500 });
    assert_eq!(sine.next_phase(), Phase { turns_num: 600, turns_den: 500 });
}

#[test]
fn default_sine() {
    let mut sine = Sine::default();
    assert_eq!(sine.next_phase(), Phase { turns_num: 2000, turns_den: 44000 });
}

#[test]
fn random_walk_drifts_upwards() {
    let v = RandComplex::random_vec(200, 0).unwrap();
    assert_eq!(v.len(), 200);
    let mut prev = FixedComplex { re: 0, im: 0 };
    let mut steps = Vec::new();
    for p in &v {
        let dr = p.re - prev.re;
        let di = p.im - prev.im;
        assert!((512..1024).contains(&dr) && (512..1024).contains(&di));
        steps.push(dr);
        prev = *p;
    }
    // The draws are random: two hundred equal steps would mean nothing was drawn.
    assert!(steps.iter().any(|&s| s != steps[0]));
}

#[test]
fn random_walk_from_a_start() {
    let mut walk = RandComplex::default(0, Some(FixedComplex { re: 100, im: -100 }));
    let p = walk.next();
    assert!(p.re >= 612 && p.re < 1124);
    assert!(p.im >= 412 && p.im < 924);
}

#[test]
fn random_walk_with_symmetric_steps() {
    let start = FixedComplex { re: 0, im: 0 };
    assert!(RandComplex::with_step_range(start, 5, 5).is_none());
    let mut walk = RandComplex::with_step_range(start, -1024, 1024).unwrap();
    let mut prev = start;
    for _ in 0..50 {
        let p = walk.next();
        assert!((-1024..1024).contains(&(p.re - prev.re)));
        assert!((-1024..1024).contains(&(p.im - prev.im)));
        prev = p;
    }
}
