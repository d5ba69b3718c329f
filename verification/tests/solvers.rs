use luminet_blackhole_lib::solvers::{
    brackets_root, differ, keeps_bisecting, narrow, Narrowing, Sign, MAX_BISECTION_ITERS,
};

const SIGNS: [Sign; 3] = [Sign::Negative, Sign::Positive, Sign::NotANumber];

fn signum(sign: Sign) -> f64 {
    match sign {
        Sign::Negative => -1.0,
        Sign::Positive => 1.0,
        Sign::NotANumber => f64::NAN,
    }
}

#[test]
fn equal_signs_do_not_differ() {
    assert!(!differ(Sign::Negative, Sign::Negative));
    assert!(!differ(Sign::Positive, Sign::Positive));
}

#[test]
fn opposite_signs_differ() {
    assert!(differ(Sign::Negative, Sign::Positive));
    assert!(differ(Sign::Positive, Sign::Negative));
}

#[test]
fn not_a_number_differs_from_everything() {
    for sign in SIGNS {
        assert!(differ(Sign::NotANumber, sign));
        assert!(differ(sign, Sign::NotANumber));
    }
}

#[test]
fn signs_differ_as_signums_do() {
    for a in SIGNS {
        for b in SIGNS {
            assert_eq!(differ(a, b), signum(a) != signum(b));
            assert_eq!(brackets_root(a, b), !(signum(a) == signum(b)));
        }
    }
}

#[test]
fn a_bracket_needs_different_signs() {
    assert!(brackets_root(Sign::Negative, Sign::Positive));
    assert!(brackets_root(Sign::Positive, Sign::Negative));
    assert!(!brackets_root(Sign::Positive, Sign::Positive));
    assert!(!brackets_root(Sign::Negative, Sign::Negative));
}

#[test]
fn the_upper_bound_moves_where_the_zero_lies_below_the_midpoint() {
    assert_eq!(
        narrow(Sign::Negative, Sign::Positive, Sign::Positive),
        Narrowing::Upper
    );
    assert_eq!(
        narrow(Sign::Positive, Sign::Negative, Sign::Negative),
        Narrowing::Upper
    );
}

#[test]
fn the_lower_bound_moves_where_the_zero_lies_above_the_midpoint() {
    assert_eq!(
        narrow(Sign::Negative, Sign::Positive, Sign::Negative),
        Narrowing::Lower
    );
    assert_eq!(
        narrow(Sign::Positive, Sign::Negative, Sign::Positive),
        Narrowing::Lower
    );
}

#[test]
fn the_upper_bound_moves_to_a_midpoint_that_is_not_a_number() {
    for a in SIGNS {
        for b in SIGNS {
            assert_eq!(narrow(a, b, Sign::NotANumber), Narrowing::Upper);
        }
    }
}

#[test]
fn neither_bound_moves_where_all_signs_agree() {
    assert_eq!(
        narrow(Sign::Positive, Sign::Positive, Sign::Positive),
        Narrowing::Neither
    );
    assert_eq!(
        narrow(Sign::Negative, Sign::Negative, Sign::Negative),
        Narrowing::Neither
    );
}

#[test]
fn narrowing_goes_by_the_signums() {
    for a in SIGNS {
        for b in SIGNS {
            for c in SIGNS {
                let expected = if signum(a) != signum(c) {
                    Narrowing::Upper
                } else if signum(b) != signum(c) {
                    Narrowing::Lower
                } else {
                    Narrowing::Neither
                };
                assert_eq!(narrow(a, b, c), expected);
            }
        }
    }
}

#[test]
fn a_bracket_stays_a_bracket() {
    for a in SIGNS {
        for b in SIGNS {
            if !brackets_root(a, b) {
                continue;
            }
            for c in SIGNS {
                match narrow(a, b, c) {
                    Narrowing::Upper => assert!(brackets_root(a, c)),
                    Narrowing::Lower => assert!(brackets_root(c, b)),
                    Narrowing::Neither => panic!("a bracket did not narrow"),
                }
            }
        }
    }
}

#[test]
fn bisection_stops_after_a_hundred_steps() {
    assert_eq!(MAX_BISECTION_ITERS, 100);
    assert!(keeps_bisecting(true, 0));
    assert!(keeps_bisecting(true, 99));
    assert!(!keeps_bisecting(true, 100));
    assert!(!keeps_bisecting(true, usize::MAX));
}

#[test]
fn bisection_stops_within_the_tolerance() {
    assert!(!keeps_bisecting(false, 0));
    assert!(!keeps_bisecting(false, 99));
    assert!(!keeps_bisecting(false, 100));
}

#[test]
fn bisection_finds_a_root_with_these_decisions() {
    // the zero of x^3 - 2 between 0 and 3
    let f = |x: f64| x * x * x - 2.0;
    let sign_of = |v: f64| {
        if v.is_nan() {
            Sign::NotANumber
        } else if v.is_sign_negative() {
            Sign::Negative
        } else {
            Sign::Positive
        }
    };
    let (mut a, mut b) = (0.0_f64, 3.0_f64);
    let (mut sign_a, mut sign_b) = (sign_of(f(a)), sign_of(f(b)));
    assert!(brackets_root(sign_a, sign_b));
    let mut steps = 0;
    while keeps_bisecting((b - a).abs() > 1e-6, steps) {
        let c = (a + b) / 2.0;
        let sign_c = sign_of(f(c));
        match narrow(sign_a, sign_b, sign_c) {
            Narrowing::Upper => {
                b = c;
                sign_b = sign_c;
            }
            Narrowing::Lower => {
                a = c;
                sign_a = sign_c;
            }
            Narrowing::Neither => {}
        }
        steps += 1;
    }
    assert_eq!(steps, 22);
    assert!(((a + b) / 2.0 - 2.0_f64.cbrt()).abs() < 1e-6);
}
