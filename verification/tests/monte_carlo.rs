use chrono::{DateTime, Duration, Utc};
use option_pricing::cashflows::Currency;
use option_pricing::error::{ErrorKind, PricingError};
use option_pricing::fixed::Fixed;
use option_pricing::instant::Instant;
use option_pricing::instruments::barrier_option::{Barrier, BarrierOption, BarrierType};
use option_pricing::instruments::vanilla_option::VanillaOption;
use option_pricing::instruments::{OptionType, Value};
use option_pricing::pricing::monte_carlo::{monte_carlo_price, monte_carlo_price_at, payoff_on_path};
use option_pricing::processes::black_scholes_process::BlackScholesProcess;
use option_pricing::processes::heston_process::HestonProcess;
use option_pricing::processes::Simulate;
use rand::thread_rng;
use rand_distr::{Distribution, Normal};

fn fx(x: f64) -> Fixed {
    Fixed::from_raw((x * 1e9).round() as i128 * 1_000_000_000)
}

fn as_float(x: Fixed) -> f64 {
    let sign = if x.raw < 0 { "-" } else { "" };
    let whole = x.raw.unsigned_abs() / 1_000_000_000_000_000_000;
    let part = x.raw.unsigned_abs() % 1_000_000_000_000_000_000;
    format!("{}{}.{:018}", sign, whole, part).parse().unwrap()
}

fn instant(t: DateTime<Utc>) -> Instant {
    Instant::from_timestamp(t.timestamp(), t.timestamp_subsec_nanos())
}

fn prices(values: &[f64]) -> Vec<Fixed> {
    values.iter().map(|&v| fx(v)).collect()
}

fn draws(number_of_paths: usize, per_path: usize) -> Vec<Vec<Fixed>> {
    let mut rng = thread_rng();
    let normal = Normal::new(0.0, 1.0).unwrap();
    (0..number_of_paths)
        .map(|_| (0..per_path).map(|_| fx(normal.sample(&mut rng))).collect())
        .collect()
}

fn vanilla(option_type: OptionType, strike: f64) -> VanillaOption {
    VanillaOption::new(
        fx(strike),
        Instant::from_timestamp(1_000, 0),
        Instant::from_timestamp(2_000, 0),
        option_type,
        Currency::USD,
    )
}

fn barrier(barrier_type: BarrierType, level: f64, option_type: OptionType, strike: f64) -> BarrierOption {
    BarrierOption {
        strike: fx(strike),
        exercise_datetime: Instant::from_timestamp(1_000, 0),
        settlement_datetime: Instant::from_timestamp(2_000, 0),
        option_type,
        barrier: Barrier { barrier_type, level: fx(level) },
        underlying_currency: Currency::USD,
    }
}

#[test]
fn test_monte_carlo_black_scholes_vanilla_option() {
    let option = VanillaOption {
        strike: fx(100.0),
        exercise_datetime: instant(Utc::now() + Duration::days(365)),
        settlement_datetime: instant(Utc::now() + Duration::days(365 + 2)),
        option_type: OptionType::Call,
        underlying_currency: Currency::USD,
    };

    let bs_process = BlackScholesProcess::new(fx(100.0), fx(0.05), fx(0.2), fx(1.0));
    let price =
        monte_carlo_price(&option, &bs_process, fx(0.05), 1000, 365, &draws(1000, 365)).unwrap();
    assert!(as_float(price.amount) > 0.0, "The calculated option price should be positive.");
}

#[test]
fn test_monte_carlo_heston() {
    let option = VanillaOption {
        strike: fx(100.0),
        exercise_datetime: instant(Utc::now() + Duration::days(365)),
        settlement_datetime: instant(Utc::now() + Duration::days(365 + 2)),
        option_type: OptionType::Call,
        underlying_currency: Currency::USD,
    };

    let bs_process = HestonProcess::new(
        fx(100.0),
        fx(0.05),
        fx(0.05),
        fx(0.8),
        fx(0.1),
        fx(0.2),
        fx(0.2),
        fx(1.0),
    );
    let price =
        monte_carlo_price(&option, &bs_process, fx(0.05), 1000, 365, &draws(1000, 2 * 365)).unwrap();

    assert!(as_float(price.amount) > 0.0, "The calculated option price should be positive.");
}

#[test]
fn test_barrier_option_up_and_in_triggered() {
    let barrier_option = BarrierOption {
        strike: fx(100.0),
        exercise_datetime: instant(Utc::now() + Duration::days(365)),
        settlement_datetime: instant(Utc::now() + Duration::days(365 + 2)),
        option_type: OptionType::Call,
        barrier: Barrier { level: fx(105.0), barrier_type: BarrierType::UpAndIn },
        underlying_currency: Currency::USD,
    };

    let bs_process = BlackScholesProcess::new(fx(100.0), fx(0.05), fx(0.2), fx(1.0));
    let payoff =
        monte_carlo_price(&barrier_option, &bs_process, fx(0.05), 1000, 365, &draws(1000, 365))
            .unwrap();
    assert!(as_float(payoff.amount) > 0.0, "Payoff should be positive when barrier is triggered.");
}

#[test]
fn test_barrier_option_up_and_in_not_triggered() {
    let barrier_option = BarrierOption {
        strike: fx(100.0),
        exercise_datetime: instant(Utc::now() + Duration::days(365)),
        settlement_datetime: instant(Utc::now() + Duration::days(365 + 2)),
        option_type: OptionType::Call,
        barrier: Barrier { level: fx(1000.0), barrier_type: BarrierType::UpAndIn },
        underlying_currency: Currency::USD,
    };

    let bs_process = BlackScholesProcess::new(fx(100.0), fx(0.05), fx(0.2), fx(1.0));
    let payoff =
        monte_carlo_price(&barrier_option, &bs_process, fx(0.05), 1000, 365, &draws(1000, 365))
            .unwrap();
    assert!((as_float(payoff.amount) - 0.0).abs() < 0.01);
}

#[test]
fn monte_carlo_agrees_with_the_closed_form_value() {
    let valuation = Instant::from_timestamp(1_700_000_000, 0);
    let option = VanillaOption::new(
        fx(100.0),
        Instant::from_timestamp(1_700_000_000 + 31_557_600, 0),
        Instant::from_timestamp(1_700_000_000 + 31_557_600, 0),
        OptionType::Call,
        Currency::USD,
    );
    let process = BlackScholesProcess::new(fx(100.0), fx(0.05), fx(0.2), fx(1.0));
    let trials = 10;
    let mut sum = 0.0;
    for _ in 0..trials {
        let price = monte_carlo_price_at(
            &option,
            &process,
            fx(0.05),
            1000,
            365,
            valuation,
            &draws(1000, 365),
        )
        .unwrap();
        assert_eq!(price.currency, Currency::USD);
        assert_eq!(price.settlement_datetime, valuation);
        sum += as_float(price.amount);
    }
    let mean = sum / trials as f64;
    assert!((mean - 10.45).abs() < 1.0, "mean of the estimates: {}", mean);
}

#[test]
fn no_paths_is_a_domain_error() {
    let option = vanilla(OptionType::Call, 100.0);
    let process = BlackScholesProcess::new(fx(100.0), fx(0.05), fx(0.2), fx(1.0));
    let none: Vec<Vec<Fixed>> = Vec::new();
    let refused = monte_carlo_price(&option, &process, fx(0.05), 0, 365, &none).unwrap_err();
    assert_eq!(refused, PricingError::NoPaths);
    assert_eq!(refused.kind(), ErrorKind::Domain);
    let at = monte_carlo_price_at(
        &option,
        &process,
        fx(0.05),
        0,
        365,
        Instant::from_timestamp(0, 0),
        &draws(3, 365),
    );
    assert_eq!(at.unwrap_err(), PricingError::NoPaths);
}

#[test]
fn no_steps_is_a_domain_error() {
    let option = vanilla(OptionType::Call, 100.0);
    let process = BlackScholesProcess::new(fx(100.0), fx(0.05), fx(0.2), fx(1.0));
    assert_eq!(process.generate_price_path(0, &Vec::new()), Ok(Vec::new()));
    let refused = monte_carlo_price_at(
        &option,
        &process,
        fx(0.05),
        2,
        0,
        Instant::from_timestamp(0, 0),
        &draws(2, 0),
    )
    .unwrap_err();
    assert_eq!(refused, PricingError::EmptyPath);
    assert_eq!(refused.kind(), ErrorKind::Domain);
    let knock_in = barrier(BarrierType::UpAndIn, 105.0, OptionType::Call, 100.0);
    assert_eq!(knock_in.calculate_payoff(&Vec::new()).unwrap_err(), PricingError::EmptyPath);
}

#[test]
fn draws_must_match_paths_and_steps() {
    let option = vanilla(OptionType::Call, 100.0);
    let gbm = BlackScholesProcess::new(fx(100.0), fx(0.05), fx(0.2), fx(1.0));
    let heston = HestonProcess::new(
        fx(100.0),
        fx(0.05),
        fx(0.05),
        fx(0.8),
        fx(0.1),
        fx(0.2),
        fx(0.2),
        fx(1.0),
    );
    let t0 = Instant::from_timestamp(0, 0);
    assert_eq!(gbm.normals_per_step(), 1);
    assert_eq!(heston.normals_per_step(), 2);
    assert_eq!(
        monte_carlo_price_at(&option, &gbm, fx(0.05), 3, 4, t0, &draws(2, 4)).unwrap_err(),
        PricingError::DrawCount
    );
    assert_eq!(
        monte_carlo_price_at(&option, &gbm, fx(0.05), 3, 4, t0, &draws(3, 5)).unwrap_err(),
        PricingError::DrawCount
    );
    assert_eq!(
        monte_carlo_price_at(&option, &heston, fx(0.05), 3, 4, t0, &draws(3, 4)).unwrap_err(),
        PricingError::DrawCount
    );
    assert!(monte_carlo_price_at(&option, &heston, fx(0.05), 3, 4, t0, &draws(3, 8)).is_ok());
    assert_eq!(PricingError::DrawCount.kind(), ErrorKind::Domain);
}

#[test]
fn vanilla_payoffs() {
    let call = vanilla(OptionType::Call, 100.0);
    let put = vanilla(OptionType::Put, 100.0);
    let up = prices(&[90.0, 95.0, 112.5]);
    let down = prices(&[110.0, 120.0, 87.25]);
    assert_eq!(call.calculate_payoff(&up).unwrap().amount, fx(12.5));
    assert_eq!(put.calculate_payoff(&up).unwrap().amount, fx(0.0));
    assert_eq!(call.calculate_payoff(&down).unwrap().amount, fx(0.0));
    assert_eq!(put.calculate_payoff(&down).unwrap().amount, fx(12.75));
    let paid = call.calculate_payoff(&up).unwrap();
    assert_eq!(paid.currency, Currency::USD);
    assert_eq!(paid.settlement_datetime, Instant::from_timestamp(2_000, 0));
    assert_eq!(call.settlement_datetime(), Instant::from_timestamp(2_000, 0));
    assert_eq!(call.underlying_currency(), Currency::USD);
    assert_eq!(call.calculate_payoff(&Vec::new()).unwrap_err(), PricingError::EmptyPath);
}

#[test]
fn put_call_parity_on_payoffs() {
    for (terminal, strike) in [(120.0, 100.0), (80.0, 100.0), (100.0, 100.0), (0.5, 250.0)] {
        let call = vanilla(OptionType::Call, strike).calculate_payoff(&prices(&[terminal])).unwrap();
        let put = vanilla(OptionType::Put, strike).calculate_payoff(&prices(&[terminal])).unwrap();
        let gap = call.sub(&put).unwrap();
        assert_eq!(gap.amount, fx(terminal).sub(fx(strike)).unwrap());
    }
}

#[test]
fn barrier_payoffs() {
    let touching = prices(&[100.0, 105.0, 103.0]);
    let below = prices(&[100.0, 104.999999999, 103.0]);
    let up_in = barrier(BarrierType::UpAndIn, 105.0, OptionType::Call, 100.0);
    let up_out = barrier(BarrierType::UpAndOut, 105.0, OptionType::Call, 100.0);
    assert_eq!(up_in.calculate_payoff(&touching).unwrap().amount, fx(3.0));
    assert_eq!(up_out.calculate_payoff(&touching).unwrap().amount, fx(0.0));
    assert_eq!(up_in.calculate_payoff(&below).unwrap().amount, fx(0.0));
    assert_eq!(up_out.calculate_payoff(&below).unwrap().amount, fx(3.0));
    assert!(up_in.barrier.is_crossed(&touching));
    assert!(!up_in.barrier.is_crossed(&below));

    let dipping = prices(&[100.0, 95.0, 97.0]);
    let above = prices(&[100.0, 95.000000001, 97.0]);
    let down_in = barrier(BarrierType::DownAndIn, 95.0, OptionType::Put, 100.0);
    let down_out = barrier(BarrierType::DownAndOut, 95.0, OptionType::Put, 100.0);
    assert_eq!(down_in.calculate_payoff(&dipping).unwrap().amount, fx(3.0));
    assert_eq!(down_out.calculate_payoff(&dipping).unwrap().amount, fx(0.0));
    assert_eq!(down_in.calculate_payoff(&above).unwrap().amount, fx(0.0));
    assert_eq!(down_out.calculate_payoff(&above).unwrap().amount, fx(3.0));
    let paid = down_in.calculate_payoff(&dipping).unwrap();
    assert_eq!(paid.currency, Currency::USD);
    assert_eq!(paid.settlement_datetime, Instant::from_timestamp(2_000, 0));
    assert_eq!(down_in.settlement_datetime(), Instant::from_timestamp(2_000, 0));
    assert_eq!(down_in.underlying_currency(), Currency::USD);
}

#[test]
fn knock_in_and_knock_out_add_up_to_vanilla() {
    let process = BlackScholesProcess::new(fx(100.0), fx(0.05), fx(0.2), fx(1.0));
    for row in draws(50, 50) {
        let path = process.generate_price_path(50, &row).unwrap();
        for option_type in [OptionType::Call, OptionType::Put] {
            let plain = vanilla(option_type, 100.0).calculate_payoff(&path).unwrap();
            let pairs = [
                (BarrierType::UpAndIn, BarrierType::UpAndOut, 110.0),
                (BarrierType::DownAndIn, BarrierType::DownAndOut, 92.0),
            ];
            for (knock_in, knock_out, level) in pairs {
                let a = barrier(knock_in, level, option_type, 100.0).calculate_payoff(&path).unwrap();
                let b = barrier(knock_out, level, option_type, 100.0).calculate_payoff(&path).unwrap();
                assert_eq!(a.add(&b).unwrap().amount, plain.amount);
            }
        }
    }
}

#[test]
fn black_scholes_path_follows_the_euler_scheme() {
    let process = BlackScholesProcess::new(fx(100.0), fx(0.05), fx(0.2), fx(1.0));
    let path = process.generate_price_path(4, &prices(&[0.0, 1.0, -1.0, 2.0])).unwrap();
    // dt = 0.25, sqrt(dt) = 0.5: each step multiplies by 1 + 0.0125 + 0.1 z.
    let expected: Vec<Fixed> = [
        101_250_000_000_000_000_000i128,
        112_640_625_000_000_000_000,
        102_784_570_312_500_000_000,
        124_626_291_503_906_250_000,
    ]
        .iter()
        .map(|&raw| Fixed::from_raw(raw))
        .collect();
    assert_eq!(path, expected);
    assert_eq!(
        process.generate_price_path(4, &prices(&[0.0, 1.0])).unwrap_err(),
        PricingError::DrawCount
    );
    let backwards = BlackScholesProcess::new(fx(100.0), fx(0.05), fx(0.2), fx(-1.0));
    assert_eq!(
        backwards.generate_price_path(1, &prices(&[0.0])).unwrap_err(),
        PricingError::NegativeRoot
    );
}

#[test]
fn heston_path_follows_the_euler_scheme() {
    // rho = 0: the two drivers are the two draws. dt = 0.25, sqrt(dt) = 0.5.
    let process = HestonProcess::new(
        fx(100.0),
        fx(0.04),
        fx(0.0),
        fx(2.0),
        fx(0.04),
        fx(0.4),
        fx(0.0),
        fx(1.0),
    );
    let path = process.simulate(4, &prices(&[1.0, -2.0, 1.0, 0.0, 0.0, 0.0, 1.0, 1.0])).unwrap();
    // Step 1: v = 0.04 + 0.4 * 0.2 * (-1) = -0.04, raised to 0; s = 100 + 100 * 0 * 0.5.
    // Step 2: v = 0 + 2 * 0.04 * 0.25 = 0.02; s = 100 + 100 * sqrt(0.02) * 0.5.
    // Step 3: v = 0.02 + 2 * 0.02 * 0.25 = 0.03; the price does not move.
    // Step 4: v = 0.03 + 2 * 0.01 * 0.25 + 0.4 * sqrt(0.03) * 0.5; s moves by s * sqrt(v) * 0.5.
    assert_eq!(path.floored, 1);
    let expected: Vec<Fixed> = [
        100_000_000_000_000_000_000i128,
        107_071_067_811_865_475_200,
        107_071_067_811_865_475_200,
        121_198_872_682_581_115_019,
    ]
        .iter()
        .map(|&raw| Fixed::from_raw(raw))
        .collect();
    assert_eq!(path.prices, expected);
    let second = 100.0 + 100.0 * 0.02f64.sqrt() * 0.5;
    let last_variance = 0.03 + 2.0 * 0.01 * 0.25 + 0.4 * 0.03f64.sqrt() * 0.5;
    assert!((as_float(path.prices[1]) - second).abs() < 1e-12);
    assert!((as_float(path.prices[3]) - (second + second * last_variance.sqrt() * 0.5)).abs() < 1e-12);
    assert_eq!(
        process.generate_price_path(4, &prices(&[1.0, -2.0, 1.0, 0.0, 0.0, 0.0, 1.0, 1.0])).unwrap(),
        path.prices
    );
}

#[test]
fn heston_variance_is_never_negative() {
    let wild = HestonProcess::new(
        fx(100.0),
        fx(0.01),
        fx(0.05),
        fx(0.5),
        fx(0.01),
        fx(1.5),
        fx(-0.7),
        fx(1.0),
    );
    let mut floored = 0;
    for row in draws(200, 2 * 100) {
        let path = wild.simulate(100, &row).unwrap();
        assert_eq!(path.prices.len(), 100);
        floored += path.floored;
    }
    assert!(floored > 0);
    let below = HestonProcess::new(
        fx(100.0),
        fx(-0.01),
        fx(0.05),
        fx(0.5),
        fx(0.01),
        fx(1.5),
        fx(-0.7),
        fx(1.0),
    );
    assert_eq!(
        below.generate_price_path(1, &prices(&[0.0, 0.0])).unwrap_err(),
        PricingError::NegativeRoot
    );
    let miscorrelated = HestonProcess::new(
        fx(100.0),
        fx(0.01),
        fx(0.05),
        fx(0.5),
        fx(0.01),
        fx(1.5),
        fx(1.5),
        fx(1.0),
    );
    assert_eq!(
        miscorrelated.generate_price_path(1, &prices(&[0.0, 0.0])).unwrap_err(),
        PricingError::NegativeRoot
    );
}

#[test]
fn two_paths_are_priced_as_their_discounted_average() {
    let option = VanillaOption::new(
        fx(100.0),
        Instant::from_timestamp(31_557_600, 0),
        Instant::from_timestamp(31_557_600, 0),
        OptionType::Call,
        Currency::SEK,
    );
    // One step of a year: z = 1 takes the price to 120, z = -1 to 80.
    let process = BlackScholesProcess::new(fx(100.0), fx(0.0), fx(0.2), fx(1.0));
    let normals = vec![prices(&[1.0]), prices(&[-1.0])];
    assert_eq!(payoff_on_path(&option, &process, 1, &normals[0]).unwrap().amount, fx(20.0));
    assert_eq!(payoff_on_path(&option, &process, 1, &normals[1]).unwrap().amount, fx(0.0));
    let price = monte_carlo_price_at(
        &option,
        &process,
        fx(0.1),
        2,
        1,
        Instant::from_timestamp(0, 0),
        &normals,
    )
    .unwrap();
    // (20 + 0) / 2 / 1.1
    assert_eq!(price.amount, Fixed::from_raw(9_090_909_090_909_090_909));
    assert_eq!(price.currency, Currency::SEK);
    assert_eq!(price.settlement_datetime, Instant::from_timestamp(0, 0));
}
