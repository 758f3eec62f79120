//! Generated corpora.
use tallydb::corpus::{Row, Spec, SplitMix64};
use tallydb::float64::Float64;
use tallydb::text::key_label;

fn to_f64(value: Float64) -> f64 {
    f64::from_bits(value.to_bits())
}

fn to_float(value: f64) -> Float64 {
    Float64::from_bits(value.to_bits())
}

/// The rows of a corpus: the walks and the noise, on floats.
fn generate(spec: &Spec) -> Vec<Row> {
    let draws = match spec.generate() {
        Some(draws) => draws,
        None => panic!("the timestamps overflow"),
    };
    let mut walks: Vec<f64> = draws.walks.iter().map(|&u| 100.0 * (to_f64(u) + 0.5)).collect();
    let mut rows: Vec<Row> = Vec::new();
    for draw in &draws.rows {
        let walk = &mut walks[draw.key as usize];
        *walk += (to_f64(draw.step) - 0.5) * 2.0;
        let value = *walk;
        let aux = draw.noise.map(|noise| to_float(1.5 * value - 20.0 + (to_f64(noise) - 0.5) * 4.0));
        rows.push(Row {
            ts: draw.ts,
            key: draw.key,
            value: to_float(value),
            aux,
        });
    }
    draws.order.iter().map(|&row| rows[row]).collect()
}

#[test]
fn generation_is_deterministic() {
    let spec = Spec::telemetry(500, 42);
    assert_eq!(generate(&spec), generate(&spec));
    assert_ne!(generate(&spec), generate(&Spec::telemetry(500, 43)));
}

#[test]
fn ticks_are_ordered_and_null_free() {
    let rows = generate(&Spec::ticks(2_000, 7));
    assert_eq!(rows.len(), 2_000);
    assert!(rows.windows(2).all(|pair| pair[0].ts <= pair[1].ts));
    assert!(rows.iter().all(|row| row.aux.is_some()));
    assert!(rows.iter().all(|row| row.key < 32));
}

#[test]
fn telemetry_has_the_advertised_imperfections() {
    let rows = generate(&Spec::telemetry(5_000, 7));
    let disordered = rows.windows(2).filter(|pair| pair[0].ts > pair[1].ts).count();
    let nulls = rows.iter().filter(|row| row.aux.is_none()).count();
    assert!(disordered > 10, "{disordered}");
    assert!((50..500).contains(&nulls), "{nulls}");
}

#[test]
fn aux_carries_recoverable_signal() {
    let rows = generate(&Spec::ticks(10_000, 11));
    let pairs: Vec<(f64, f64)> = rows
        .iter()
        .filter_map(|row| row.aux.map(|aux| (to_f64(row.value), to_f64(aux))))
        .collect();
    let n = pairs.len() as f64;
    let (sx, sy): (f64, f64) = pairs
        .iter()
        .fold((0.0, 0.0), |(sx, sy), (x, y)| (sx + x, sy + y));
    let (mx, my) = (sx / n, sy / n);
    let (sxx, sxy): (f64, f64) = pairs.iter().fold((0.0, 0.0), |(sxx, sxy), (x, y)| {
        (sxx + (x - mx) * (x - mx), sxy + (x - mx) * (y - my))
    });
    let slope = sxy / sxx;
    assert!((slope - 1.5).abs() < 0.1, "{slope}");
}

#[test]
fn the_generator_is_the_published_one() {
    // The first outputs for seed zero.
    let mut rng = SplitMix64::new(0);
    assert_eq!(rng.next_u64(), 0xE220_A839_7B1D_CDAF);
    assert_eq!(rng.next_u64(), 0x6E78_9E6A_A1B9_65F4);
    let mut a = SplitMix64::new(9);
    let mut b = SplitMix64::new(9);
    assert_eq!(a.next_range(10), b.next_u64() % 10);
    let unit = to_f64(a.next_f64());
    assert_eq!(unit, (b.next_u64() >> 11) as f64 / (1u64 << 53) as f64);
}

#[test]
fn every_row_is_delivered_once() {
    let draws = match Spec::telemetry(3_000, 5).generate() {
        Some(draws) => draws,
        None => panic!("the timestamps overflow"),
    };
    let mut order = draws.order.clone();
    order.sort();
    assert_eq!(order, (0..3_000).collect::<Vec<usize>>());
    assert_ne!(draws.order, order);
    assert!(draws.rows.windows(2).all(|pair| pair[0].ts <= pair[1].ts));
}

#[test]
fn timestamps_that_do_not_fit_are_told() {
    let mut spec = Spec::ticks(3, 1);
    spec.start = i64::MAX;
    spec.cadence = i64::MAX;
    spec.jitter = 0;
    assert!(spec.generate().is_none());
    spec.rows = 1;
    assert!(spec.generate().is_some());
}

#[test]
fn labels_are_padded_to_three_digits() {
    assert_eq!(key_label(0), "K000");
    assert_eq!(key_label(31), "K031");
    assert_eq!(key_label(407), "K407");
    assert_eq!(key_label(u32::MAX), "K4294967295");
}

#[test]
fn gaps_stay_within_the_jitter() {
    let mut spec = Spec::telemetry(2_000, 3);
    let check = |spec: &Spec, low: i64, high: i64| {
        let draws = match spec.generate() {
            Some(draws) => draws,
            None => panic!("the timestamps overflow"),
        };
        for pair in draws.rows.windows(2) {
            let gap = pair[1].ts - pair[0].ts;
            assert!(low <= gap && gap <= high, "{gap}");
        }
    };
    check(&spec, 995_000_000, 1_005_000_000);
    spec.jitter = 0;
    check(&spec, 1_000_000_000, 1_000_000_000);
    spec.cadence = 2;
    spec.jitter = 5;
    check(&spec, 0, 7);
}

#[test]
fn null_density_at_its_ends() {
    let mut spec = Spec::ticks(500, 9);
    let nulls = |spec: &Spec| generate(spec).iter().filter(|row| row.aux.is_none()).count();
    for none in [0.0, -0.0, -1.0, f64::NAN] {
        spec.null_density = to_float(none);
        assert_eq!(nulls(&spec), 0, "{none}");
    }
    for all in [1.0, 2.0, f64::INFINITY] {
        spec.null_density = to_float(all);
        assert_eq!(nulls(&spec), 500, "{all}");
    }
}
