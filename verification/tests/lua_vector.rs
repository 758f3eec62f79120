//! Whole-column arithmetic. The tests do the float arithmetic themselves.
use tallydb::bitmap::Bitmap;
use tallydb::float64::Float64;
use tallydb::lua::state::{write_column_result, LuaState, Ran};
use tallydb::lua::values::{ColumnView, LuaValue, OutputColumn, Reply, ReturnType, ScalarValue};
use tallydb::lua::vector::{
    ewma_column, frame_check, lag, null_arithmetic, read_column_result, rolling_column, rolling_pair,
    series_steps, spread_step, sum_step, vector_binary, vector_negate, Argument, ColumnResult,
    Vector,
};

fn float(value: f64) -> Float64 {
    Float64::from_bits(value.to_bits())
}

fn floats(values: &[f64]) -> Vec<Float64> {
    values.iter().map(|&value| float(value)).collect()
}

fn to_f64(value: Float64) -> f64 {
    f64::from_bits(value.to_bits())
}

fn f64s<'a>(values: &'a [Float64], validity: Option<&'a Bitmap>) -> Argument<'a> {
    Argument::View {
        view: ColumnView::F64 {
            floats: values,
            validity,
        },
        born: 0,
        generation: 0,
    }
}

fn i64s<'a>(values: &'a [i64], validity: Option<&'a Bitmap>) -> Argument<'a> {
    Argument::View {
        view: ColumnView::I64 {
            integers: values,
            validity,
        },
        born: 0,
        generation: 0,
    }
}

/// Applies an operator to the rows that meet.
fn apply(
    lhs: &Argument<'_>,
    rhs: &Argument<'_>,
    op: fn(f64, f64) -> f64,
) -> Result<Vector, &'static str> {
    let rows = vector_binary(lhs, rhs)?;
    let elements = rows
        .iter()
        .map(|row| row.map(|(a, b)| float(op(to_f64(a), to_f64(b)))))
        .collect();
    Ok(Vector::new(elements))
}

fn output(len: usize) -> OutputColumn {
    OutputColumn::F64 {
        floats: floats(&vec![0.0; len]),
        validity: Bitmap::new_unset(len),
    }
}

/// Returns a vector from a kernel into an output column.
fn give_back(vector: &Vector, output: &mut OutputColumn) -> Result<(), String> {
    let mut state = LuaState::new(0);
    output.bind();
    state.eval_column(Ok(Ran::Returned(Argument::Vector(vector))), output)
}

fn contents(output: &OutputColumn) -> Vec<Option<f64>> {
    match output {
        OutputColumn::F64 { floats, validity } => (0..floats.len())
            .map(|i| {
                if validity.get(i) {
                    Some(to_f64(floats[i]))
                } else {
                    None
                }
            })
            .collect(),
        _ => panic!("a float output"),
    }
}

/// A compensated sum.
#[derive(Clone, Copy, Default)]
struct Compensated {
    sum: f64,
    correction: f64,
}

impl Compensated {
    fn add(&mut self, value: f64) {
        let total = self.sum + value;
        if self.sum.abs() >= value.abs() {
            self.correction += (self.sum - total) + value;
        } else {
            self.correction += (value - total) + self.sum;
        }
        self.sum = total;
    }

    fn value(self) -> f64 {
        self.sum + self.correction
    }
}

/// A running sum, as the steps direct it.
fn sweep(terms: &[f64], window: u64, mean: bool) -> Vec<f64> {
    let mut sum = Compensated::default();
    let held = floats(terms);
    let mut odd = 0;
    let mut out = Vec::new();
    for offset in 0..terms.len() {
        let step = sum_step(offset, window);
        sum.add(terms[offset]);
        if let Some(row) = step.leaves {
            sum.add(-terms[row]);
        }
        let check = frame_check(&held, offset, window, odd, &[float(sum.value())]);
        odd = check.odd;
        if let Some(start) = step.recompute_from.or(check.restart_from) {
            sum = Compensated::default();
            for inner in start..=offset {
                sum.add(terms[inner]);
            }
        }
        out.push(if mean {
            sum.value() / step.rows as f64
        } else {
            sum.value()
        });
    }
    out
}

#[test]
fn composed_operators_match_native_arithmetic_bit_for_bit() {
    let a: Vec<f64> = (0..500).map(|i| f64::from(i) * 0.5 + 3.0).collect();
    let b: Vec<f64> = (0..500).map(|i| f64::from(i).mul_add(-0.25, 40.0)).collect();
    let (av, bv) = (floats(&a), floats(&b));
    let difference = apply(&f64s(&av, None), &f64s(&bv, None), |x, y| x - y).unwrap();
    let ratio = apply(&Argument::Vector(&difference), &f64s(&bv, None), |x, y| x / y).unwrap();
    let mut out = output(500);
    give_back(&ratio, &mut out).unwrap();
    for (i, got) in contents(&out).into_iter().enumerate() {
        assert_eq!(got.unwrap().to_bits(), ((a[i] - b[i]) / b[i]).to_bits());
    }
}

#[test]
fn scalars_broadcast_and_i64_views_convert_exactly() {
    let ticks: Vec<i64> = (0..8).map(|i| 1_000_000 + i).collect();
    let shifted = apply(&i64s(&ticks, None), &Argument::Integer(1_000_000), |x, y| x - y).unwrap();
    let scaled = apply(&Argument::Vector(&shifted), &Argument::Number(float(2.5)), |x, y| x * y)
        .unwrap();
    let mut out = output(8);
    give_back(&scaled, &mut out).unwrap();
    for (i, value) in contents(&out).into_iter().enumerate() {
        assert_eq!(value, Some(i as f64 * 2.5));
    }
    let big: Vec<i64> = vec![(1 << 53) + 1];
    let error = apply(&i64s(&big, None), &Argument::Number(float(0.0)), |x, y| x + y).unwrap_err();
    assert!(error.contains("does not fit f64 exactly"), "{error}");
    let error = vector_binary(&f64s(&[], None), &Argument::Integer((1 << 53) + 1)).unwrap_err();
    assert_eq!(error, "integer operand does not fit f64 exactly");
}

#[test]
fn null_propagates_elementwise_through_operators() {
    let a = floats(&[1.0, 2.0, 3.0]);
    let b = floats(&[10.0, 20.0, 30.0]);
    let a_validity = Bitmap::from_bools(&[true, false, true]);
    let sum = apply(&f64s(&a, Some(&a_validity)), &f64s(&b, None), |x, y| x + y).unwrap();
    let mut out = output(3);
    give_back(&sum, &mut out).unwrap();
    assert_eq!(contents(&out), [Some(11.0), None, Some(33.0)]);
    // The sentinel as an operand, in both orders.
    let right = apply(&f64s(&b, None), &Argument::Null, |x, y| x * y).unwrap();
    let left = null_arithmetic(&Argument::Null, &f64s(&b, None)).unwrap().unwrap();
    for vector in [right, left] {
        let mut out = output(3);
        give_back(&vector, &mut out).unwrap();
        assert_eq!(contents(&out), [None, None, None]);
    }
}

#[test]
fn vector_misuse_is_loud() {
    let a = floats(&[1.0, 2.0]);
    let b = floats(&[1.0, 2.0, 3.0]);
    let error = apply(&f64s(&a, None), &f64s(&b, None), |x, y| x + y).unwrap_err();
    assert!(error.contains("different lengths"), "{error}");
    let sum = apply(&f64s(&b, None), &Argument::Number(float(0.0)), |x, y| x + y).unwrap();
    let mut out = output(2);
    let error = give_back(&sum, &mut out).unwrap_err();
    assert!(error.contains("3 elements for 2 output rows"), "{error}");
    assert_eq!(
        vector_binary(&Argument::Integer(1), &Argument::Null).err(),
        Some("vector operator on two scalars")
    );
    assert_eq!(
        vector_binary(&Argument::Other, &f64s(&a, None)).err(),
        Some("vector arithmetic takes views, vectors, and numbers")
    );
    assert_eq!(
        vector_negate(&Argument::Integer(1)).err(),
        Some("vector negation of a scalar")
    );
}

#[test]
fn rolling_combinators_match_per_window_recompute() {
    let n = 300;
    let window = 7;
    let x: Vec<f64> = (0..n).map(|i| 1.0e12 + f64::from(i as u32).sin() * 3.0).collect();
    let y: Vec<f64> = (0..n).map(|i| 2.0e11 + f64::from(i as u32).cos() * 5.0).collect();
    let (xv, yv) = (floats(&x), floats(&y));
    let (xs, width) = rolling_column(&f64s(&xv, None), Some(7)).unwrap();
    let xs: Vec<f64> = xs.iter().map(|&v| to_f64(v)).collect();
    let (ps, qs, pair_width) = rolling_pair(&f64s(&xv, None), &f64s(&yv, None), Some(7)).unwrap();
    let products: Vec<f64> = ps.iter().zip(&qs).map(|(&p, &q)| to_f64(p) * to_f64(q)).collect();
    let close = |got: &[f64], reference: &dyn Fn(usize, usize) -> f64| {
        for (i, got) in got.iter().enumerate() {
            let lo = (i + 1).saturating_sub(window);
            let expected = reference(lo, i + 1);
            let scale = expected.abs().max(1.0);
            assert!(
                ((got - expected) / scale).abs() < 1e-12,
                "row {i}: {got} vs {expected}"
            );
        }
    };
    close(&sweep(&xs, width, false), &|lo, hi| x[lo..hi].iter().sum::<f64>());
    close(&sweep(&xs, width, true), &|lo, hi| {
        x[lo..hi].iter().sum::<f64>() / (hi - lo) as f64
    });
    close(&sweep(&products, pair_width, false), &|lo, hi| {
        (lo..hi).map(|i| x[i] * y[i]).sum::<f64>()
    });
}

#[test]
fn rolling_combinators_refuse_nulls_and_bad_windows() {
    let x = floats(&[1.0, 2.0, 3.0]);
    let x_validity = Bitmap::from_bools(&[true, false, true]);
    let error = rolling_column(&f64s(&x, Some(&x_validity)), Some(2)).unwrap_err();
    assert!(error.contains("non-null input"), "{error}");
    let error = rolling_column(&f64s(&x, None), Some(0)).unwrap_err();
    assert!(error.contains("positive integer"), "{error}");
    assert!(rolling_column(&f64s(&x, None), None).is_err());
    let error = rolling_column(&Argument::Integer(4), Some(2)).unwrap_err();
    assert!(error.contains("columns, not scalars"), "{error}");
    let short = floats(&[1.0]);
    let error = rolling_pair(&f64s(&x, None), &f64s(&short, None), Some(2)).unwrap_err();
    assert!(error.contains("different lengths"), "{error}");
}

#[test]
fn vectors_survive_calls_but_views_still_do_not() {
    let a = floats(&[5.0, 6.0]);
    let mut state = LuaState::new(0);
    let born = state.generation();
    let view = |generation: u64| Argument::View {
        view: ColumnView::F64 {
            floats: &a,
            validity: None,
        },
        born,
        generation,
    };
    let stashed = apply(&view(state.generation()), &Argument::Number(float(0.0)), |x, y| x + y)
        .unwrap();
    state
        .eval_scalar(Ok(Ran::Returned(LuaValue::Integer(0))), ReturnType::F64)
        .unwrap();
    match stashed.index(Some(2)) {
        Ok(Reply::Number(value)) => assert_eq!(
            state.eval_scalar(Ok(Ran::Returned(LuaValue::Number(value))), ReturnType::F64),
            Ok(ScalarValue::F64(float(6.0)))
        ),
        _ => panic!("a float"),
    }
    let error = vector_negate(&view(state.generation())).unwrap_err();
    assert!(error.contains("outside its call"), "{error}");
    let error = read_column_result(&view(state.generation())).unwrap_err();
    assert!(error.contains("outside its call"), "{error}");
}

#[test]
fn running_steps_hold_exactly_the_frame() {
    for width in 1..9u64 {
        let mut held: Vec<usize> = Vec::new();
        let mut spread: Vec<usize> = Vec::new();
        let mut anchored: Option<usize> = None;
        for offset in 0..40usize {
            let start = (offset + 1).saturating_sub(width as usize);
            let frame: Vec<usize> = (start..=offset).collect();
            let step = sum_step(offset, width);
            held.push(offset);
            if let Some(row) = step.leaves {
                held.retain(|&r| r != row);
            }
            if let Some(from) = step.recompute_from {
                held = (from..=offset).collect();
            }
            assert_eq!(held, frame);
            assert_eq!(step.rows, frame.len());
            let step = spread_step(offset, width, anchored);
            match step.rebuild_from {
                Some(from) => spread = (from..=offset).collect(),
                None => {
                    spread.push(offset);
                    if let Some(row) = step.leaves {
                        spread.retain(|&r| r != row);
                    }
                }
            }
            anchored = Some(step.anchored);
            assert_eq!(spread, frame);
            assert_eq!(step.rows, frame.len());
            // The shift is taken afresh every width rows.
            assert_eq!(step.anchored, offset / width as usize * width as usize);
        }
    }
}

#[test]
fn negation_flips_signs_and_keeps_nulls() {
    let values = floats(&[1.5, -0.0, 3.0]);
    let validity = Bitmap::from_bools(&[true, true, false]);
    let negated = vector_negate(&f64s(&values, Some(&validity))).unwrap();
    assert_eq!(negated.get(0).map(|v| v.to_bits()), Some((-1.5f64).to_bits()));
    assert_eq!(negated.get(1).map(|v| v.to_bits()), Some(0.0f64.to_bits()));
    assert_eq!(negated.get(2), None);
    let back = vector_negate(&Argument::Vector(&negated)).unwrap();
    assert_eq!(back.get(0), Some(float(1.5)));
    assert_eq!(back.len(), 3);
    assert!(!back.is_dense());
}

#[test]
fn series_heads_are_null() {
    let values = floats(&[1.0, 3.0, 6.0, 10.0]);
    let x = f64s(&values, None);
    let lagged = lag(&x, Some(2)).unwrap();
    assert_eq!(
        lagged.elements(),
        &[None, None, Some(float(1.0)), Some(float(3.0))]
    );
    let steps = series_steps(&x).unwrap();
    let diff: Vec<Option<f64>> = steps
        .iter()
        .map(|row| row.map(|(current, prior)| to_f64(current) - to_f64(prior)))
        .collect();
    assert_eq!(diff, [None, Some(2.0), Some(3.0), Some(4.0)]);
    // A distance past the column leaves nothing.
    assert_eq!(lag(&x, Some(9)).unwrap().elements(), &[None; 4]);
    assert_eq!(
        lag(&x, Some(0)).err(),
        Some("the lag distance must be a positive integer")
    );
    assert_eq!(lag(&x, None).err(), lag(&x, Some(-1)).err());
}

#[test]
fn only_rows_a_transform_reads_must_be_exact() {
    let odd = (1i64 << 53) + 1;
    // With a distance of two, the middle row of three is never read.
    let middle = [1, odd, 3];
    assert!(lag(&i64s(&middle, None), Some(2)).is_ok());
    let first = [odd, 2, 3];
    assert_eq!(
        lag(&i64s(&first, None), Some(2)).err(),
        Some("i64 element does not fit f64 exactly")
    );
    assert!(series_steps(&i64s(&middle, None)).is_err());
}

#[test]
fn smoothing_factors_lie_above_zero_and_at_most_one() {
    let values = floats(&[1.0, 2.0]);
    let x = f64s(&values, None);
    for good in [1.0, 0.5, f64::MIN_POSITIVE] {
        let (read, alpha) = ewma_column(&x, Some(float(good))).unwrap();
        assert_eq!(read, values);
        assert_eq!(to_f64(alpha), good);
    }
    for bad in [0.0, -0.5, 1.5, f64::NAN, f64::INFINITY] {
        assert_eq!(
            ewma_column(&x, Some(float(bad))).err(),
            Some("the EWMA smoothing factor must be in (0, 1]")
        );
    }
    assert!(ewma_column(&x, None).is_err());
}

#[test]
fn returned_columns_fill_the_output_exactly() {
    let mut integers = OutputColumn::I64 {
        integers: vec![0; 3],
        validity: Bitmap::new_unset(3),
    };
    let fits = ColumnResult::Elements(vec![Some(float(4.0)), None, Some(float(-7.0))]);
    write_column_result(fits, &mut integers).unwrap();
    match &integers {
        OutputColumn::I64 { integers, validity } => {
            assert_eq!(integers.as_slice(), &[4, 0, -7]);
            assert!(validity.get(0) && !validity.get(1) && validity.get(2));
        }
        _ => panic!("an integer output"),
    }
    // Rows before the first misfit are written, the rest are not.
    let odd = ColumnResult::Dense(floats(&[1.0, 2.5, 3.0]));
    let error = write_column_result(odd, &mut integers).unwrap_err();
    assert_eq!(error, "result: float element does not fit i64 exactly");
    match &integers {
        OutputColumn::I64 { integers, .. } => assert_eq!(integers.as_slice(), &[1, 0, -7]),
        _ => panic!("an integer output"),
    }
    let mut keys = OutputColumn::Key {
        codes: vec![0],
        validity: Bitmap::new_unset(1),
        dictionary: tallydb::key::Dictionary::new(),
    };
    let error = write_column_result(ColumnResult::Dense(floats(&[1.0])), &mut keys).unwrap_err();
    assert!(error.contains("cannot fill a key output"), "{error}");
    assert!(write_column_result(ColumnResult::Nothing, &mut keys).is_ok());
}

#[test]
fn results_that_are_no_columns_are_refused() {
    assert!(matches!(read_column_result(&Argument::Nil), Ok(ColumnResult::Nothing)));
    let values = floats(&[1.0, 2.0]);
    assert!(matches!(
        read_column_result(&f64s(&values, None)),
        Ok(ColumnResult::Dense(_))
    ));
    let validity = Bitmap::from_bools(&[true, false]);
    match read_column_result(&f64s(&values, Some(&validity))) {
        Ok(ColumnResult::Elements(elements)) => {
            assert_eq!(elements, vec![Some(float(1.0)), None]);
        }
        _ => panic!("elements"),
    }
    let odd = [(1i64 << 53) + 1];
    assert_eq!(
        read_column_result(&i64s(&odd, None)).err(),
        Some("result: i64 element does not fit f64 exactly")
    );
    let codes = [0u32];
    let mut dictionary = tallydb::key::Dictionary::new();
    dictionary.intern("AAPL");
    let keys = Argument::View {
        view: ColumnView::Key {
            codes: &codes,
            validity: None,
            dictionary: &dictionary,
        },
        born: 0,
        generation: 0,
    };
    assert_eq!(
        read_column_result(&keys).err(),
        Some("result: a key view is not a numeric column")
    );
    // Neither nulls nor the want of rows make a key view a numeric column.
    let nulls = Bitmap::new_unset(1);
    for (codes, validity) in [(&codes[..], Some(&nulls)), (&codes[..0], None)] {
        let keys = Argument::View {
            view: ColumnView::Key {
                codes,
                validity,
                dictionary: &dictionary,
            },
            born: 0,
            generation: 0,
        };
        assert_eq!(
            read_column_result(&keys).err(),
            Some("result: a key view is not a numeric column")
        );
    }
    assert!(read_column_result(&Argument::Integer(3))
        .unwrap_err()
        .contains("a column kernel returns"));
}

#[test]
fn the_sentinel_meets_no_view_of_another_call() {
    let values = floats(&[1.0, 2.0]);
    let past = || Argument::View {
        view: ColumnView::F64 {
            floats: &values,
            validity: None,
        },
        born: 3,
        generation: 4,
    };
    for (lhs, rhs) in [(Argument::Null, past()), (past(), Argument::Null)] {
        assert_eq!(
            null_arithmetic(&lhs, &rhs).err(),
            Some("view used outside its call")
        );
        assert_eq!(
            vector_binary(&lhs, &rhs).err(),
            Some("view used outside its call")
        );
    }
}

#[test]
fn a_row_covers_its_frame_alone() {
    let nan = f64::NAN;
    let got = sweep(&[nan, 1.0, 2.0, 3.0, 4.0], 2, false);
    assert!(got[0].is_nan() && got[1].is_nan());
    assert_eq!(got[2..], [3.0, 5.0, 7.0]);
    let got = sweep(&[1.0, f64::INFINITY, 2.0, 3.0, nan, 4.0, 5.0, 6.0, 7.0], 3, false);
    assert_eq!(got[0], 1.0);
    assert!(got[1..=6].iter().all(|sum| !sum.is_finite()));
    assert_eq!(got[7..], [15.0, 18.0]);
    // A total that left the finite range does not outlast its terms, either.
    let got = sweep(&[1e308, 0.5e308, 0.5e308, 1.0, 2.0], 2, false);
    assert_eq!(got[2..], [1e308, 0.5e308 + 1.0, 3.0]);
    let got = sweep(&[1e308, 1e308, 1.0, 2.0], 3, true);
    assert!(!got[2].is_finite());
    assert_eq!(got[3], 1e308 / 3.0);
}

#[test]
fn a_frame_is_checked_against_what_left_it() {
    let terms = floats(&[f64::NAN, 1.0, f64::INFINITY, 2.0, 3.0, 4.0]);
    let sound = [float(0.0)];
    let mut odd = 0;
    let mut restarts = Vec::new();
    let mut odds = Vec::new();
    for offset in 0..terms.len() {
        let check = frame_check(&terms, offset, 2, odd, &sound);
        odd = check.odd;
        odds.push(odd);
        restarts.push(check.restart_from);
    }
    assert_eq!(odds, [1, 1, 1, 1, 0, 0]);
    // The first NaN leaves a frame that still is not finite; the infinity
    // leaves one that is.
    assert_eq!(restarts, [None, None, None, None, Some(3), None]);
    // What is running starts over over a finite frame only.
    let lost = [float(0.0), float(f64::NAN)];
    assert_eq!(frame_check(&terms, 3, 2, 1, &lost).restart_from, None);
    assert_eq!(frame_check(&terms, 5, 2, 0, &lost).restart_from, Some(4));
    assert_eq!(frame_check(&terms, 5, 2, 0, &[]).restart_from, None);
}
