use jesse_rust::candle::{block_extremes, jump_fix_plan, CandleError, CandleKeys, JumpFix};

fn candle(open: i64, close: i64, high: i64, low: i64) -> CandleKeys {
    CandleKeys { open: Some(open), close: Some(close), high: Some(high), low: Some(low) }
}

const NONE: JumpFix = JumpFix { open: false, high: false, low: false };

fn apply(candles: &[CandleKeys], plan: &[JumpFix]) -> Vec<CandleKeys> {
    let mut out = candles.to_vec();
    for i in 1..candles.len() {
        let pc = candles[i - 1].close;
        if plan[i].open {
            out[i].open = pc;
        }
        if plan[i].high {
            out[i].high = pc;
        }
        if plan[i].low {
            out[i].low = pc;
        }
    }
    out
}

#[test]
fn jump_fix_lowers_open_and_low() {
    let c = vec![candle(9, 10, 11, 8), candle(12, 13, 14, 11)];
    let plan = jump_fix_plan(&c);
    assert_eq!(plan[0], NONE);
    assert_eq!(plan[1], JumpFix { open: true, high: false, low: true });
}

#[test]
fn jump_fix_raises_open_and_high() {
    let c = vec![candle(9, 10, 11, 8), candle(8, 7, 9, 6)];
    assert_eq!(jump_fix_plan(&c)[1], JumpFix { open: true, high: true, low: false });
    let c = vec![candle(9, 10, 11, 8), candle(8, 7, 12, 6)];
    assert_eq!(jump_fix_plan(&c)[1], JumpFix { open: true, high: false, low: false });
}

#[test]
fn jump_fix_leaves_matching_open() {
    let c = vec![candle(9, 10, 11, 8), candle(10, 12, 13, 9)];
    assert_eq!(jump_fix_plan(&c), vec![NONE, NONE]);
}

#[test]
fn jump_fix_leaves_nan_open() {
    let mut c = vec![candle(9, 10, 11, 8), candle(10, 12, 13, 9)];
    c[1].open = None;
    assert_eq!(jump_fix_plan(&c)[1], NONE);
    assert!(jump_fix_plan(&Vec::new()).is_empty());
}

#[test]
fn jump_fix_is_idempotent() {
    let c = vec![
        candle(5, 6, 7, 4),
        candle(9, 8, 10, 7),
        candle(3, 5, 6, 2),
        candle(5, 5, 5, 5),
    ];
    let plan = jump_fix_plan(&c);
    let fixed = apply(&c, &plan);
    for i in 1..fixed.len() {
        assert_eq!(fixed[i].open, c[i - 1].close);
        assert!(fixed[i].low.unwrap() <= fixed[i].open.unwrap());
        assert!(fixed[i].open.unwrap() <= fixed[i].high.unwrap());
    }
    assert!(jump_fix_plan(&fixed).iter().all(|f| *f == NONE));
}

#[test]
fn block_of_no_candle_is_refused() {
    assert_eq!(block_extremes(&Vec::new()), Err(CandleError::NoCandles));
}

#[test]
fn block_extremes_keep_first_of_equal() {
    let c = vec![candle(1, 1, 5, 2), candle(1, 1, 7, 1), candle(1, 1, 7, 1), candle(1, 1, 6, 3)];
    assert_eq!(block_extremes(&c), Ok((1, 1)));
}

#[test]
fn block_extremes_take_first_nan() {
    let mut c = vec![candle(1, 1, 5, 2), candle(1, 1, 9, 1), candle(1, 1, 7, 0)];
    c[2].high = None;
    c[0].low = None;
    c[1].low = None;
    assert_eq!(block_extremes(&c), Ok((2, 0)));
}

#[test]
fn block_of_one_candle() {
    let c = vec![candle(1, 2, 3, 0)];
    assert_eq!(block_extremes(&c), Ok((0, 0)));
}
