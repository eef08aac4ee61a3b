use jesse_rust::pairwise::{pairwise_sum_program, SumOp};

fn leaf(start: usize, len: usize) -> SumOp {
    SumOp::Leaf { start, len }
}

#[test]
fn short_blocks_are_one_leaf() {
    assert_eq!(pairwise_sum_program(0, 0), vec![leaf(0, 0)]);
    assert_eq!(pairwise_sum_program(3, 7), vec![leaf(3, 7)]);
    assert_eq!(pairwise_sum_program(0, 128), vec![leaf(0, 128)]);
}

#[test]
fn long_block_splits_at_half_rounded_to_eight() {
    // 129 / 2 = 64, already a multiple of 8
    assert_eq!(pairwise_sum_program(0, 129), vec![leaf(0, 64), leaf(64, 65), SumOp::Add]);
    // 300 / 2 = 150 -> 144, which splits into 72 + 72; 156 / 2 = 78 -> 72
    assert_eq!(
        pairwise_sum_program(10, 300),
        vec![
            leaf(10, 72),
            leaf(82, 72),
            SumOp::Add,
            leaf(154, 72),
            leaf(226, 84),
            SumOp::Add,
            SumOp::Add,
        ]
    );
}

#[test]
fn leaves_tile_the_block_and_the_stack_balances() {
    for &n in &[0usize, 1, 129, 257, 1000, 4320] {
        let prog = pairwise_sum_program(5, n);
        let mut next = 5;
        let mut depth = 0i64;
        for op in &prog {
            match *op {
                SumOp::Leaf { start, len } => {
                    assert_eq!(start, next);
                    assert!(len <= 128);
                    next += len;
                    depth += 1;
                }
                SumOp::Add => {
                    assert!(depth >= 2);
                    depth -= 1;
                }
            }
        }
        assert_eq!(next, 5 + n);
        assert_eq!(depth, 1);
    }
}
