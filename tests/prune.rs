use esnode_core::prune::{parse_block_dir_name, plan_prune, BlockInfo};

fn blk(start: i64, size: u64) -> BlockInfo {
    BlockInfo { start_ms: start, end_ms: start + 7_200_000, size_bytes: size }
}

#[test]
fn retention_deletes_expired_blocks_only() {
    let blocks = vec![blk(0, 10), blk(7_200_000, 10), blk(14_400_000, 10)];
    // now = 4h + 1 ms, retention 2h: cutoff = 7_200_001; only the first block ended before it
    let del = plan_prune(&blocks, 4 * 3_600_000 + 1, 2, 1024, None);
    assert_eq!(del, vec![true, false, false]);
    // at 4h exactly the first block ends at the cutoff and stays
    let del = plan_prune(&blocks, 4 * 3_600_000, 2, 1024, None);
    assert_eq!(del, vec![false, false, false]);
}

#[test]
fn budget_deletes_oldest_until_met() {
    let mb = 1_048_576;
    let blocks = vec![blk(14_400_000, mb), blk(0, mb), blk(7_200_000, mb)];
    let del = plan_prune(&blocks, 0, 1000, 1, None);
    assert_eq!(del, vec![false, true, true]);
}

#[test]
fn open_block_is_never_deleted() {
    let mb = 1_048_576;
    let blocks = vec![blk(0, 3 * mb), blk(7_200_000, mb)];
    let del = plan_prune(&blocks, 100 * 3_600_000, 1, 0, Some(0));
    assert_eq!(del, vec![false, true]);
}

#[test]
fn block_dir_names_parse() {
    assert_eq!(parse_block_dir_name("0-7200000"), Some((0, 7_200_000)));
    assert_eq!(parse_block_dir_name("7200000-14400000"), Some((7_200_000, 14_400_000)));
    assert_eq!(parse_block_dir_name("+5-6"), Some((5, 6)));
    assert_eq!(parse_block_dir_name("5"), None);
    assert_eq!(parse_block_dir_name("1-2-3"), None);
    assert_eq!(parse_block_dir_name("a-2"), None);
    assert_eq!(parse_block_dir_name("-2"), None);
    assert_eq!(parse_block_dir_name("1-99999999999999999999"), None);
}
