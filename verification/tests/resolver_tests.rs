use transfer_analytics::resolver::{resolve_in_table, BlockSearch};

fn chain() -> Vec<u64> {
    vec![100, 112, 125, 125, 140, 156, 170, 183, 183, 183, 200]
}

#[test]
fn resolves_to_the_first_block_not_older() {
    let table = chain();
    assert_eq!(resolve_in_table(&table, 125), 2);
    assert_eq!(resolve_in_table(&table, 126), 4);
    assert_eq!(resolve_in_table(&table, 183), 7);
    assert_eq!(resolve_in_table(&table, 200), 10);
}

#[test]
fn a_target_before_genesis_resolves_to_block_zero() {
    assert_eq!(resolve_in_table(&chain(), 0), 0);
    assert_eq!(resolve_in_table(&chain(), 100), 0);
}

#[test]
fn a_target_after_the_latest_block_resolves_to_the_latest() {
    assert_eq!(resolve_in_table(&chain(), 201), 10);
    assert_eq!(resolve_in_table(&chain(), u64::MAX), 10);
    assert_eq!(resolve_in_table(&[5], 9), 0);
}

#[test]
fn resolution_never_falls_as_the_target_rises() {
    let table = chain();
    let mut last = 0;
    for target in 90..210 {
        let block = resolve_in_table(&table, target);
        assert!(last <= block);
        last = block;
    }
}

#[test]
fn search_asks_for_the_middle_block() {
    let mut search = BlockSearch::new(140, 10);
    assert_eq!(search.next_probe(), Some(5));
    search.observe(156);
    assert_eq!(search, BlockSearch { target: 140, low: 0, high: 5 });
    assert_eq!(search.next_probe(), Some(2));
    search.observe(125);
    assert_eq!(search, BlockSearch { target: 140, low: 3, high: 5 });
    assert_eq!(search.next_probe(), Some(4));
    search.observe(140);
    assert_eq!(search.next_probe(), Some(3));
    search.observe(125);
    assert_eq!(search.next_probe(), None);
    assert_eq!(search.block(), 4);
}

#[test]
fn search_takes_few_probes_on_a_long_chain() {
    let mut search = BlockSearch::new(1_000_000, u64::MAX);
    let mut probes = 0;
    while let Some(block) = search.next_probe() {
        search.observe(block);
        probes += 1;
    }
    assert_eq!(search.block(), 1_000_000);
    assert!(probes <= 64);
}

#[test]
fn a_finished_search_ignores_what_it_is_told() {
    let mut search = BlockSearch::new(7, 0);
    assert_eq!(search.next_probe(), None);
    search.observe(3);
    assert_eq!(search, BlockSearch { target: 7, low: 0, high: 0 });
}
