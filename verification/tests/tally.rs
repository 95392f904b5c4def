use tbunread::tally::Tally;

fn add(tally: &mut Tally, account: &str, count: usize) -> bool {
    tally.add(account.to_string(), count)
}

#[test]
fn empty_tally_gives_empty_snapshot() {
    let count = Tally::new().finish();
    assert_eq!(count.totals(), &Vec::<usize>::new());
    assert_eq!(count.display(), "");
}

#[test]
fn totals_come_out_in_the_order_of_the_accounts() {
    let mut tally = Tally::new();
    assert!(add(&mut tally, "carol", 3));
    assert!(add(&mut tally, "alice", 1));
    assert!(add(&mut tally, "dave", 4));
    assert!(add(&mut tally, "bob", 2));
    assert_eq!(tally.finish().totals(), &vec![1, 2, 3, 4]);
}

#[test]
fn counts_of_one_account_add_up() {
    let mut tally = Tally::new();
    assert!(add(&mut tally, "bob", 2));
    assert!(add(&mut tally, "alice", 1));
    assert!(add(&mut tally, "bob", 20));
    assert!(add(&mut tally, "alice", 10));
    assert!(add(&mut tally, "bob", 200));
    assert_eq!(tally.finish().totals(), &vec![11, 222]);
}

#[test]
fn account_with_nothing_unread_has_an_entry() {
    let mut tally = Tally::new();
    assert!(add(&mut tally, "alice", 0));
    assert!(add(&mut tally, "bob", 7));
    assert!(add(&mut tally, "alice", 0));
    assert_eq!(tally.finish().display(), "0 7");
}

#[test]
fn total_may_reach_the_largest_usize() {
    let mut tally = Tally::new();
    assert!(add(&mut tally, "alice", usize::MAX - 1));
    assert!(add(&mut tally, "alice", 1));
    assert!(add(&mut tally, "alice", 0));
    assert_eq!(tally.finish().totals(), &vec![usize::MAX]);
}

#[test]
fn total_beyond_the_largest_usize_is_refused_and_nothing_changes() {
    let mut tally = Tally::new();
    assert!(add(&mut tally, "bob", 5));
    assert!(add(&mut tally, "alice", usize::MAX));
    assert!(!add(&mut tally, "alice", 1));
    assert!(!add(&mut tally, "bob", usize::MAX - 4));
    assert!(add(&mut tally, "bob", usize::MAX - 5));
    assert!(add(&mut tally, "carol", usize::MAX));
    assert_eq!(tally.finish().totals(), &vec![usize::MAX, usize::MAX, usize::MAX]);
}

#[test]
fn accounts_that_differ_in_case_are_two_accounts() {
    let mut tally = Tally::new();
    assert!(add(&mut tally, "alice", 1));
    assert!(add(&mut tally, "Alice", 2));
    assert!(add(&mut tally, "", 3));
    assert_eq!(tally.finish().totals(), &vec![3, 2, 1]);
}

#[test]
fn many_accounts_stay_sorted() {
    let mut tally = Tally::new();
    let mut expected = Vec::new();
    let mut seed: usize = 12345;
    for _ in 0..300 {
        seed = seed.wrapping_mul(6364136223846793005).wrapping_add(1442695040888963407);
        let account = format!("acct{}", (seed >> 33) % 50);
        let count = (seed >> 20) % 1000;
        assert!(tally.add(account.clone(), count));
        expected.push((account, count));
    }
    let mut sums = std::collections::BTreeMap::new();
    for (account, count) in expected {
        *sums.entry(account).or_insert(0usize) += count;
    }
    let wanted: Vec<usize> = sums.into_values().collect();
    assert_eq!(tally.finish().totals(), &wanted);
}
