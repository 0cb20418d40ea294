use raftchat::quorum::{count_at_least_exec, kth_largest};

#[test]
fn kth_largest_matches_sorting() {
    let v = vec![5, 1, 9, 3, 9];
    let mut sorted = v.clone();
    sorted.sort_by(|a, b| b.cmp(a));
    for k in 1..=v.len() {
        assert_eq!(kth_largest(&v, k), sorted[k - 1]);
    }
}

#[test]
fn counts_elements_at_least() {
    assert_eq!(count_at_least_exec(&vec![5, 1, 9, 3, 9], 5), 3);
    assert_eq!(count_at_least_exec(&vec![], 0), 0);
}
