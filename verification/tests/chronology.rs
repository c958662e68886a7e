use krapslog::chronology::sort_timestamps;

#[test]
fn sort_puts_the_earliest_first() {
    assert_eq!(sort_timestamps(&[]), Vec::<i64>::new());
    assert_eq!(sort_timestamps(&[5]), vec![5]);
    assert_eq!(sort_timestamps(&[3600, 0, 120, 60]), vec![0, 60, 120, 3600]);
    assert_eq!(sort_timestamps(&[2, 1]), vec![1, 2]);
    assert_eq!(
        sort_timestamps(&[0, i64::MAX, -1, i64::MIN, 0]),
        vec![i64::MIN, -1, 0, 0, i64::MAX]
    );
}

#[test]
fn sort_keeps_every_timestamp_as_often_as_given() {
    let timestamps: Vec<i64> = vec![7, 3, 7, 7, 1, 3, 9, 1, 1, 1, 0];
    assert_eq!(sort_timestamps(&timestamps), vec![0, 1, 1, 1, 1, 3, 3, 7, 7, 7, 9]);
    assert_eq!(timestamps, vec![7, 3, 7, 7, 1, 3, 9, 1, 1, 1, 0]);
}

#[test]
fn sort_agrees_with_the_standard_sort() {
    let mut state: u64 = 0x2545F4914F6CDD1D;
    for length in 0..70usize {
        let mut timestamps: Vec<i64> = Vec::new();
        for _ in 0..length {
            state ^= state << 13;
            state ^= state >> 7;
            state ^= state << 17;
            timestamps.push((state % 50) as i64 - 25);
        }
        let mut expected = timestamps.clone();
        expected.sort();
        assert_eq!(sort_timestamps(&timestamps), expected);
    }
}

#[test]
fn sort_leaves_sorted_timestamps_as_they_are() {
    let timestamps: Vec<i64> = (0..1000).collect();
    assert_eq!(sort_timestamps(&timestamps), timestamps);
    let reversed: Vec<i64> = (0..1000).rev().collect();
    assert_eq!(sort_timestamps(&reversed), timestamps);
}
