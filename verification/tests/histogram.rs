use krapslog::histogram::{bin_of, bucket_of, time_span};
use krapslog::sparkline::{count_range, glyph_index};
use krapslog::{
    bin_timestamps, build_binned_sparkline, build_sparkline, render_sparkline, sparkline,
    timestamp_frequency_distribution, Error,
};

#[test]
fn timestamp_frequency_distribution_() {
    let timestamps = vec![1, 2, 3, 4, 5];
    let bins = timestamp_frequency_distribution(&timestamps, 5);
    assert_eq!(bins, [1, 1, 1, 1, 1]);

    let timestamps = vec![1, 2, 3, 4, 5, 6];
    let bins = timestamp_frequency_distribution(&timestamps, 3);
    assert_eq!(bins, [2, 2, 2]);
}

#[test]
fn bin_timestamps_() {
    let timestamps = vec![1, 2, 3, 4, 5];
    let bins = bin_timestamps(&timestamps, 5);
    assert_eq!(bins, [1, 1, 1, 1, 1]);

    let timestamps = vec![1, 2, 3, 4, 5, 6];
    let bins = bin_timestamps(&timestamps, 3);
    assert_eq!(bins, [2, 2, 2]);
}

#[test]
fn test_sparkline() {
    let (min, max) = (0.0, 10.0);
    let values = vec![0.0, 2.0, 3.0, 2.0, 6.0, 9.0, 10.0];
    let s: Vec<_> = values
        .iter()
        .map(|v: &f64| sparkline(min as usize, max as usize, *v as usize))
        .collect();
    assert_eq!(s, &["▁", "▂", "▃", "▂", "▅", "█", "█"]);
}

#[test]
fn distribution_counts_every_timestamp_once() {
    let timestamps: Vec<i64> = vec![17, 3, 99, 42, 42, 58, 3, 77, 100, 1];
    for bucket_count in 1..=25usize {
        let bins = timestamp_frequency_distribution(&timestamps, bucket_count);
        assert_eq!(bins.len(), bucket_count);
        assert_eq!(bins.iter().sum::<usize>(), timestamps.len());
    }
}

#[test]
fn distribution_of_equal_timestamps_fills_the_first_bucket() {
    let timestamps: Vec<i64> = vec![1574490400; 6];
    assert_eq!(timestamp_frequency_distribution(&timestamps, 4), [6, 0, 0, 0]);
    assert_eq!(timestamp_frequency_distribution(&timestamps, 1), [6]);
    assert_eq!(timestamp_frequency_distribution(&[7], 3), [1, 0, 0]);
}

#[test]
fn distribution_puts_the_latest_timestamp_in_the_last_bucket() {
    let bins = timestamp_frequency_distribution(&[0, 10], 4);
    assert_eq!(bins, [1, 0, 0, 1]);
    let bins = timestamp_frequency_distribution(&[0, 5, 10], 2);
    assert_eq!(bins, [1, 2]);
}

#[test]
fn distribution_takes_the_whole_range_of_seconds() {
    let bins = timestamp_frequency_distribution(&[i64::MIN, -1, 0, i64::MAX], 2);
    assert_eq!(bins, [2, 2]);
    let bins = timestamp_frequency_distribution(&[i64::MAX, i64::MIN], 1);
    assert_eq!(bins, [2]);
}

#[test]
fn distribution_does_not_depend_on_the_order() {
    let sorted = timestamp_frequency_distribution(&[1, 2, 3, 4, 5, 6, 7, 8, 9], 4);
    let shuffled = timestamp_frequency_distribution(&[9, 1, 8, 2, 7, 3, 6, 4, 5], 4);
    assert_eq!(sorted, shuffled);
    assert_eq!(sorted, [2, 2, 2, 3]);
}

#[test]
fn bucket_of_scales_the_offset() {
    assert_eq!(bucket_of(1, 1, 5, 5), 0);
    assert_eq!(bucket_of(2, 1, 5, 5), 1);
    assert_eq!(bucket_of(4, 1, 5, 5), 3);
    assert_eq!(bucket_of(5, 1, 5, 5), 4);
    assert_eq!(bucket_of(3, 3, 3, 5), 0);
    assert_eq!(bucket_of(549, 0, 549, 80), 79);
    assert_eq!(bucket_of(244, 0, 549, 80), 35);
}

#[test]
fn bin_of_divides_by_whole_seconds() {
    assert_eq!(bin_of(549, 0, 549, 80), 78);
    assert_eq!(bin_of(244, 0, 549, 80), 34);
    assert_eq!(bin_of(6, 1, 6, 3), 2);
    assert_eq!(bin_of(4, 4, 4, 3), 0);
}

#[test]
fn bins_put_the_latest_timestamp_in_the_last_bucket() {
    assert_eq!(bin_timestamps(&[0, 10], 5), [1, 0, 0, 0, 1]);
    assert_eq!(bin_timestamps(&[1, 5], 2), [1, 1]);
    assert_eq!(bin_timestamps(&[0, 1, 2, 3, 4, 5, 6], 3), [2, 2, 3]);
    assert_eq!(bin_timestamps(&[i64::MIN, i64::MAX], 1), [2]);
    assert_eq!(bin_of(10, 0, 10, 5), 4);
    assert_eq!(bin_of(9, 0, 10, 5), 4);
    assert_eq!(bin_of(7, 0, 10, 5), 3);
    assert_eq!(bin_of(50, 0, 10, 5), 4);
    assert_eq!(bin_of(-3, 0, 10, 5), 0);
    assert_eq!(build_binned_sparkline(&[0, 10], 5).unwrap(), "█▁▁▁█");
}

#[test]
fn bins_count_every_timestamp_once() {
    let timestamps: Vec<i64> = vec![17, 3, 99, 42, 42, 58, 3, 77, 100, 1];
    for length in 1..=120usize {
        let bins = bin_timestamps(&timestamps, length);
        assert_eq!(bins.len(), length);
        assert_eq!(bins.iter().sum::<usize>(), timestamps.len());
    }
}

#[test]
fn bins_of_equal_timestamps_fill_the_first_bucket() {
    assert_eq!(bin_timestamps(&[5, 5, 5], 4), [3, 0, 0, 0]);
}

#[test]
fn time_span_finds_both_ends() {
    assert_eq!(time_span(&[4, -2, 9, 0]), (-2, 9));
    assert_eq!(time_span(&[3]), (3, 3));
}

#[test]
fn glyph_index_is_the_share_in_eighths() {
    assert_eq!(glyph_index(0, 10, 0), 0);
    assert_eq!(glyph_index(0, 10, 1), 0);
    assert_eq!(glyph_index(0, 10, 2), 1);
    assert_eq!(glyph_index(0, 10, 5), 4);
    assert_eq!(glyph_index(0, 10, 9), 7);
    assert_eq!(glyph_index(0, 10, 10), 7);
    assert_eq!(glyph_index(3, 11, 4), 1);
    assert_eq!(glyph_index(0, 8, 7), 7);
    assert_eq!(glyph_index(0, 16, 13), 6);
}

#[test]
fn glyph_index_of_a_flat_scale_is_the_lowest() {
    assert_eq!(glyph_index(4, 4, 4), 0);
    assert_eq!(glyph_index(0, 0, 0), 0);
    assert_eq!(glyph_index(4, 4, 9), 0);
    assert_eq!(glyph_index(9, 4, 6), 0);
}

#[test]
fn glyph_index_never_falls_as_the_count_grows() {
    for (min, max) in [(0usize, 1usize), (0, 7), (2, 100), (5, 5), (0, usize::MAX)] {
        let mut previous = 0;
        for count in 0..=120usize {
            let level = glyph_index(min, max, count);
            assert!(level < 8);
            assert!(previous <= level);
            previous = level;
        }
    }
    assert_eq!(glyph_index(0, usize::MAX, usize::MAX), 7);
    assert_eq!(glyph_index(0, usize::MAX, usize::MAX / 2), 3);
}

#[test]
fn render_sparkline_scales_between_the_lowest_and_the_highest() {
    assert_eq!(render_sparkline(&[]), "");
    assert_eq!(render_sparkline(&[3]), "▁");
    assert_eq!(render_sparkline(&[2, 2, 2]), "▁▁▁");
    assert_eq!(render_sparkline(&[0, 1]), "▁█");
    assert_eq!(render_sparkline(&[1, 2, 3, 4, 5, 6, 7, 8, 9]), "▁▂▃▄▅▆▇██");
    assert_eq!(render_sparkline(&[10, 14, 18]), "▁▅█");
    assert_eq!(count_range(&[10, 14, 18, 3]), (3, 18));
    assert_eq!(count_range(&[]), (0, 0));
}

#[test]
fn sparkline_has_one_character_for_each_column() {
    let timestamps: Vec<i64> = vec![5, 1, 9, 9, 9, 2, 30, 31, 32, 60];
    for width in [1usize, 2, 3, 10, 80, 200] {
        let line = build_sparkline(&timestamps, width).unwrap();
        assert_eq!(line.chars().count(), width);
    }
    assert_eq!(build_sparkline(&timestamps, 4).unwrap(), "█▁▂▁");
}

#[test]
fn sparkline_of_single_occupancy_has_only_the_two_end_levels() {
    let timestamps: Vec<i64> = (0..10).map(|i| 1574490400 + i).collect();
    let line = build_sparkline(&timestamps, 80).unwrap();
    assert_eq!(line.chars().count(), 80);
    assert!(line.chars().all(|c| c == '▁' || c == '█'));
    assert_eq!(line.chars().filter(|c| *c == '█').count(), 10);
}

#[test]
fn binned_sparkline_shows_whole_second_buckets() {
    assert_eq!(bin_timestamps(&[0, 1, 2, 3, 4, 5, 6, 7, 7], 3), [3, 3, 3]);
    assert_eq!(build_binned_sparkline(&[0, 1, 2, 3, 4, 5, 6, 7, 7], 3).unwrap(), "▁▁▁");
    assert_eq!(timestamp_frequency_distribution(&[0, 1, 2, 3, 4, 5, 6, 7, 7], 3), [3, 2, 4]);
    assert_eq!(build_sparkline(&[0, 1, 2, 3, 4, 5, 6, 7, 7], 3).unwrap(), "▅▁█");
    assert_eq!(build_binned_sparkline(&[4, 4], 3).unwrap(), "█▁▁");
    assert_eq!(build_binned_sparkline(&[], 3), Err(Error::NoMatchingTimestamps));
}

#[test]
fn sparkline_without_timestamps_is_an_error() {
    assert_eq!(build_sparkline(&[], 80), Err(Error::NoMatchingTimestamps));
    assert_eq!(
        Error::NoMatchingTimestamps.message(),
        "Found no lines with a matching timestamp"
    );
}
