use krapslog::chunks::{chunk_count, merge_chunks, require_timestamps, SMALL_FILE_BYTES};
use krapslog::Error;

fn bad_format() -> Error {
    Error::InvalidFormat(String::from("unclosed group"))
}

#[test]
fn small_files_are_scanned_in_one_part() {
    assert_eq!(SMALL_FILE_BYTES, 10485760);
    assert_eq!(chunk_count(0, 8), 1);
    assert_eq!(chunk_count(10485759, 8), 1);
    assert_eq!(chunk_count(10485760, 8), 8);
    assert_eq!(chunk_count(u64::MAX, 3), 3);
    assert_eq!(chunk_count(u64::MAX, 0), 0);
}

#[test]
fn parts_are_merged_in_their_order() {
    assert_eq!(merge_chunks(&[]), Vec::<i64>::new());
    assert_eq!(
        merge_chunks(&[Ok(vec![5, 1]), Ok(vec![]), Ok(vec![3]), Ok(vec![2, 2])]),
        vec![5, 1, 3, 2, 2]
    );
}

#[test]
fn a_failed_part_adds_nothing() {
    assert_eq!(
        merge_chunks(&[Ok(vec![1]), Err(bad_format()), Ok(vec![2, 3])]),
        vec![1, 2, 3]
    );
    assert_eq!(
        merge_chunks(&[Err(bad_format()), Err(Error::NoMatchingTimestamps)]),
        Vec::<i64>::new()
    );
}

#[test]
fn a_run_needs_timestamps() {
    assert_eq!(require_timestamps(vec![]), Err(Error::NoMatchingTimestamps));
    assert_eq!(require_timestamps(vec![4, 2]), Ok(vec![4, 2]));
    assert_eq!(
        require_timestamps(merge_chunks(&[Err(bad_format())])),
        Err(Error::NoMatchingTimestamps)
    );
}
