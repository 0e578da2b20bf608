use wikigraph::partition::compute_split_points;
use wikigraph::partition::partition_bytes;
use wikigraph::partition::PartitionError;
use wikigraph::scan::find_after;

fn bytes(s: &str) -> Vec<u8> {
    s.as_bytes().to_vec()
}

#[test]
fn find_after_reports_end_of_first_occurrence() {
    let data = bytes("aa</p>bb</p>cc");
    let marker = bytes("</p>");
    assert_eq!(find_after(&data, &marker, 0), Some(6));
    assert_eq!(find_after(&data, &marker, 2), Some(6));
    assert_eq!(find_after(&data, &marker, 3), Some(12));
    assert_eq!(find_after(&data, &marker, 9), None);
}

#[test]
fn find_after_sees_marker_across_any_window_size() {
    // A marker that would straddle a 1024-byte read window is still found.
    let mut data = vec![b'x'; 1022];
    data.extend_from_slice(b"</page>");
    data.extend_from_slice(b"yyy");
    let marker = bytes("</page>");
    assert_eq!(find_after(&data, &marker, 0), Some(1029));
}

#[test]
fn split_points_are_marker_aligned() {
    let data = bytes("aa</p>bb</p>cc");
    let marker = bytes("</p>");
    // chunk = 14 / 2 = 7; the first marker at or after offset 7 ends at 12.
    let points = compute_split_points(&data, &marker, 2).unwrap();
    assert_eq!(points, vec![0, 12, 14]);
}

#[test]
fn partition_coverage_concat_reproduces_input() {
    // Six 8-byte records.
    let data = bytes("aaaa</p>bbbb</p>cccc</p>dddd</p>eeee</p>ffff</p>");
    let marker = bytes("</p>");
    for n in 1..=3usize {
        let shards = partition_bytes(&data, &marker, n).unwrap();
        assert_eq!(shards.len(), n);
        let mut joined: Vec<u8> = Vec::new();
        let mut total = 0usize;
        for s in &shards {
            total += s.len();
            joined.extend_from_slice(s);
        }
        assert_eq!(joined, data);
        assert_eq!(total, data.len());
    }
}

#[test]
fn boundary_alignment_of_every_nonfinal_shard() {
    let data = bytes("aaaa</p>bbbb</p>tail");
    let marker = bytes("</p>");
    let shards = partition_bytes(&data, &marker, 2).unwrap();
    assert_eq!(shards.len(), 2);
    for s in &shards[..shards.len() - 1] {
        assert!(s.len() >= marker.len());
        assert_eq!(&s[s.len() - marker.len()..], &marker[..]);
    }
    // The final shard ends exactly at end of input, marker or not.
    assert_eq!(shards[shards.len() - 1], bytes("tail"));
}

#[test]
fn trailing_shard_may_be_empty_when_records_divide_evenly() {
    // Three shards over six records: the second scan lands on the last
    // marker, so the final shard is the empty tail.
    let data = bytes("aaaa</p>bbbb</p>cccc</p>dddd</p>eeee</p>ffff</p>");
    let marker = bytes("</p>");
    let points = compute_split_points(&data, &marker, 3).unwrap();
    assert_eq!(points, vec![0, 24, 48, 48]);
}

#[test]
fn single_shard_is_whole_input() {
    let data = bytes("no marker here");
    let marker = bytes("</page>");
    let shards = partition_bytes(&data, &marker, 1).unwrap();
    assert_eq!(shards.len(), 1);
    assert_eq!(shards[0], data);
}

#[test]
fn missing_boundary_is_reported() {
    let data = bytes("no marker here at all");
    let marker = bytes("</page>");
    assert_eq!(partition_bytes(&data, &marker, 2), Err(PartitionError::BoundaryNotFound));
    assert_eq!(compute_split_points(&data, &marker, 2), Err(PartitionError::BoundaryNotFound));
}

#[test]
fn empty_input_single_shard() {
    let data: Vec<u8> = Vec::new();
    let marker = bytes("</page>");
    let shards = partition_bytes(&data, &marker, 1).unwrap();
    assert_eq!(shards, vec![Vec::<u8>::new()]);
}
