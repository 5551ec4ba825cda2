use parse_tcp::range_set::RangeSet;

/// All stored ranges are non-empty, sorted, and neither overlap nor touch.
fn ensure_consistency(rs: &RangeSet) {
    let ranges = rs.iter();
    assert!(ranges.len() > 0);
    let mut last_end = ranges[0].1;
    assert!(ranges[0].0 < ranges[0].1);
    for &(start, end) in &ranges[1..] {
        assert!(start > last_end);
        assert!(start < end);
        last_end = end;
    }
}

#[test]
fn range_set_insert_distinct_range() {
    let mut rs = RangeSet::unlimited();
    assert!(rs.insert_range(0, 10));
    assert!(rs.insert_range(20, 30));
    assert!(rs.insert_range(40, 50));
    assert!(rs.insert_range(60, 70));
    assert!(rs.insert_range(80, 90));

    assert!(rs.has_value(0));
    assert!(rs.has_value(1));
    assert!(!rs.has_value(10));
    assert!(!rs.has_value(15));

    assert!(rs.has_range(0, 10));
    assert!(rs.has_range(3, 8));
    assert!(!rs.has_range(0, 30));
    assert!(!rs.has_range(12, 18));

    assert_eq!(rs.peek_first(), Some((0, 10)));

    ensure_consistency(&rs);
}

#[test]
fn range_set_insert_overlapping_range() {
    let mut rs = RangeSet::unlimited();
    // overlapping ranges
    assert!(rs.insert_range(0, 10));
    assert!(rs.insert_range(5, 15));
    assert_eq!(rs.peek_last(), Some((0, 15)));
    assert!(rs.insert_range(30, 40));
    assert!(rs.insert_range(25, 35));
    assert_eq!(rs.peek_last(), Some((25, 40)));
    // adjacent ranges should be merged
    assert!(rs.insert_range(50, 60));
    assert!(rs.insert_range(60, 70));
    assert_eq!(rs.peek_last(), Some((50, 70)));
    assert!(rs.insert_range(90, 100));
    assert!(rs.insert_range(80, 90));
    assert_eq!(rs.peek_last(), Some((80, 100)));
    assert!(!rs.has_value(75));
    assert!(rs.insert_range(70, 80));
    assert_eq!(rs.peek_last(), Some((50, 100)));
    assert!(rs.insert_range(100, 101));
    assert_eq!(rs.peek_last(), Some((50, 101)));

    assert!(rs.has_value(0));
    assert!(rs.has_value(8));
    assert!(rs.has_value(60));

    assert!(!rs.has_value(20));

    assert!(rs.has_range(0, 10));
    assert!(rs.has_range(0, 15));
    assert!(rs.has_range(5, 15));
    assert!(rs.has_range(10, 15));
    assert!(rs.has_range(55, 65));
    assert!(rs.has_range(85, 95));

    ensure_consistency(&rs);
}

#[test]
fn range_set_remove_until() {
    let mut rs = RangeSet::unlimited();
    assert!(rs.insert_range(0, 10));
    assert!(rs.insert_range(20, 30));
    assert!(rs.insert_range(40, 50));
    assert!(rs.insert_range(60, 70));
    assert!(rs.insert_range(80, 90));

    rs.remove_range(0, 15);
    assert_eq!(rs.peek_first(), Some((20, 30)));

    rs.remove_range(0, 25);
    assert_eq!(rs.peek_first(), Some((25, 30)));

    ensure_consistency(&rs);
}

#[test]
fn range_set_limits() {
    let mut rs = RangeSet::new(5);
    assert!(rs.insert_range(0, 10));
    assert!(rs.insert_range(20, 30));
    assert!(rs.insert_range(40, 50));
    assert!(rs.insert_range(60, 70));
    assert!(rs.insert_range(80, 90));
    assert_eq!(rs.len(), 5);

    assert!(!rs.insert_range(100, 110));
    assert_eq!(rs.len(), 5);

    assert!(rs.insert_range(10, 15));
    assert_eq!(rs.len(), 5);
    assert_eq!(rs.peek_first(), Some((0, 15)));

    assert!(rs.insert_range(69, 81));
    assert_eq!(rs.peek_last(), Some((60, 90)));
    assert_eq!(rs.len(), 4);

    ensure_consistency(&rs);
}

#[test]
fn range_set_remove_range() {
    let mut rs = RangeSet::unlimited();
    assert!(rs.insert_range(0, 10));
    assert!(rs.insert_range(20, 30));
    assert!(rs.insert_range(40, 50));

    assert_eq!(rs.remove_range(5, 45), 3);
    assert_eq!(rs.len(), 2);
    assert_eq!(rs.peek_first(), Some((0, 5)));
    assert_eq!(rs.peek_last(), Some((45, 50)));

    rs.remove_range(0, 100);
    assert_eq!(rs.len(), 0);

    assert!(rs.insert_range(0, 100));
    assert_eq!(rs.remove_range(25, 75), 1);
    assert_eq!(rs.len(), 2);
    assert_eq!(rs.peek_first(), Some((0, 25)));
    assert_eq!(rs.peek_last(), Some((75, 100)));

    assert_eq!(rs.remove_range(75, 100), 1);
    assert_eq!(rs.len(), 1);
    assert_eq!(rs.peek_first(), Some((0, 25)));

    assert!(rs.insert_range(50, 75));
    assert!(rs.insert_range(80, 100));
    assert!(rs.insert_range(120, 150));
    assert_eq!(rs.remove_range(60, 90), 2);

    assert_eq!(rs.len(), 4);
    assert_eq!(rs.peek_first(), Some((0, 25)));
    assert_eq!(rs.peek_last(), Some((120, 150)));
    assert!(rs.has_range(50, 60));
    assert!(rs.has_range(90, 100));
    assert!(!rs.has_value(60));
    assert!(!rs.has_value(70));
    assert!(rs.has_value(90));

    ensure_consistency(&rs);
}

#[test]
fn iter_range() {
    let mut rs = RangeSet::unlimited();
    rs.insert_range(1, 3);
    rs.insert_range(4, 6);
    assert_eq!(rs.iter_range(2, 5), vec![(1, 3), (4, 6)]);
    rs.insert_range(10, 15);
    assert_eq!(rs.iter_range(9, 11), vec![(10, 15)]);
    rs.insert_range(16, 25);
    assert_eq!(rs.iter_range(13, 20), vec![(10, 15), (16, 25)]);
    assert_eq!(rs.iter_range(15, 17), vec![(16, 25)]);
}

#[test]
fn range_complement() {
    let mut rs = RangeSet::unlimited();
    rs.insert_range(1, 3);
    rs.insert_range(4, 6);
    rs.insert_range(10, 15);
    rs.insert_range(16, 20);
    assert_eq!(rs.range_complement(2, 17), vec![(3, 4), (6, 10), (15, 16)]);
    assert_eq!(rs.range_complement(11, 13), vec![]);
    assert_eq!(rs.range_complement(6, 10), vec![(6, 10)]);
    assert_eq!(rs.range_complement(6, 13), vec![(6, 10)]);
}

#[test]
fn range_set_adjacent_merge_pair() {
    // inserting [5, 8) and then the adjacent [8, 12) leaves one range
    let mut rs = RangeSet::unlimited();
    assert!(rs.insert_range(5, 8));
    assert!(rs.insert_range(8, 12));
    assert_eq!(rs.iter(), vec![(5, 12)]);
    // the merge also happens when the later range comes first
    let mut rs2 = RangeSet::unlimited();
    assert!(rs2.insert_range(8, 12));
    assert!(rs2.insert_range(5, 8));
    assert_eq!(rs2.iter(), vec![(5, 12)]);
}

#[test]
fn range_set_remove_until_from_first() {
    let mut rs = RangeSet::new(usize::MAX);
    assert!(rs.insert_range(0, 10));
    assert!(rs.insert_range(20, 30));
    rs.remove_until_from_first(15);
    assert_eq!(rs.peek_first(), Some((20, 30)));
    rs.remove_until_from_first(25);
    assert_eq!(rs.peek_first(), Some((25, 30)));
    ensure_consistency(&rs);
}
