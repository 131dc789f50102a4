use csstree::tokenizer::offset_to_location::OffsetToLocation;

#[test]
fn locations_count_lines_and_columns() {
    let mut map = OffsetToLocation::new("ab\ncd".to_string(), 0, 1, 1);
    let expected = [(1, 1), (1, 2), (1, 3), (2, 1), (2, 2), (2, 3)];
    for (offset, (line, column)) in expected.iter().enumerate() {
        let loc = map.get_location(offset, "f.css");
        assert_eq!(loc.source.as_deref(), Some("f.css"));
        assert_eq!(loc.offset, offset);
        assert_eq!((loc.line, loc.column), (*line, *column));
    }
}

#[test]
fn locations_start_from_the_base_position() {
    let mut map = OffsetToLocation::new("x\ny".to_string(), 10, 5, 3);
    let loc = map.get_location(0, "a");
    assert_eq!((loc.offset, loc.line, loc.column), (10, 5, 3));
    let loc = map.get_location(1, "a");
    assert_eq!((loc.offset, loc.line, loc.column), (11, 5, 4));
    let loc = map.get_location(2, "a");
    assert_eq!((loc.offset, loc.line, loc.column), (12, 6, 1));
}

#[test]
fn carriage_return_line_feed_counts_as_two_lines() {
    let mut map = OffsetToLocation::new("a\r\nb".to_string(), 0, 1, 1);
    let loc = map.get_location(2, "");
    assert_eq!((loc.line, loc.column), (2, 1));
    let loc = map.get_location(3, "");
    assert_eq!((loc.line, loc.column), (3, 1));
    let loc = map.get_location(4, "");
    assert_eq!((loc.line, loc.column), (3, 2));
}

#[test]
fn offsets_are_bytes() {
    let mut map = OffsetToLocation::new("\u{e9}\nx".to_string(), 0, 1, 1);
    let loc = map.get_location(2, "");
    assert_eq!((loc.line, loc.column), (1, 3));
    let loc = map.get_location(3, "");
    assert_eq!((loc.line, loc.column), (2, 1));
}

#[test]
fn location_range_names_the_source_once() {
    let mut map = OffsetToLocation::new("ab\ncd".to_string(), 0, 1, 1);
    let range = map.get_location_range(1, 4, "x.css");
    assert_eq!(range.source, "x.css");
    assert!(range.start.source.is_none() && range.end.source.is_none());
    assert_eq!((range.start.offset, range.start.line, range.start.column), (1, 1, 2));
    assert_eq!((range.end.offset, range.end.line, range.end.column), (4, 2, 2));
}

#[test]
fn set_source_recomputes() {
    let mut map = OffsetToLocation::new("a\nb".to_string(), 0, 1, 1);
    let _ = map.get_location(2, "");
    map.set_source("abc".to_string(), 0, 1, 1);
    let loc = map.get_location(2, "");
    assert_eq!((loc.line, loc.column), (1, 3));
}

#[test]
fn start_column_zero_counts_from_zero() {
    let mut map = OffsetToLocation::new("abc".to_string(), 0, 1, 0);
    for k in 0..4 {
        let loc = map.get_location(k, "f");
        assert_eq!((loc.offset, loc.line, loc.column), (k, 1, k));
    }
}

#[test]
fn range_matches_single_lookups() {
    let mut map = OffsetToLocation::new("ab\ncd\ne".to_string(), 3, 2, 0);
    for start in 0..8 {
        for end in start..8 {
            let r = map.get_location_range(start, end, "f");
            let a = map.get_location(start, "f");
            let b = map.get_location(end, "f");
            assert_eq!(r.source, "f");
            assert_eq!((r.start.offset, r.start.line, r.start.column), (a.offset, a.line, a.column));
            assert_eq!((r.end.offset, r.end.line, r.end.column), (b.offset, b.line, b.column));
        }
    }
}
