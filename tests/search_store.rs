use biodiff::search::{
    map_both, transpose_both, unwrap_both, CursorActive, Query, QueryType, SearchPair,
    SearchResults,
};

fn store(ranges: &[(usize, usize)]) -> SearchResults {
    let mut s = SearchResults::new(Query::new(QueryType::Text, "x").unwrap());
    for &(a, b) in ranges {
        assert!(s.can_add(&(a..b)));
        s.add_match(a..b);
    }
    s
}

#[test]
fn search_wrap_around() {
    let s = store(&[(10, 12)]);
    assert_eq!(s.next_result(15), Some(Err(10..12)));
    assert_eq!(s.prev_result(5), Some(Err(10..12)));
    assert_eq!(s.next_result(8), Some(Ok(10..12)));
    assert_eq!(s.prev_result(12), Some(Ok(10..12)));
    assert_eq!(s.next_result(10), Some(Err(10..12)));
}

#[test]
fn empty_store_has_no_result() {
    let s = store(&[]);
    assert_eq!(s.next_result(0), None);
    assert_eq!(s.prev_result(0), None);
    assert!(!s.is_in_result(Some(0)));
}

#[test]
fn is_in_result_matches_ranges() {
    let s = store(&[(2, 4), (5, 5), (7, 9)]);
    let inside: Vec<usize> = (0..12).filter(|&a| s.is_in_result(Some(a))).collect();
    assert_eq!(inside, vec![2, 3, 7, 8]);
    assert!(!s.is_in_result(None));
}

#[test]
fn next_and_prev_pick_neighbours() {
    let s = store(&[(2, 4), (7, 9), (20, 25)]);
    assert_eq!(s.next_result(2), Some(Ok(7..9)));
    assert_eq!(s.next_result(19), Some(Ok(20..25)));
    assert_eq!(s.next_result(20), Some(Err(2..4)));
    assert_eq!(s.prev_result(9), Some(Ok(7..9)));
    assert_eq!(s.prev_result(8), Some(Ok(2..4)));
    assert_eq!(s.prev_result(3), Some(Err(20..25)));
}

#[test]
fn overlapping_match_is_refused() {
    let s = store(&[(2, 6)]);
    assert!(!s.can_add(&(4..8)));
    assert!(!s.can_add(&(1..3)));
    assert!(!s.can_add(&(2..2)));
    assert!(!s.can_add(&(9..8)));
    assert!(s.can_add(&(6..8)));
    assert!(s.can_add(&(1..2)));
}

#[test]
fn match_inserted_at_its_place() {
    let mut s = store(&[(10, 12), (20, 22)]);
    assert!(s.can_add(&(14..16)));
    s.add_match(14..16);
    assert!(s.can_add(&(0..3)));
    s.add_match(0..3);
    assert!(!s.can_add(&(15..18)));
    assert_eq!(s.next_result(3), Some(Ok(10..12)));
    assert_eq!(s.next_result(12), Some(Ok(14..16)));
    assert_eq!(s.prev_result(17), Some(Ok(14..16)));
    assert_eq!(s.prev_result(2), Some(Err(20..22)));
    assert_eq!(s.next_result(25), Some(Err(0..3)));
    assert!(s.is_in_result(Some(15)));
    assert!(s.is_in_result(Some(0)));
    assert!(!s.is_in_result(Some(16)));
}

#[test]
fn unwrapped_candidate_first() {
    assert_eq!(SearchResults::nearest_next_result(&vec![Err(1), Ok(50)]), Some(50));
    assert_eq!(SearchResults::nearest_prev_result(&vec![Err(100), Ok(3)]), Some(3));
    assert_eq!(SearchResults::nearest_prev_result(&vec![Ok(3), Ok(7)]), Some(7));
    assert_eq!(SearchResults::nearest_prev_result(&vec![Err(3), Err(7)]), Some(7));
    assert_eq!(SearchResults::nearest_next_result(&vec![Err(3), Err(7)]), Some(3));
}

#[test]
fn both_helpers() {
    let r: Result<i32, i32> = Err(4);
    assert_eq!(map_both(r, |x| x * 2), Err(8));
    assert_eq!(map_both(Ok::<i32, i32>(1), |x| x + 1), Ok(2));
    assert_eq!(transpose_both(Ok::<Option<i32>, Option<i32>>(Some(3))), Some(Ok(3)));
    assert_eq!(transpose_both(Err::<Option<i32>, Option<i32>>(None)), None);
    assert_eq!(unwrap_both(Err::<i32, i32>(9)), 9);
}

#[test]
fn query_kinds_compile() {
    assert!(Query::new(QueryType::Regex, "(").is_err());
    let t = Query::new(QueryType::Text, "(").unwrap();
    assert_eq!(t.text(), "(");
    assert!(t.compiled().is_match(b"a(b"));
    assert!(!t.compiled().is_match(b"ab"));
    let h = Query::new(QueryType::Hexagex, "ff").unwrap();
    assert_eq!(h.query_type(), QueryType::Hexagex);
    assert!(h.compiled().is_match(&[0x00, 0xff]));
    assert!(!h.compiled().is_match(b"ff"));
}

#[test]
fn search_pair_selection() {
    let mut p = SearchPair(None, None);
    let q = Query::new(QueryType::Text, "a").unwrap();
    let (c, other) = p.setup_search(q.duplicate(), CursorActive::Second);
    assert!(!c.first && other.is_none());
    assert!(p.0.is_none() && p.1.is_some());
    assert_eq!(p.current_search_query(CursorActive::First).unwrap().text(), "a");
    let (c, other) = p.setup_search(q.duplicate(), CursorActive::Neither);
    assert!(c.first && !other.unwrap().first);
    p.1.as_mut().unwrap().add_match(3..5);
    assert_eq!(p.is_in_result([Some(3), Some(3)]), [false, true]);
    p.clear(CursorActive::First);
    assert!(p.0.is_none() && p.1.is_some());
    p.clear(CursorActive::Both);
    assert!(p.1.is_none());
    assert!(p.current_search_query(CursorActive::Both).is_none());
}

#[test]
fn text_query_is_escaped() {
    let t = Query::new(QueryType::Text, "a.b").unwrap();
    assert!(t.compiled().is_match(b"xa.by"));
    assert!(!t.compiled().is_match(b"axb"));
    let r = Query::new(QueryType::Regex, "a.b").unwrap();
    assert!(r.compiled().is_match(b"axb"));
}

#[test]
fn hexagex_with_carriage_return_is_refused() {
    assert!(Query::new(QueryType::Hexagex, "\\t\r\nI").is_err());
    assert!(Query::new(QueryType::Hexagex, "0d\r").is_err());
    assert!(Query::new(QueryType::Text, "\r").is_ok());
    assert!(Query::new(QueryType::Hexagex, "0d").is_ok());
}
