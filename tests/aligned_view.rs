use biodiff::aligned::{AlignElement, Aligned, AlignedMessage, ColumnSetting, FileState};
use biodiff::backend::Action;
use biodiff::cursor::Cursor;
use biodiff::search::{Query, QueryType, SearchResults};

fn cell(x: usize, xb: Option<u8>, y: usize, yb: Option<u8>) -> AlignElement {
    AlignElement { xaddr: x, xbyte: xb, yaddr: y, ybyte: yb }
}

fn file(name: &str, index: usize, search: Option<SearchResults>) -> FileState {
    FileState { name: name.to_string(), content: vec![0u8; 256], index, search }
}

fn view(cols: usize, rows: usize) -> Aligned {
    Aligned::new(file("a", 0, None), file("b", 0, None), Cursor::new(cols, rows))
}

fn difference_cells() -> Vec<AlignElement> {
    vec![
        cell(0, Some(0xAA), 0, Some(0xAA)),
        cell(1, Some(0xBB), 1, Some(0xCC)),
        cell(2, Some(0xDD), 1, None),
        cell(3, Some(0xEE), 2, Some(0xDD)),
    ]
}

#[test]
fn difference_jump_over_insertion() {
    let mut v = view(4, 2);
    v.append(difference_cells());
    assert_eq!(v.cursor_index(), 0);
    v.jump_next_difference(true, false);
    assert_eq!(v.cursor_index(), 1);
    v.jump_next_difference(true, false);
    assert_eq!(v.cursor_index(), 2);

    let mut w = view(4, 2);
    w.append(difference_cells());
    w.jump_next_difference(true, true);
    assert_eq!(w.cursor_index(), 2);
}

#[test]
fn difference_jump_clamps_at_ends() {
    let mut v = view(4, 2);
    v.append(difference_cells());
    v.jump_next_difference(true, false);
    v.jump_next_difference(true, false);
    v.jump_next_difference(true, false);
    assert_eq!(v.cursor_index(), 3);
    v.jump_next_difference(true, false);
    assert_eq!(v.cursor_index(), 3);
    v.jump_next_difference(false, true);
    assert_eq!(v.cursor_index(), 2);
    v.jump_next_difference(false, true);
    assert_eq!(v.cursor_index(), 0);
}

#[test]
fn difference_jump_on_empty_buffer_stays() {
    let mut v = view(4, 2);
    v.jump_next_difference(true, false);
    assert_eq!(v.cursor_index(), 0);
}

fn store_with(q: &Query, ranges: &[(usize, usize)]) -> SearchResults {
    let mut s = SearchResults::new(q.duplicate());
    for &(a, b) in ranges {
        s.add_match(a..b);
    }
    s
}

fn linear_cells(n: usize, x0: usize, y0: usize) -> Vec<AlignElement> {
    (0..n).map(|i| cell(x0 + i, Some(1), y0 + i, Some(1))).collect()
}

#[test]
fn cross_pane_nearest() {
    let q = Query::new(QueryType::Text, "a").unwrap();
    let left = store_with(&q, &[(100, 101)]);
    let right = store_with(&q, &[(50, 51)]);
    let mut v = Aligned::new(file("a", 0, Some(left)), file("b", 0, Some(right)), Cursor::new(8, 8));
    v.append(linear_cells(40, 70, 25));
    v.goto_index(10);
    assert_eq!(v.cursor_index(), 10);
    v.jump_next_search_result();
    assert_eq!(v.cursor_index(), 25);

    let left = store_with(&q, &[(100, 101)]);
    let right = store_with(&q, &[]);
    let mut w = Aligned::new(file("a", 0, Some(left)), file("b", 0, Some(right)), Cursor::new(8, 8));
    w.append(linear_cells(40, 70, 25));
    w.goto_index(10);
    w.jump_next_search_result();
    assert_eq!(w.cursor_index(), 30);
}

#[test]
fn cross_pane_nearest_selector() {
    assert_eq!(SearchResults::nearest_next_result(&vec![Ok(30), Ok(25)]), Some(25));
    assert_eq!(SearchResults::nearest_next_result(&vec![Ok(30)]), Some(30));
    assert_eq!(SearchResults::nearest_next_result(&vec![]), None);
}

#[test]
fn previous_search_result_wraps() {
    let q = Query::new(QueryType::Text, "a").unwrap();
    let left = store_with(&q, &[(75, 76)]);
    let mut v = Aligned::new(file("a", 0, Some(left)), file("b", 0, None), Cursor::new(8, 8));
    v.append(linear_cells(40, 70, 25));
    v.goto_index(3);
    v.jump_prev_search_result();
    assert_eq!(v.cursor_index(), 5);
    v.goto_index(2);
    v.jump_prev_search_result();
    assert_eq!(v.cursor_index(), 5);
}

#[test]
fn prepend_under_viewport() {
    let mut v = view(10, 1);
    assert!(v.append(linear_cells(20, 0, 0)));
    let hi = v.bounds().end;
    assert_eq!(v.view_start(), 0);
    let changed = v.prepend(linear_cells(5, 0, 0));
    assert!(!changed);
    assert_eq!(v.bounds(), -5..hi);
    assert_eq!(v.view_start(), 0);
}

#[test]
fn process_action_reports_redraw() {
    let mut v = view(10, 1);
    assert!(v.process_action(AlignedMessage::Append(linear_cells(3, 0, 0))));
    assert!(!v.process_action(AlignedMessage::Prepend(linear_cells(3, 0, 0))));
    assert!(v.process_action(AlignedMessage::from(Action::Refresh)));
    assert!(!v.process_action(AlignedMessage::from(Action::Quit)));
    assert!(!v.process_action(AlignedMessage::Append(vec![])));
    assert!(v.process_action(AlignedMessage::from(Action::Right)));
    assert_eq!(v.cursor_index(), 1);
    assert!(v.process_action(AlignedMessage::from(Action::Bottom)));
    assert_eq!(v.cursor_index(), 2);
    assert!(v.process_action(AlignedMessage::from(Action::Top)));
    assert_eq!(v.cursor_index(), -3);
}

#[test]
fn query_equality_ignores_compiled_regex() {
    let q1 = Query::new(QueryType::Regex, "a").unwrap();
    let q2 = Query::new(QueryType::Regex, "a").unwrap();
    assert!(q1 == q2);
    assert!(q1 != Query::new(QueryType::Text, "a").unwrap());
    let mut v = view(4, 4);
    v.append(linear_cells(8, 0, 0));
    v.setup_search(q2);
    v.add_search_results(q1, vec![Some(1..3), None], true);
    let content = v.get_content();
    let first = &content[0].bytes;
    assert_eq!(first[0].0.unwrap().is_search_result, false);
    assert_eq!(first[1].0.unwrap().is_search_result, true);
    assert_eq!(first[2].0.unwrap().is_search_result, true);
    assert_eq!(first[3].0.unwrap().is_search_result, false);
    assert_eq!(first[1].1.unwrap().is_search_result, false);
}

#[test]
fn stale_batch_is_dropped() {
    let mut v = view(4, 4);
    v.append(linear_cells(8, 0, 0));
    v.setup_search(Query::new(QueryType::Text, "b").unwrap());
    v.add_search_results(Query::new(QueryType::Text, "a").unwrap(), vec![Some(1..3)], true);
    let content = v.get_content();
    assert_eq!(content[0].bytes[1].0.unwrap().is_search_result, false);
}

#[test]
fn goto_forward_success() {
    let mut v = view(8, 4);
    v.append(linear_cells(30, 25, 3));
    assert!(v.goto(false, 42).is_ok());
    assert_eq!(v.cursor_index(), 17);
    assert_eq!(v.current_cursor_addresses().unwrap()[0], 42);
    assert!(v.goto(true, 10).is_ok());
    assert_eq!(v.current_cursor_addresses().unwrap()[1], 10);
}

#[test]
fn goto_missing_address_fails() {
    let mut v = view(8, 4);
    v.append(linear_cells(30, 25, 3));
    let before = v.cursor_index();
    assert_eq!(v.goto(false, 1000), Err("Address does not (yet) exist".to_string()));
    assert_eq!(v.cursor_index(), before);
}

#[test]
fn destruct_round_trip() {
    let v = Aligned::new(file("a", 7, None), file("b", 9, None), Cursor::new(4, 4));
    let v = match v.destruct() {
        Ok(_) => panic!("no cell under the cursor yet"),
        Err(v) => v,
    };
    let mut v = v;
    v.prepend(vec![cell(5, Some(1), 7, Some(1)), cell(6, Some(2), 8, Some(2))]);
    v.append(vec![cell(7, Some(3), 9, Some(3)), cell(8, Some(4), 10, Some(4))]);
    match v.destruct() {
        Ok((a, b, _)) => {
            assert_eq!(a.index, 7);
            assert_eq!(b.index, 9);
            assert_eq!(a.name, "a");
            assert_eq!(b.name, "b");
        }
        Err(_) => panic!("cursor should be on a cell"),
    }
}

#[test]
fn content_rows_and_gaps() {
    let mut v = view(2, 2);
    v.append(difference_cells()[..3].to_vec());
    let content = v.get_content();
    assert_eq!(content.len(), 2);
    assert_eq!(content[0].address, (Some(0), Some(0)));
    assert_eq!(content[1].address, (Some(2), Some(1)));
    assert_eq!(content[1].bytes[0].0.unwrap().byte, 0xDD);
    assert!(content[1].bytes[0].1.is_none());
    assert_eq!(content[1].bytes[1], (None, None));
    let [first, second] = v.bytes_in_view();
    assert_eq!(first, vec![0xAA, 0xBB, 0xDD]);
    assert_eq!(second, vec![0xAA, 0xCC]);
}

#[test]
fn stream_cells_stay_ordered() {
    let mut v = view(4, 4);
    v.append(linear_cells(4, 10, 20));
    v.prepend(linear_cells(3, 7, 17));
    v.append(linear_cells(2, 14, 24));
    let b = v.bounds();
    let mut prev = (0usize, 0usize);
    for i in b.start..b.end {
        let mut w = view(4, 4);
        w.append(linear_cells(4, 10, 20));
        w.prepend(linear_cells(3, 7, 17));
        w.append(linear_cells(2, 14, 24));
        w.goto_index(i);
        let a = w.current_cursor_addresses().unwrap();
        assert!(a[0] >= prev.0 && a[1] >= prev.1);
        prev = (a[0], a[1]);
    }
    assert_eq!(prev, (15, 25));
}

#[test]
fn resize_keeps_cursor_cell() {
    let mut v = view(8, 8);
    v.append(linear_cells(100, 0, 0));
    v.goto_index(60);
    assert!(v.resize((5, 3)));
    assert_eq!(v.cursor_index(), 60);
    assert!(!v.resize((5, 3)));
    v.add_column();
    assert_eq!(v.cursor().size_x, 6);
    v.remove_column();
    v.remove_column();
    assert_eq!(v.cursor().size_x, 4);
    assert_eq!(v.cursor_index(), 60);
}

#[test]
fn row_address_is_first_mapped_cell() {
    let cursor = Cursor { size_x: 4, size_y: 2, x: 2, y: 0 };
    let mut v = Aligned::new(file("a", 0, None), file("b", 0, None), cursor);
    assert_eq!(v.view_start(), -2);
    v.append(linear_cells(6, 30, 40));
    let content = v.get_content();
    assert_eq!(content[0].address, (Some(30), Some(40)));
    assert_eq!(content[0].bytes[0], (None, None));
    assert_eq!(content[1].address, (Some(32), Some(42)));
}

#[test]
fn empty_batch_needs_no_redraw() {
    let mut v = view(4, 4);
    v.append(linear_cells(2, 0, 0));
    assert!(!v.append(vec![]));
    assert!(!v.prepend(vec![]));
}

#[test]
fn column_setting_follows_actions() {
    let mut v = view(4, 4);
    v.append(linear_cells(20, 0, 0));
    assert_eq!(v.column_setting(), ColumnSetting::Fit);
    assert!(v.process_move(Action::AddColumn));
    assert_eq!(v.column_setting(), ColumnSetting::Fixed(5));
    assert!(v.process_move(Action::RemoveColumn));
    assert!(v.process_move(Action::RemoveColumn));
    assert_eq!(v.column_setting(), ColumnSetting::Fixed(3));
    assert!(v.process_move(Action::ResetColumn));
    assert_eq!(v.column_setting(), ColumnSetting::Fit);
    assert!(!v.process_move(Action::AutoColumn));
}

#[test]
fn search_jump_takes_lowest_row_of_address() {
    let q = Query::new(QueryType::Text, "a").unwrap();
    let left = store_with(&q, &[(12, 13)]);
    let mut v = Aligned::new(file("a", 0, Some(left)), file("b", 0, None), Cursor::new(4, 4));
    v.append(vec![
        cell(10, Some(1), 0, Some(1)),
        cell(11, Some(1), 1, Some(1)),
        cell(12, None, 2, Some(1)),
        cell(12, None, 3, Some(1)),
        cell(12, Some(1), 4, Some(1)),
        cell(13, Some(1), 5, Some(1)),
    ]);
    v.jump_next_search_result();
    assert_eq!(v.cursor_index(), 2);
    assert_eq!(v.index_address(false, 12), Ok(2));
    assert_eq!(v.index_address(false, 14), Err(6));
}

#[test]
fn prepended_range_is_not_in_view() {
    let mut v = view(10, 1);
    v.append(linear_cells(20, 0, 0));
    assert!(!v.is_in_view(-5..0));
    assert!(v.is_in_view(-5..1));
    assert!(!v.is_in_view(3..3));
    assert!(!v.is_in_view(10..12));
}

#[test]
fn batches_that_fit() {
    let v = view(4, 4);
    assert!(v.fits(&AlignedMessage::Append(linear_cells(3, 0, 0))));
    assert!(v.fits(&AlignedMessage::Prepend(linear_cells(3, 0, 0))));
    assert!(v.fits(&AlignedMessage::from(Action::Down)));
}
