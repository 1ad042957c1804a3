use biodiff::backend::{Action, Effect, Event, Key};
use biodiff::buffer::SignedBuffer;
use biodiff::cursor::{Cursor, Move};

#[test]
fn signed_buffer_bounds_and_access() {
    let mut b: SignedBuffer<u32> = SignedBuffer::new();
    assert_eq!(b.bounds(), 0..0);
    assert!(b.get(0).is_none());
    b.extend_end(vec![1, 2, 3]);
    assert_eq!(b.bounds(), 0..3);
    b.extend_front(vec![7, 8]);
    assert_eq!(b.bounds(), -2..3);
    assert_eq!(b.get(-2), Some(&7));
    assert_eq!(b.get(-1), Some(&8));
    assert_eq!(b.get(0), Some(&1));
    assert_eq!(b.get(2), Some(&3));
    assert!(b.get(3).is_none());
    assert!(b.get(-3).is_none());
    assert_eq!(b.first(), Some(&7));
    assert_eq!(b.last(), Some(&3));
}

#[test]
fn cursor_moves_stay_in_view() {
    let mut c = Cursor::new(4, 3);
    let bounds = -100isize..100;
    assert_eq!(c.mov(Move::CursorX(1), bounds.clone()), 0);
    assert_eq!(c.get_index(), 1);
    assert_eq!(c.mov(Move::CursorY(2), bounds.clone()), 0);
    assert_eq!(c.get_index(), 9);
    assert_eq!(c.mov(Move::CursorY(1), bounds.clone()), 4);
    assert_eq!(c.get_index(), 9);
    assert_eq!(c.mov(Move::CursorX(-10), bounds.clone()), -4);
    assert_eq!(c.get_index(), 3);
    assert!(c.get_index() < c.get_size());
    assert_eq!(c.mov(Move::CursorX(-200), bounds.clone()), 0);
    assert_eq!(c.get_index(), 3);
    assert_eq!(c.mov(Move::ViewY(2), bounds.clone()), 8);
    assert_eq!(c.get_index(), 3);
    assert_eq!(c.mov(Move::ViewX(-1000), bounds.clone()), 0);
    assert_eq!(c.mov(Move::Unbounded(2, 50), bounds.clone()), 200);
    assert_eq!(c.get_index(), 5);
    assert_eq!((c.x, c.y), (1, 1));
}

#[test]
fn cursor_jump_and_rows() {
    let c = Cursor::new(4, 3);
    assert_eq!(c.jump(-5), (3, -2));
    assert_eq!(c.jump(9), (1, 2));
    assert_eq!(c.full_row_move(8), Some(2));
    assert_eq!(c.full_row_move(-4), Some(-1));
    assert_eq!(c.full_row_move(3), None);
    assert_eq!(Move::CursorX(1).reflect_rtl(), Move::CursorX(-1));
    assert_eq!(Move::CursorY(1).reflect_rtl(), Move::CursorY(1));
}

#[test]
fn cursor_resize_keeps_position() {
    let mut c = Cursor::new(4, 3);
    c.mov(Move::Unbounded(3, 2), 0..100);
    assert_eq!(c.get_index(), 11);
    let d = c.resize(2, 2);
    assert_eq!((c.x, c.y), (1, 1));
    assert_eq!(d + c.get_index() as isize, 11);
}

#[test]
fn effects() {
    let n = Effect::none();
    assert!(!n.inverted && !n.bold);
    let i = Effect::inverted();
    assert!(i.inverted && !i.bold);
}

#[test]
fn key_bindings() {
    assert_eq!(Action::try_from(Event::Resize), Ok(Action::Refresh));
    assert_eq!(Action::try_from(Event::Ignored), Err(()));
    assert_eq!(Action::try_from(Event::Key(Key::Char(' '), false, false)), Ok(Action::NextDifference));
    assert_eq!(Action::try_from(Event::Key(Key::Char(' '), true, false)), Ok(Action::NextInsertion));
    assert_eq!(Action::try_from(Event::Key(Key::Down, false, true)), Ok(Action::NextDifference));
    assert_eq!(Action::try_from(Event::Key(Key::Down, false, false)), Ok(Action::Down));
    assert_eq!(Action::try_from(Event::Key(Key::Up, true, false)), Ok(Action::PrevInsertion));
    assert_eq!(Action::try_from(Event::Key(Key::Char('k'), false, false)), Ok(Action::UpAlt));
    assert_eq!(Action::try_from(Event::Key(Key::Char('k'), true, false)), Ok(Action::PrevInsertion));
    assert_eq!(Action::try_from(Event::Key(Key::F(7), false, false)), Ok(Action::Search));
    assert_eq!(Action::try_from(Event::Key(Key::F(9), false, false)), Err(()));
    assert_eq!(Action::try_from(Event::Key(Key::Char('z'), false, false)), Err(()));
    assert_eq!(Action::try_from(Event::Key(Key::Esc, false, false)), Ok(Action::Quit));
}
