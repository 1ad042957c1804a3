//! The aligned view: a buffer of aligned byte pairs fed by the aligner, the
//! viewport over it, and the searches of both files.
use crate::backend::Action;
use crate::buffer::{SignedBuffer, MAX_HALF};
use crate::cursor::{moved, Cursor, Move, MAX_DIM, MAX_SHIFT};
use crate::search::{
    apart_from_all, as_pairs, both_value, nearest_next_at, nearest_prev_at, map_both, opt_wf, transpose_both,
    Query, SearchContext, SearchResults,
};
use std::ops::Range;
use vstd::prelude::*;

verus! {

/// One row of the alignment: an address in each file, and the byte there,
/// or `None` where that side has a gap.
#[derive(Clone, Copy, Debug, PartialEq, Eq, Structural)]
pub struct AlignElement {
    pub xaddr: usize,
    pub xbyte: Option<u8>,
    pub yaddr: usize,
    pub ybyte: Option<u8>,
}

/// The address of `e` in the second file where `right`, else in the first.
pub open spec fn side_addr(e: AlignElement, right: bool) -> usize {
    if right {
        e.yaddr
    } else {
        e.xaddr
    }
}

/// The addresses of one side do not decrease along the buffer.
pub open spec fn addrs_sorted(b: SignedBuffer<AlignElement>, right: bool) -> bool {
    forall|i: int, j: int|
        b.lo() <= i <= j < b.hi() ==> side_addr(b.at(i), right) <= side_addr(b.at(j), right)
}

/// `i` is the lowest index whose address on the given side is `pos`.
pub open spec fn lowest_row(b: SignedBuffer<AlignElement>, right: bool, pos: usize, i: int) -> bool {
    &&& b.has(i)
    &&& side_addr(b.at(i), right) == pos
    &&& forall|j: int| b.lo() <= j < i ==> side_addr(#[trigger] b.at(j), right) != pos
}

/// The lowest index whose address on the given side is `pos`, if any.
pub open spec fn row_of(b: SignedBuffer<AlignElement>, right: bool, pos: usize) -> Option<isize> {
    if exists|i: int| lowest_row(b, right, pos, i) {
        Some((choose|i: int| lowest_row(b, right, pos, i)) as isize)
    } else {
        None
    }
}

/// There is only one lowest index for an address.
pub proof fn lemma_lowest_unique(b: SignedBuffer<AlignElement>, right: bool, pos: usize, i: int)
    requires
        b.wf(),
        lowest_row(b, right, pos, i),
    ensures
        row_of(b, right, pos) == Some(i as isize),
{
    let j = choose|j: int| lowest_row(b, right, pos, j);
    assert(!(j < i));
    assert(!(i < j));
}

/// The row of the next (or previous) match of `search` from `addr`, `Err`
/// where the search wrapped around; `None` where there is no match or its
/// start has no row yet.
pub open spec fn candidate(
    b: SignedBuffer<AlignElement>,
    search: Option<SearchResults>,
    addr: usize,
    right: bool,
    forward: bool,
) -> Option<Result<isize, isize>> {
    match search {
        None => None,
        Some(st) => match if forward {
            st.next_spec(addr as int)
        } else {
            st.prev_spec(addr as int)
        } {
            Some(Ok(m)) => match row_of(b, right, m.0) {
                Some(i) => Some(Ok(i)),
                None => None,
            },
            Some(Err(m)) => match row_of(b, right, m.0) {
                Some(i) => Some(Err(i)),
                None => None,
            },
            None => None,
        },
    }
}

/// The candidate as a list of zero or one items.
pub open spec fn opt_seq(o: Option<Result<isize, isize>>) -> Seq<Result<isize, isize>> {
    match o {
        Some(c) => seq![c],
        None => Seq::empty(),
    }
}

/// Both sides' addresses do not decrease along the buffer.
pub open spec fn both_sorted(b: SignedBuffer<AlignElement>) -> bool {
    addrs_sorted(b, false) && addrs_sorted(b, true)
}

/// Both sides' addresses do not decrease along `s`.
pub open spec fn cells_monotone(s: Seq<AlignElement>) -> bool {
    forall|i: int, j: int|
        0 <= i <= j < s.len() ==> s[i].xaddr <= s[j].xaddr && s[i].yaddr <= s[j].yaddr
}

/// The two sides of `e` differ: one side has a gap and the other a byte,
/// or, unless only insertions count, both have bytes that are not equal.
pub open spec fn differs(e: AlignElement, insertion: bool) -> bool {
    (e.xbyte is Some != e.ybyte is Some) || (!insertion && e.xbyte is Some && e.ybyte is Some
        && e.xbyte != e.ybyte)
}

/// The match set `set` with each range of `rs` added that lies apart from
/// those before it; the others are dropped.
pub open spec fn with_matches(set: Set<(usize, usize)>, rs: Seq<Option<Range<usize>>>) -> Set<
    (usize, usize),
>
    decreases rs.len(),
{
    if rs.len() == 0 {
        set
    } else {
        let s1 = with_matches(set, rs.drop_last());
        match rs.last() {
            Some(r) => if r.start <= r.end && apart_from_all(s1, (r.start, r.end)) {
                s1.insert((r.start, r.end))
            } else {
                s1
            },
            None => s1,
        }
    }
}

/// A user event, or cells from the aligner to put after or before the
/// buffer's ends.
pub enum AlignedMessage {
    UserEvent(Action),
    Append(Vec<AlignElement>),
    Prepend(Vec<AlignElement>),
}

impl AlignedMessage {
    /// The message for a user event.
    pub fn from(action: Action) -> (r: AlignedMessage)
        ensures
            r == AlignedMessage::UserEvent(action),
    {
        AlignedMessage::UserEvent(action)
    }
}

/// One file as the views hold it: its name and content, the address of the
/// cursor in it, and its search.
pub struct FileState {
    pub name: String,
    pub content: Vec<u8>,
    pub index: usize,
    pub search: Option<SearchResults>,
}

/// A byte on screen, with whether it lies in a search match.
#[derive(Clone, Copy, Debug, PartialEq, Eq, Structural)]
pub struct ByteData {
    pub byte: u8,
    pub is_search_result: bool,
}

/// One row of the view: the addresses of its first cell, and for each cell
/// the bytes of both sides.
pub struct DoubleHexLine {
    pub address: (Option<usize>, Option<usize>),
    pub bytes: Vec<(Option<ByteData>, Option<ByteData>)>,
}

/// How many columns the view has: as many as fit the screen, or a number
/// the user chose.
#[derive(Clone, Copy, Debug, PartialEq, Eq, Structural)]
pub enum ColumnSetting {
    Fit,
    Fixed(usize),
}

/// The aligned view of two files.
pub struct Aligned {
    data: SignedBuffer<AlignElement>,
    filenames: (String, String),
    searches: (Option<SearchResults>, Option<SearchResults>),
    original: (Vec<u8>, Vec<u8>),
    /// the buffer index of the first cell in view
    index: isize,
    /// the cursor within the view
    cursor: Cursor,
    /// whether columns run from right to left
    right_to_left: bool,
    /// how many columns the user asked for
    columns: ColumnSetting,
}

impl Aligned {
    /// The aligned cells received so far.
    pub closed spec fn buf(&self) -> SignedBuffer<AlignElement> {
        self.data
    }

    /// The buffer index of the first cell in view.
    pub closed spec fn view_index(&self) -> int {
        self.index as int
    }

    /// The searches of the first and the second file.
    pub closed spec fn searches_view(&self) -> (Option<SearchResults>, Option<SearchResults>) {
        self.searches
    }

    /// The two files' names.
    pub closed spec fn names(&self) -> (Seq<char>, Seq<char>) {
        (self.filenames.0@, self.filenames.1@)
    }

    /// The two files' contents.
    pub closed spec fn contents(&self) -> (Seq<u8>, Seq<u8>) {
        (self.original.0@, self.original.1@)
    }

    /// `other` differs from this view at most by cells added to its buffer:
    /// the cells held here, the view, the cursor, the searches and the
    /// files stay as they are.
    pub open spec fn unchanged_but_cells(&self, other: Aligned) -> bool {
        &&& forall|i: int| self.buf().has(i) ==> other.buf().has(i) && other.buf().at(i) == self.buf().at(i)
        &&& other.view_index() == self.view_index()
        &&& other.cur() == self.cur()
        &&& other.rtl() == self.rtl()
        &&& other.searches_view() == self.searches_view()
        &&& other.names() == self.names()
        &&& other.contents() == self.contents()
    }

    /// The cursor within the view.
    pub closed spec fn cur(&self) -> Cursor {
        self.cursor
    }

    /// Whether columns run from right to left.
    pub closed spec fn rtl(&self) -> bool {
        self.right_to_left
    }

    /// The column setting.
    pub closed spec fn column_view(&self) -> ColumnSetting {
        self.columns
    }

    /// `m` as the cursor sees it: horizontal moves are reflected in a
    /// right-to-left layout.
    pub open spec fn effective(&self, m: Move) -> Move {
        if self.rtl() {
            match m {
                Move::CursorX(d) => Move::CursorX((-d) as isize),
                Move::ViewX(d) => Move::ViewX((-d) as isize),
                other => other,
            }
        } else {
            m
        }
    }

    /// `new` is this view after `move_around(m)`.
    pub open spec fn moved_to(&self, new: Aligned, m: Move) -> bool {
        &&& moved(
            self.cur(),
            new.cur(),
            self.effective(m),
            self.buf().lo() - self.view_index(),
            self.buf().hi() - self.view_index(),
            new.view_index() - self.view_index(),
        )
        &&& new.buf() == self.buf()
    }

    /// `new` is this view after a jump to the next (previous) difference.
    pub open spec fn difference_done(&self, new: Aligned, forward: bool, insertion: bool) -> bool {
        if self.buf().lo() < self.buf().hi() {
            self.difference_target(self.cursor_pos(), forward, insertion, new.cursor_pos())
        } else {
            new == *self
        }
    }

    /// `new` is this view after a search jump, where both sides' addresses
    /// are in order.
    pub open spec fn search_done(&self, new: Aligned, forward: bool) -> bool {
        both_sorted(self.buf()) ==> if forward {
            self.jumped_from(
                new,
                match self.origin(true) {
                    Some(a) => a,
                    None => [0usize, 0usize],
                },
                true,
            )
        } else {
            match self.origin(false) {
                Some(a) => self.jumped_from(new, a, false),
                None => new == *self,
            }
        }
    }

    /// What `process_move` does for each action.
    pub open spec fn move_done(&self, new: Aligned, action: Action) -> bool {
        let sy = self.cur().size_y as int;
        match action {
            Action::Down => self.moved_to(new, Move::CursorY(1)),
            Action::DownAlt => self.moved_to(new, Move::ViewY(1)),
            Action::Up => self.moved_to(new, Move::CursorY(-1isize)),
            Action::UpAlt => self.moved_to(new, Move::ViewY(-1isize)),
            Action::Left => self.moved_to(new, Move::CursorX(-1isize)),
            Action::LeftAlt => self.moved_to(new, Move::ViewX(-1isize)),
            Action::Right => self.moved_to(new, Move::CursorX(1)),
            Action::RightAlt => self.moved_to(new, Move::ViewX(1)),
            Action::PgDown => self.moved_to(new, Move::ViewY((sy / 2) as isize)),
            Action::PgUp => self.moved_to(new, Move::ViewY((-(sy / 2)) as isize)),
            Action::NextDifference => self.difference_done(new, true, false),
            Action::NextInsertion => self.difference_done(new, true, true),
            Action::PrevDifference => self.difference_done(new, false, false),
            Action::PrevInsertion => self.difference_done(new, false, true),
            Action::Top => new.cursor_pos() == self.buf().lo(),
            Action::Bottom => new.cursor_pos() == self.buf().hi() - 1,
            Action::NextSearch => self.search_done(new, true),
            Action::PrevSearch => self.search_done(new, false),
            Action::AddColumn => {
                &&& new.cursor_pos() == self.cursor_pos()
                &&& new.cur().size_y == self.cur().size_y
                &&& new.cur().size_x == if self.cur().size_x < MAX_DIM {
                    self.cur().size_x + 1
                } else {
                    self.cur().size_x as int
                }
                &&& new.column_view() == ColumnSetting::Fixed(new.cur().size_x)
            },
            Action::RemoveColumn => {
                &&& new.cursor_pos() == self.cursor_pos()
                &&& new.cur().size_y == self.cur().size_y
                &&& new.cur().size_x == if self.cur().size_x > 1 {
                    self.cur().size_x - 1
                } else {
                    self.cur().size_x as int
                }
                &&& new.column_view() == ColumnSetting::Fixed(new.cur().size_x)
            },
            Action::ResetColumn => {
                &&& new.column_view() == ColumnSetting::Fit
                &&& new.cur() == self.cur()
                &&& new.view_index() == self.view_index()
            },
            _ => new == *self,
        }
    }

    /// The buffer index of the cursor.
    pub open spec fn cursor_pos(&self) -> int {
        self.view_index() + self.cur().index()
    }

    /// The addresses of the cell under the cursor, where there is one.
    pub open spec fn cursor_addresses(&self) -> Option<[usize; 2]> {
        if self.buf().has(self.cursor_pos()) {
            let e = self.buf().at(self.cursor_pos());
            Some([e.xaddr, e.yaddr])
        } else {
            None
        }
    }

    /// Whether cells `lo..hi` meet the view in at least one cell.
    pub open spec fn in_view(&self, lo: int, hi: int) -> bool {
        lo < hi && !(self.view_index() >= hi || self.view_index() + self.cur().size() <= lo)
    }

    pub open spec fn wf(&self) -> bool {
        &&& self.buf().wf()
        &&& self.cur().wf()
        &&& -MAX_HALF - 1 <= self.cursor_pos() <= MAX_HALF
        &&& opt_wf(self.searches_view().0)
        &&& opt_wf(self.searches_view().1)
    }

    /// A view of `first` and `second` with no cells yet, placed so that the
    /// cursor sits on index 0, where the aligner's first cells begin.
    pub fn new(first: FileState, second: FileState, cursor: Cursor) -> (r: Aligned)
        requires
            cursor.wf(),
            opt_wf(first.search),
            opt_wf(second.search),
        ensures
            r.wf(),
            r.buf().lo() == 0 && r.buf().hi() == 0,
            r.cur() == cursor,
            r.cursor_pos() == 0,
            !r.rtl(),
            r.searches_view() == (first.search, second.search),
            r.names() == (first.name@, second.name@),
            r.contents() == (first.content@, second.content@),
    {
        proof {
            cursor.lemma_index_in_view();
        }
        let index = -(cursor.get_index() as isize);
        Aligned {
            data: SignedBuffer::new(),
            filenames: (first.name, second.name),
            searches: (first.search, second.search),
            original: (first.content, second.content),
            index,
            cursor,
            right_to_left: false,
            columns: ColumnSetting::Fit,
        }
    }

    /// Whether the cells of `range` meet the view.
    pub fn is_in_view(&self, range: Range<isize>) -> (r: bool)
        requires
            self.wf(),
        ensures
            r == self.in_view(range.start as int, range.end as int),
    {
        proof {
            self.cursor.lemma_index_in_view();
        }
        let end = self.index + self.cursor.get_size() as isize;
        range.start < range.end && !(self.index >= range.end || end <= range.start)
    }

    /// Puts `vec` after the last cell; returns whether the new cells meet the view.
    pub fn append(&mut self, vec: Vec<AlignElement>) -> (r: bool)
        requires
            old(self).wf(),
            old(self).buf().hi() + vec@.len() <= MAX_HALF,
        ensures
            final(self).wf(),
            final(self).buf().lo() == old(self).buf().lo(),
            final(self).buf().hi() == old(self).buf().hi() + vec@.len(),
            forall|i: int| old(self).buf().has(i) ==> final(self).buf().at(i) == old(self).buf().at(i),
            forall|k: int|
                0 <= k < vec@.len() ==> final(self).buf().at(old(self).buf().hi() + k) == vec@[k],
            r == old(self).in_view(old(self).buf().hi(), old(self).buf().hi() + vec@.len()),
            final(self).view_index() == old(self).view_index(),
            final(self).cur() == old(self).cur(),
            final(self).searches_view() == old(self).searches_view(),
            old(self).unchanged_but_cells(*final(self)),
    {
        let end = self.data.bounds().end;
        let range = end..end + vec.len() as isize;
        self.data.extend_end(vec);
        self.is_in_view(range)
    }

    /// Puts `vec` before the first cell, `vec[0]` first; returns whether the
    /// new cells meet the view.
    pub fn prepend(&mut self, vec: Vec<AlignElement>) -> (r: bool)
        requires
            old(self).wf(),
            -old(self).buf().lo() + vec@.len() <= MAX_HALF,
        ensures
            final(self).wf(),
            final(self).buf().hi() == old(self).buf().hi(),
            final(self).buf().lo() == old(self).buf().lo() - vec@.len(),
            forall|i: int| old(self).buf().has(i) ==> final(self).buf().at(i) == old(self).buf().at(i),
            forall|k: int|
                0 <= k < vec@.len() ==> final(self).buf().at(final(self).buf().lo() + k) == vec@[k],
            r == old(self).in_view(old(self).buf().lo() - vec@.len(), old(self).buf().lo()),
            final(self).view_index() == old(self).view_index(),
            final(self).cur() == old(self).cur(),
            final(self).searches_view() == old(self).searches_view(),
            old(self).unchanged_but_cells(*final(self)),
    {
        let start = self.data.bounds().start;
        let range = start - vec.len() as isize..start;
        self.data.extend_front(vec);
        self.is_in_view(range)
    }

    /// The buffer index of the cursor.
    pub fn cursor_index(&self) -> (r: isize)
        requires
            self.wf(),
        ensures
            r == self.cursor_pos(),
    {
        proof {
            self.cursor.lemma_index_in_view();
        }
        self.index + self.cursor.get_index() as isize
    }

    /// The addresses of the cell under the cursor, where there is one.
    pub fn current_cursor_addresses(&self) -> (r: Option<[usize; 2]>)
        requires
            self.wf(),
        ensures
            r == self.cursor_addresses(),
    {
        match self.data.get(self.cursor_index()) {
            Some(x) => Some([x.xaddr, x.yaddr]),
            None => None,
        }
    }

    /// The lowest index of a cell whose address on the given side is `pos`,
    /// found by binary search; `Err` with the place where it would go where
    /// there is none.
    pub fn index_address(&self, right: bool, pos: usize) -> (r: Result<isize, isize>)
        requires
            self.wf(),
        ensures
            r matches Ok(i) ==> self.buf().has(i as int) && side_addr(self.buf().at(i as int), right)
                == pos,
            addrs_sorted(self.buf(), right) ==> (r is Err <==> forall|i: int|
                self.buf().has(i) ==> side_addr(#[trigger] self.buf().at(i), right) != pos),
            addrs_sorted(self.buf(), right) ==> (r matches Ok(i) ==> lowest_row(self.buf(), right, pos, i as int)),
            addrs_sorted(self.buf(), right) ==> (r matches Err(i) ==> {
                &&& self.buf().lo() <= i <= self.buf().hi()
                &&& forall|j: int| self.buf().lo() <= j < i ==> side_addr(#[trigger] self.buf().at(j), right) < pos
                &&& forall|j: int| i <= j < self.buf().hi() ==> side_addr(#[trigger] self.buf().at(j), right) > pos
            }),
            addrs_sorted(self.buf(), right) ==> r.ok() == row_of(self.buf(), right, pos),
    {
        let bounds = self.data.bounds();
        let mut lo = bounds.start;
        let mut hi = bounds.end;
        while lo < hi
            invariant
                self.wf(),
                bounds.start == self.buf().lo() && bounds.end == self.buf().hi(),
                self.buf().lo() <= lo <= hi <= self.buf().hi(),
                addrs_sorted(self.buf(), right) ==> forall|i: int|
                    self.buf().lo() <= i < lo ==> side_addr(#[trigger] self.buf().at(i), right) < pos,
                addrs_sorted(self.buf(), right) ==> forall|i: int|
                    hi <= i < self.buf().hi() ==> side_addr(#[trigger] self.buf().at(i), right) >= pos,
            decreases hi - lo,
        {
            let mid = lo + (hi - lo) / 2;
            let e = self.data.get(mid).unwrap();
            let a = if right {
                e.yaddr
            } else {
                e.xaddr
            };
            if a < pos {
                proof {
                    if addrs_sorted(self.buf(), right) {
                        assert forall|i: int| self.buf().lo() <= i < mid + 1 implies side_addr(
                            #[trigger] self.buf().at(i),
                            right,
                        ) < pos by {
                            assert(side_addr(self.buf().at(i), right) <= side_addr(self.buf().at(mid as int), right));
                        }
                    }
                }
                lo = mid + 1;
            } else {
                proof {
                    if addrs_sorted(self.buf(), right) {
                        assert forall|i: int| mid <= i < self.buf().hi() implies side_addr(
                            #[trigger] self.buf().at(i),
                            right,
                        ) >= pos by {
                            assert(side_addr(self.buf().at(mid as int), right) <= side_addr(self.buf().at(i), right));
                        }
                    }
                }
                hi = mid;
            }
        }
        let found = if lo < bounds.end {
            let e = self.data.get(lo).unwrap();
            let a = if right {
                e.yaddr
            } else {
                e.xaddr
            };
            a == pos
        } else {
            false
        };
        proof {
            if addrs_sorted(self.buf(), right) {
                if found {
                    assert(lowest_row(self.buf(), right, pos, lo as int));
                    lemma_lowest_unique(self.buf(), right, pos, lo as int);
                } else {
                    assert forall|j: int| lo <= j < self.buf().hi() implies side_addr(
                        #[trigger] self.buf().at(j),
                        right,
                    ) > pos by {
                        assert(side_addr(self.buf().at(lo as int), right) <= side_addr(self.buf().at(j), right));
                    }
                    assert(!exists|i: int| lowest_row(self.buf(), right, pos, i));
                }
            }
        }
        if found {
            Ok(lo)
        } else {
            Err(lo)
        }
    }

    /// Applies `movement` to the cursor; a horizontal move is reflected in a
    /// right-to-left layout. Returns how far the view shifted.
    pub fn move_around(&mut self, movement: Move) -> (r: isize)
        requires
            old(self).wf(),
            -MAX_SHIFT <= movement.shift(old(self).cur().size_x as int) <= MAX_SHIFT,
            movement matches Move::CursorX(d) ==> d != isize::MIN,
            movement matches Move::ViewX(d) ==> d != isize::MIN,
            movement matches Move::Unbounded(c, _) ==> -MAX_SHIFT <= c <= MAX_SHIFT
                && -MAX_HALF - 1 <= old(self).cursor_pos() + movement.shift(
                old(self).cur().size_x as int) <= MAX_HALF,
        ensures
            final(self).wf(),
            final(self).buf() == old(self).buf(),
            final(self).searches_view() == old(self).searches_view(),
            final(self).rtl() == old(self).rtl(),
            final(self).view_index() == old(self).view_index() + r,
            final(self).names() == old(self).names(),
            final(self).contents() == old(self).contents(),
            final(self).cur().size_x == old(self).cur().size_x,
            final(self).cur().size_y == old(self).cur().size_y,
            moved(
                old(self).cur(),
                final(self).cur(),
                old(self).effective(movement),
                old(self).buf().lo() - old(self).view_index(),
                old(self).buf().hi() - old(self).view_index(),
                r as int,
            ),
    {
        proof {
            self.cursor.lemma_index_in_view();
        }
        let bounds = self.data.bounds();
        let relative = (bounds.start - self.index)..(bounds.end - self.index);
        let movement = if self.right_to_left {
            movement.reflect_rtl()
        } else {
            movement
        };
        let diff = self.cursor.mov(movement, relative);
        proof {
            self.cursor.lemma_index_in_view();
        }
        self.index = self.index + diff;
        diff
    }

    /// Moves the cursor onto buffer index `index`.
    pub fn goto_index(&mut self, index: isize)
        requires
            old(self).wf(),
            -MAX_HALF - 1 <= index <= MAX_HALF,
        ensures
            final(self).wf(),
            final(self).buf() == old(self).buf(),
            final(self).searches_view() == old(self).searches_view(),
            final(self).rtl() == old(self).rtl(),
            final(self).cursor_pos() == index,
            final(self).names() == old(self).names(),
            final(self).contents() == old(self).contents(),
            final(self).cur().size_x == old(self).cur().size_x,
            final(self).cur().size_y == old(self).cur().size_y,
    {
        proof {
            self.cursor.lemma_index_in_view();
            assert(MAX_DIM * MAX_DIM < 0x100_0000);
        }
        let address_diff = index - self.cursor_index();
        let (col, row) = self.cursor.jump(address_diff);
        assert(-MAX_SHIFT <= row * self.cursor.size_x <= MAX_SHIFT);
        self.move_around(Move::Unbounded(col, row));
    }

    /// Moves the cursor onto the cell whose address on the given side is
    /// `pos`; an error where the aligner has not produced such a cell (yet).
    pub fn goto(&mut self, right: bool, pos: usize) -> (r: Result<(), String>)
        requires
            old(self).wf(),
        ensures
            final(self).wf(),
            final(self).buf() == old(self).buf(),
            final(self).searches_view() == old(self).searches_view(),
            r is Ok ==> (final(self).cursor_addresses() matches Some(a) && a[if right {
                1int
            } else {
                0int
            }] == pos),
            r is Err ==> *final(self) == *old(self),
            r matches Err(e) ==> e@ == "Address does not (yet) exist"@,
            addrs_sorted(old(self).buf(), right) ==> (r is Ok <==> exists|i: int|
                old(self).buf().has(i) && side_addr(#[trigger] old(self).buf().at(i), right) == pos),
    {
        match self.index_address(right, pos) {
            Ok(i) => {
                self.goto_index(i);
                Ok(())
            },
            Err(_) => {
                let message = "Address does not (yet) exist";
                proof {
                    reveal_strlit("Address does not (yet) exist");
                }
                Err(message.to_owned())
            },
        }
    }
}

impl Aligned {
    /// Where a search for the next difference from `cur` stops: the first
    /// differing cell strictly after it (before it, backwards); where there
    /// is none, the last (first) cell of the buffer.
    pub open spec fn difference_target(&self, cur: int, forward: bool, insertion: bool, r: int) -> bool {
        let b = self.buf();
        if forward {
            let start = if cur + 1 > b.lo() { cur + 1 } else { b.lo() };
            &&& b.has(r)
            &&& forall|j: int| start <= j < r ==> !differs(#[trigger] b.at(j), insertion)
            &&& (r >= start && differs(b.at(r), insertion)) || (r == b.hi() - 1 && forall|j: int|
                start <= j < b.hi() ==> !differs(#[trigger] b.at(j), insertion))
        } else {
            let start = if cur - 1 < b.hi() - 1 { cur - 1 } else { b.hi() - 1 };
            &&& b.has(r)
            &&& forall|j: int| r < j <= start ==> !differs(#[trigger] b.at(j), insertion)
            &&& (r <= start && differs(b.at(r), insertion)) || (r == b.lo() && forall|j: int|
                b.lo() <= j <= start ==> !differs(#[trigger] b.at(j), insertion))
        }
    }

    fn cell_differs(&self, i: isize, insertion: bool) -> (r: bool)
        requires
            self.wf(),
            self.buf().has(i as int),
        ensures
            r == differs(self.buf().at(i as int), insertion),
    {
        let e = self.data.get(i).unwrap();
        match (e.xbyte, e.ybyte) {
            (Some(_), None) | (None, Some(_)) => true,
            (Some(x), Some(y)) => x != y && !insertion,
            (None, None) => false,
        }
    }

    /// The index where a search for the next difference from `cur` stops.
    fn next_difference(&self, cur: isize, forward: bool, insertion: bool) -> (r: isize)
        requires
            self.wf(),
            self.buf().lo() < self.buf().hi(),
            -MAX_HALF - 1 <= cur <= MAX_HALF,
        ensures
            self.difference_target(cur as int, forward, insertion, r as int),
    {
        let bounds = self.data.bounds();
        if forward {
            let start = if cur + 1 > bounds.start {
                cur + 1
            } else {
                bounds.start
            };
            let mut i = start;
            while i < bounds.end
                invariant
                    self.wf(),
                    bounds.start == self.buf().lo() && bounds.end == self.buf().hi(),
                    forward,
                    start <= i,
                    start >= bounds.start,
                    start == (if cur + 1 > bounds.start {
                        cur + 1
                    } else {
                        bounds.start as int
                    }),
                    i <= bounds.end || i == start,
                    forall|j: int| start <= j < i ==> !differs(#[trigger] self.buf().at(j), insertion),
                decreases bounds.end - i,
            {
                if self.cell_differs(i, insertion) {
                    assert forall|j: int| start <= j < i implies !differs(
                        #[trigger] self.buf().at(j),
                        insertion,
                    ) by {}
                    return i;
                }
                i = i + 1;
            }
            bounds.end - 1
        } else {
            let start = if cur - 1 < bounds.end - 1 {
                cur - 1
            } else {
                bounds.end - 1
            };
            let mut i = start;
            while i >= bounds.start
                invariant
                    self.wf(),
                    bounds.start == self.buf().lo() && bounds.end == self.buf().hi(),
                    !forward,
                    i <= start,
                    start < bounds.end,
                    start == (if cur - 1 < bounds.end - 1 {
                        cur - 1
                    } else {
                        bounds.end - 1
                    }),
                    i >= bounds.start - 1 || i == start,
                    forall|j: int| i < j <= start ==> !differs(#[trigger] self.buf().at(j), insertion),
                decreases i - bounds.start + 1,
            {
                if self.cell_differs(i, insertion) {
                    assert forall|j: int| i < j <= start implies !differs(
                        #[trigger] self.buf().at(j),
                        insertion,
                    ) by {}
                    return i;
                }
                i = i - 1;
            }
            bounds.start
        }
    }

    /// Moves the cursor to the next (or previous) cell where the two sides
    /// differ, or only to one where one side has a gap; where there is none,
    /// to the buffer's last (first) cell. Does nothing on an empty buffer.
    pub fn jump_next_difference(&mut self, forward: bool, insertion: bool)
        requires
            old(self).wf(),
        ensures
            final(self).wf(),
            final(self).buf() == old(self).buf(),
            final(self).searches_view() == old(self).searches_view(),
            old(self).buf().lo() < old(self).buf().hi() ==> old(self).difference_target(
                old(self).cursor_pos(),
                forward,
                insertion,
                final(self).cursor_pos(),
            ),
            old(self).buf().lo() == old(self).buf().hi() ==> *final(self) == *old(self),
    {
        let bounds = self.data.bounds();
        if bounds.start < bounds.end {
            proof {
                self.cursor.lemma_index_in_view();
            }
            let target = self.next_difference(self.cursor_index(), forward, insertion);
            self.goto_index(target);
        }
    }

    /// Moves the cursor onto the first cell.
    pub fn jump_start(&mut self)
        requires
            old(self).wf(),
        ensures
            final(self).wf(),
            final(self).buf() == old(self).buf(),
            final(self).searches_view() == old(self).searches_view(),
            final(self).cursor_pos() == old(self).buf().lo(),
    {
        let start = self.data.bounds().start;
        self.goto_index(start);
    }

    /// Moves the cursor onto the last cell (onto index -1 of an empty buffer).
    pub fn jump_end(&mut self)
        requires
            old(self).wf(),
        ensures
            final(self).wf(),
            final(self).buf() == old(self).buf(),
            final(self).searches_view() == old(self).searches_view(),
            final(self).cursor_pos() == old(self).buf().hi() - 1,
    {
        let end = self.data.bounds().end;
        self.goto_index(end - 1);
    }

    /// The row of the next (or previous) match of `search` from `addr`,
    /// `Err` where the search wrapped around; `None` where there is no match
    /// or its start has no row yet.
    fn search_candidate(&self, search: &Option<SearchResults>, addr: usize, right: bool, forward: bool) -> (r: Option<Result<isize, isize>>)
        requires
            self.wf(),
            opt_wf(*search),
        ensures
            r matches Some(c) ==> self.buf().has(both_value(c) as int) && (search matches Some(st) && exists|k: int|
                0 <= k < st.starts_seq().len() && side_addr(self.buf().at(both_value(c) as int), right)
                    == #[trigger] st.starts_seq()[k].0),
            addrs_sorted(self.buf(), right) ==> r == candidate(self.buf(), *search, addr, right, forward),
    {
        let store = match search {
            Some(st) => st,
            None => return None,
        };
        let found = if forward {
            store.next_result(addr)
        } else {
            store.prev_result(addr)
        };
        let found = match found {
            Some(x) => x,
            None => return None,
        };
        proof {
            if !forward {
                let v = both_value(found);
                if found is Ok {
                    let i = choose|i: int|
                        crate::search::last_at_most(store.ends_seq(), i, addr as int) && v.start
                            == store.ends_seq()[i].1 && v.end == store.ends_seq()[i].0;
                    assert(store.ends_seq()[i] == (store.starts_seq()[i].1, store.starts_seq()[i].0));
                } else {
                    let i = store.ends_seq().len() - 1;
                    assert(store.ends_seq()[i] == (store.starts_seq()[i].1, store.starts_seq()[i].0));
                }
            } else {
                if found is Ok {
                    let v = both_value(found);
                    let i = choose|i: int|
                        crate::search::first_above(store.starts_seq(), i, addr as int) && v.start
                            == store.starts_seq()[i].0 && v.end == store.starts_seq()[i].1;
                    assert(v.start == store.starts_seq()[i].0);
                }
            }
        }
        let to_row = |y: Range<usize>| -> (o: Option<isize>)
            requires
                self.wf(),
            ensures
                o matches Some(i) ==> self.buf().has(i as int) && side_addr(self.buf().at(i as int), right)
                    == y.start,
                addrs_sorted(self.buf(), right) ==> o == row_of(self.buf(), right, y.start),
            { self.index_address(right, y.start).ok() };
        let rows = map_both(found, to_row);
        transpose_both(rows)
    }

    /// The addresses the searches start from: those under the cursor, else
    /// those of the first (or last) cell.
    pub open spec fn origin(&self, forward: bool) -> Option<[usize; 2]> {
        match self.cursor_addresses() {
            Some(a) => Some(a),
            None => if self.buf().lo() < self.buf().hi() {
                let e = if forward {
                    self.buf().at(self.buf().lo())
                } else {
                    self.buf().at(self.buf().hi() - 1)
                };
                Some([e.xaddr, e.yaddr])
            } else {
                None
            },
        }
    }

    /// The candidate rows of both files' searches from addresses `a`.
    pub open spec fn search_cands(&self, a: [usize; 2], forward: bool) -> Seq<Result<isize, isize>> {
        opt_seq(candidate(self.buf(), self.searches_view().0, a[0], false, forward)) + opt_seq(
            candidate(self.buf(), self.searches_view().1, a[1], true, forward),
        )
    }

    /// `new` is this view after a jump from addresses `a` to the nearest
    /// candidate: unchanged where there is none.
    pub open spec fn jumped_from(&self, new: Aligned, a: [usize; 2], forward: bool) -> bool {
        let c = self.search_cands(a, forward);
        if c.len() == 0 {
            new == *self
        } else {
            exists|i: int|
                (if forward {
                    nearest_next_at(c, i)
                } else {
                    nearest_prev_at(c, i)
                }) && new.cursor_pos() == both_value(c[i])
        }
    }

    fn search_origin(&self, forward: bool) -> (r: Option<[usize; 2]>)
        requires
            self.wf(),
        ensures
            r == self.origin(forward),
    {
        match self.current_cursor_addresses() {
            Some(a) => Some(a),
            None => {
                let edge = if forward {
                    self.data.first()
                } else {
                    self.data.last()
                };
                match edge {
                    Some(x) => Some([x.xaddr, x.yaddr]),
                    None => None,
                }
            },
        }
    }

    /// Moves the cursor to the nearest match after it in either file; one
    /// that needs no wrap-around is preferred.
    pub fn jump_next_search_result(&mut self)
        requires
            old(self).wf(),
        ensures
            final(self).wf(),
            final(self).buf() == old(self).buf(),
            final(self).searches_view() == old(self).searches_view(),
            *final(self) != *old(self) ==> final(self).on_match(),
            old(self).no_matches() ==> *final(self) == *old(self),
            both_sorted(old(self).buf()) ==> old(self).jumped_from(
                *final(self),
                match old(self).origin(true) {
                    Some(a) => a,
                    None => [0usize, 0usize],
                },
                true,
            ),
    {
        let origin = match self.search_origin(true) {
            Some(a) => a,
            None => [0, 0],
        };
        self.jump_search(origin[0], origin[1], true);
    }

    /// Moves the cursor to the nearest match before it in either file; one
    /// that needs no wrap-around is preferred.
    pub fn jump_prev_search_result(&mut self)
        requires
            old(self).wf(),
        ensures
            final(self).wf(),
            final(self).buf() == old(self).buf(),
            final(self).searches_view() == old(self).searches_view(),
            *final(self) != *old(self) ==> final(self).on_match(),
            old(self).no_matches() ==> *final(self) == *old(self),
            both_sorted(old(self).buf()) ==> match old(self).origin(false) {
                Some(a) => old(self).jumped_from(*final(self), a, false),
                None => *final(self) == *old(self),
            },
    {
        let origin = match self.search_origin(false) {
            Some(a) => a,
            None => return,
        };
        self.jump_search(origin[0], origin[1], false);
    }

    /// Neither file's search holds a match.
    pub open spec fn no_matches(&self) -> bool {
        &&& self.searches_view().0 matches Some(st) ==> st.starts_seq().len() == 0
        &&& self.searches_view().1 matches Some(st) ==> st.starts_seq().len() == 0
    }

    /// The cursor is on a cell whose address on some side starts a match of
    /// that side's search.
    pub open spec fn on_match(&self) -> bool {
        let b = self.buf();
        let p = self.cursor_pos();
        &&& b.has(p)
        &&& (self.searches_view().0 matches Some(st) && exists|k: int|
            0 <= k < st.starts_seq().len() && b.at(p).xaddr == #[trigger] st.starts_seq()[k].0)
            || (self.searches_view().1 matches Some(st) && exists|k: int|
            0 <= k < st.starts_seq().len() && b.at(p).yaddr == #[trigger] st.starts_seq()[k].0)
    }

    fn jump_search(&mut self, first: usize, second: usize, forward: bool)
        requires
            old(self).wf(),
        ensures
            final(self).wf(),
            final(self).buf() == old(self).buf(),
            final(self).searches_view() == old(self).searches_view(),
            *final(self) != *old(self) ==> final(self).on_match(),
            old(self).no_matches() ==> *final(self) == *old(self),
            both_sorted(old(self).buf()) ==> old(self).jumped_from(*final(self), [first, second], forward),
    {
        let mut cands: Vec<Result<isize, isize>> = Vec::new();
        let a = self.search_candidate(&self.searches.0, first, false, forward);
        let b = self.search_candidate(&self.searches.1, second, true, forward);
        if let Some(c) = a {
            cands.push(c);
        }
        if let Some(c) = b {
            cands.push(c);
        }
        assert(both_sorted(self.buf()) ==> cands@ =~= self.search_cands([first, second], forward));
        let next = if forward {
            SearchResults::nearest_next_result(&cands)
        } else {
            SearchResults::nearest_prev_result(&cands)
        };
        assert(self.no_matches() ==> cands@.len() == 0);
        match next {
            Some(row) => {
                proof {
                    let i = if forward {
                        choose|i: int| crate::search::nearest_next_at(cands@, i) && both_value(cands@[i]) == row
                    } else {
                        choose|i: int| crate::search::nearest_prev_at(cands@, i) && both_value(cands@[i]) == row
                    };
                    assert(0 <= i < cands@.len());
                }
                self.goto_index(row);
            },
            None => {},
        }
    }
}

/// `q` and `r` are equal as queries: same text, same kind.
pub open spec fn same_query(q: Query, r: Query) -> bool {
    q.text_view() == r.text_view() && q.kind() == r.kind()
}

impl Aligned {
    /// Adds a batch of matches to the search of one file (the first where
    /// `first`), if that search is for `query`; the batch is dropped where
    /// the file has no search or one for another query. A match that does
    /// not lie after the ones already stored is dropped.
    pub fn add_search_results(&mut self, query: Query, results: Vec<Option<Range<usize>>>, first: bool)
        requires
            old(self).wf(),
        ensures
            final(self).wf(),
            final(self).buf() == old(self).buf(),
            final(self).cursor_pos() == old(self).cursor_pos(),
            ({
                let (s0, other0) = if first {
                    (old(self).searches_view().0, old(self).searches_view().1)
                } else {
                    (old(self).searches_view().1, old(self).searches_view().0)
                };
                let (s1, other1) = if first {
                    (final(self).searches_view().0, final(self).searches_view().1)
                } else {
                    (final(self).searches_view().1, final(self).searches_view().0)
                };
                &&& other1 == other0
                &&& match s0 {
                    Some(st) => if same_query(st.query_view(), query) {
                        s1 matches Some(st1) && st1.query_view() == st.query_view()
                            && st1.match_set() == with_matches(st.match_set(), results@)
                    } else {
                        s1 == s0
                    },
                    None => s1.is_none(),
                }
            }),
    {
        let taken = if first {
            self.searches.0.take()
        } else {
            self.searches.1.take()
        };
        let updated = match taken {
            Some(st) => {
                let mut st = st;
                if st.query().eq(&query) {
                    let ghost s0 = st.match_set();
                    let ghost q0 = st.query_view();
                    let mut k: usize = 0;
                    while k < results.len()
                        invariant
                            st.wf(),
                            st.query_view() == q0,
                            k <= results@.len(),
                            st.match_set() == with_matches(s0, results@.subrange(0, k as int)),
                        decreases results@.len() - k,
                    {
                        proof {
                            let rs = results@.subrange(0, k as int + 1);
                            assert(rs.drop_last() == results@.subrange(0, k as int));
                            assert(rs.last() == results@[k as int]);
                        }
                        match &results[k] {
                            Some(r) => {
                                let range = r.start..r.end;
                                if st.can_add(&range) {
                                    st.add_match(range);
                                }
                            },
                            None => {},
                        }
                        k = k + 1;
                    }
                    assert(results@.subrange(0, results@.len() as int) == results@);
                }
                Some(st)
            },
            None => None,
        };
        if first {
            self.searches.0 = updated;
        } else {
            self.searches.1 = updated;
        }
    }

    /// Drops the searches of both files.
    pub fn clear_search(&mut self)
        requires
            old(self).wf(),
        ensures
            final(self).wf(),
            final(self).buf() == old(self).buf(),
            final(self).cursor_pos() == old(self).cursor_pos(),
            final(self).searches_view().0.is_none() && final(self).searches_view().1.is_none(),
    {
        self.searches = (None, None);
    }

    /// Installs empty results for `query` on both files and returns what
    /// each file's search needs.
    pub fn setup_search(&mut self, query: Query) -> (r: (SearchContext, Option<SearchContext>))
        requires
            old(self).wf(),
        ensures
            final(self).wf(),
            final(self).buf() == old(self).buf(),
            final(self).cursor_pos() == old(self).cursor_pos(),
            final(self).view_index() == old(self).view_index(),
            final(self).cur() == old(self).cur(),
            final(self).rtl() == old(self).rtl(),
            final(self).names() == old(self).names(),
            final(self).contents() == old(self).contents(),
            final(self).searches_view().0 matches Some(st) && same_query(st.query_view(), query)
                && st.starts_seq().len() == 0,
            final(self).searches_view().1 matches Some(st) && same_query(st.query_view(), query)
                && st.starts_seq().len() == 0,
            r.0.first && same_query(r.0.query, query),
            r.1 matches Some(c) && !c.first && same_query(c.query, query),
    {
        let q1 = query.duplicate();
        let q2 = query.duplicate();
        let q3 = query.duplicate();
        self.searches.0 = Some(SearchResults::new(query));
        self.searches.1 = Some(SearchResults::new(q1));
        (SearchContext { first: true, query: q2 }, Some(SearchContext { first: false, query: q3 }))
    }

    /// The query of the first file's search, else that of the second's.
    pub fn current_search_query(&self) -> (r: Option<&Query>)
        ensures
            match (self.searches_view().0, self.searches_view().1) {
                (Some(x), _) => r == Some(&x.query_view()),
                (None, Some(y)) => r == Some(&y.query_view()),
                (None, None) => r.is_none(),
            },
    {
        match &self.searches.0 {
            Some(x) => Some(x.query()),
            None => match &self.searches.1 {
                Some(y) => Some(y.query()),
                None => None,
            },
        }
    }

    /// Splits the view into the two files, each at the address of the cell
    /// under the cursor; gives the view back where the cursor is on no cell.
    pub fn destruct(self) -> (r: Result<(FileState, FileState, Cursor), Aligned>)
        requires
            self.wf(),
        ensures
            match r {
                Ok((a, b, c)) => self.cursor_addresses() == Some([a.index, b.index]) && c
                    == self.cur() && a.name@ == self.names().0 && b.name@ == self.names().1
                    && a.content@ == self.contents().0 && b.content@ == self.contents().1
                    && a.search == self.searches_view().0 && b.search == self.searches_view().1,
                Err(v) => self.cursor_addresses().is_none() && v == self,
            },
    {
        match self.current_cursor_addresses() {
            Some(addrs) => {
                let Aligned { data, filenames, searches, original, index, cursor, right_to_left, columns } =
                    self;
                let (name0, name1) = filenames;
                let (search0, search1) = searches;
                let (content0, content1) = original;
                Ok(
                    (
                        FileState { name: name0, content: content0, index: addrs[0], search: search0 },
                        FileState { name: name1, content: content1, index: addrs[1], search: search1 },
                        cursor,
                    ),
                )
            },
            None => Err(self),
        }
    }
}

/// Leaving the aligned view right after it was made, with no movement, gives
/// back the addresses it was made at: the aligner anchors index 0 at them,
/// and the new view's cursor sits on index 0.
pub proof fn lemma_round_trip(v: Aligned, first_index: usize, second_index: usize)
    requires
        v.wf(),
        v.cursor_pos() == 0,
        v.buf().has(0),
        v.buf().at(0).xaddr == first_index,
        v.buf().at(0).yaddr == second_index,
    ensures
        v.cursor_addresses() == Some([first_index, second_index]),
{
}

/// The byte of `e` on one side, with whether its address lies in a match of
/// that side's search.
pub open spec fn side_byte(e: AlignElement, right: bool, search: Option<SearchResults>) -> Option<ByteData> {
    let byte = if right {
        e.ybyte
    } else {
        e.xbyte
    };
    match byte {
        Some(b) => Some(
            ByteData {
                byte: b,
                is_search_result: search matches Some(st) && st.in_result(side_addr(e, right) as int),
            },
        ),
        None => None,
    }
}

impl Aligned {
    /// What is shown for buffer index `i`: both sides' bytes, or nothing
    /// where the buffer holds no cell there.
    pub open spec fn shown(&self, i: int) -> (Option<ByteData>, Option<ByteData>) {
        if self.buf().has(i) {
            (
                side_byte(self.buf().at(i), false, self.searches_view().0),
                side_byte(self.buf().at(i), true, self.searches_view().1),
            )
        } else {
            (None, None)
        }
    }

    /// The first index of the row `base..base + width` that holds a cell,
    /// where one does.
    pub open spec fn first_mapped(&self, base: int, width: int) -> int {
        if base < self.buf().lo() {
            self.buf().lo()
        } else {
            base
        }
    }

    /// The addresses shown for the row `base..base + width`: those of its
    /// first cell that the buffer holds, or none.
    pub open spec fn row_address(&self, base: int, width: int) -> (Option<usize>, Option<usize>) {
        let i = self.first_mapped(base, width);
        if i < base + width && self.buf().has(i) {
            (Some(self.buf().at(i).xaddr), Some(self.buf().at(i).yaddr))
        } else {
            (None, None)
        }
    }

    /// The bytes one side has in cells `lo..hi`, in order, gaps left out.
    pub open spec fn side_bytes(&self, lo: int, hi: int, right: bool) -> Seq<u8>
        decreases hi - lo,
    {
        if hi <= lo {
            Seq::empty()
        } else {
            let rest = self.side_bytes(lo, hi - 1, right);
            if self.buf().has(hi - 1) {
                let e = self.buf().at(hi - 1);
                match if right {
                    e.ybyte
                } else {
                    e.xbyte
                } {
                    Some(b) => rest.push(b),
                    None => rest,
                }
            } else {
                rest
            }
        }
    }

    fn shown_at(&self, i: isize) -> (r: (Option<ByteData>, Option<ByteData>))
        requires
            self.wf(),
        ensures
            r == self.shown(i as int),
    {
        match self.data.get(i) {
            Some(e) => {
                let first = match e.xbyte {
                    Some(b) => {
                        let hit = match &self.searches.0 {
                            Some(st) => st.is_in_result(Some(e.xaddr)),
                            None => false,
                        };
                        Some(ByteData { byte: b, is_search_result: hit })
                    },
                    None => None,
                };
                let second = match e.ybyte {
                    Some(b) => {
                        let hit = match &self.searches.1 {
                            Some(st) => st.is_in_result(Some(e.yaddr)),
                            None => false,
                        };
                        Some(ByteData { byte: b, is_search_result: hit })
                    },
                    None => None,
                };
                (first, second)
            },
            None => (None, None),
        }
    }

    /// The rows in view, top to bottom, for the painter.
    pub fn get_content(&self) -> (r: Vec<DoubleHexLine>)
        requires
            self.wf(),
        ensures
            r@.len() == self.cur().size_y,
            forall|k: int|
                0 <= k < r@.len() ==> {
                    let base = self.view_index() + k * self.cur().size_x;
                    &&& (#[trigger] r@[k]).address == self.row_address(base, self.cur().size_x as int)
                    &&& r@[k].bytes@.len() == self.cur().size_x
                    &&& forall|c: int|
                        0 <= c < self.cur().size_x ==> #[trigger] r@[k].bytes@[c] == self.shown(
                            base + c,
                        )
                },
    {
        proof {
            self.cursor.lemma_index_in_view();
        }
        let sx = self.cursor.get_size_x();
        let sy = self.cursor.get_size_y();
        let mut content: Vec<DoubleHexLine> = Vec::new();
        let mut row: usize = 0;
        while row < sy
            invariant
                self.wf(),
                sx == self.cur().size_x,
                sy == self.cur().size_y,
                row <= sy,
                content@.len() == row,
                forall|k: int|
                    0 <= k < row ==> {
                        let base = self.view_index() + k * self.cur().size_x;
                        &&& (#[trigger] content@[k]).address == self.row_address(base, self.cur().size_x as int)
                        &&& content@[k].bytes@.len() == self.cur().size_x
                        &&& forall|c: int|
                            0 <= c < self.cur().size_x ==> #[trigger] content@[k].bytes@[c]
                                == self.shown(base + c)
                    },
            decreases sy - row,
        {
            assert(row * sx < sy * sx) by (nonlinear_arith)
                requires
                    row < sy,
                    sx >= 1,
            ;
            assert(sy * sx <= MAX_DIM * MAX_DIM) by (nonlinear_arith)
                requires
                    sy <= MAX_DIM,
                    sx <= MAX_DIM,
            ;
            proof {
                self.cursor.lemma_index_in_view();
            }
            assert(-MAX_HALF - 1 - MAX_DIM * MAX_DIM <= self.view_index() <= MAX_HALF);
            let base: isize = self.index + (row * sx) as isize;
            let mut bytes: Vec<(Option<ByteData>, Option<ByteData>)> = Vec::new();
            let mut col: usize = 0;
            while col < sx
                invariant
                    self.wf(),
                    sx == self.cur().size_x,
                    col <= sx,
                    base == self.view_index() + row * sx,
                    -MAX_HALF - 1 - MAX_DIM * MAX_DIM <= base <= MAX_HALF + MAX_DIM * MAX_DIM,
                    bytes@.len() == col,
                    forall|c: int| 0 <= c < col ==> #[trigger] bytes@[c] == self.shown(base + c),
                decreases sx - col,
            {
                bytes.push(self.shown_at(base + col as isize));
                col = col + 1;
            }
            let lo = self.data.bounds().start;
            let first_mapped = if base < lo {
                lo
            } else {
                base
            };
            let address = if first_mapped < base + sx as isize {
                match self.data.get(first_mapped) {
                    Some(e) => (Some(e.xaddr), Some(e.yaddr)),
                    None => (None, None),
                }
            } else {
                (None, None)
            };
            content.push(DoubleHexLine { address, bytes });
            row = row + 1;
        }
        content
    }

    /// The bytes of each side in the cells in view, gaps left out.
    pub fn bytes_in_view(&self) -> (r: [Vec<u8>; 2])
        requires
            self.wf(),
        ensures
            r[0]@ == self.side_bytes(self.view_index(), self.view_index() + self.cur().size(), false),
            r[1]@ == self.side_bytes(self.view_index(), self.view_index() + self.cur().size(), true),
    {
        proof {
            self.cursor.lemma_index_in_view();
        }
        let end = self.index + self.cursor.get_size() as isize;
        let mut first: Vec<u8> = Vec::new();
        let mut second: Vec<u8> = Vec::new();
        let mut i = self.index;
        while i < end
            invariant
                self.wf(),
                self.view_index() <= i <= end,
                end == self.view_index() + self.cur().size(),
                first@ == self.side_bytes(self.view_index(), i as int, false),
                second@ == self.side_bytes(self.view_index(), i as int, true),
            decreases end - i,
        {
            match self.data.get(i) {
                Some(e) => {
                    if let Some(b) = e.xbyte {
                        first.push(b);
                    }
                    if let Some(b) = e.ybyte {
                        second.push(b);
                    }
                },
                None => {},
            }
            i = i + 1;
        }
        [first, second]
    }

    /// Gives the view `columns` by `rows` cells, keeping the cursor on its
    /// cell; returns whether the size changed.
    pub fn resize(&mut self, dimensions: (usize, usize)) -> (r: bool)
        requires
            old(self).wf(),
            1 <= dimensions.0 <= MAX_DIM,
            1 <= dimensions.1 <= MAX_DIM,
        ensures
            final(self).wf(),
            final(self).buf() == old(self).buf(),
            final(self).searches_view() == old(self).searches_view(),
            final(self).rtl() == old(self).rtl(),
            final(self).cursor_pos() == old(self).cursor_pos(),
            final(self).cur().size_x == dimensions.0,
            final(self).cur().size_y == dimensions.1,
            r == (old(self).cur().size_x != dimensions.0 || old(self).cur().size_y != dimensions.1),
    {
        let (columns, rows) = dimensions;
        let changed = self.cursor.get_size_x() != columns || self.cursor.get_size_y() != rows;
        proof {
            self.cursor.lemma_index_in_view();
        }
        let diff = self.cursor.resize(columns, rows);
        proof {
            self.cursor.lemma_index_in_view();
        }
        self.index = self.index + diff;
        changed
    }

    /// One column more, where the view has fewer than the most.
    pub fn add_column(&mut self)
        requires
            old(self).wf(),
        ensures
            final(self).wf(),
            final(self).buf() == old(self).buf(),
            final(self).searches_view() == old(self).searches_view(),
            final(self).cursor_pos() == old(self).cursor_pos(),
            final(self).cur().size_x == if old(self).cur().size_x < MAX_DIM {
                old(self).cur().size_x + 1
            } else {
                old(self).cur().size_x as int
            },
            final(self).cur().size_y == old(self).cur().size_y,
            final(self).column_view() == ColumnSetting::Fixed(final(self).cur().size_x),
    {
        let sx = self.cursor.get_size_x();
        if sx < MAX_DIM {
            let sy = self.cursor.get_size_y();
            self.resize((sx + 1, sy));
        }
        self.columns = ColumnSetting::Fixed(self.cursor.get_size_x());
    }

    /// One column fewer, where the view has more than one.
    pub fn remove_column(&mut self)
        requires
            old(self).wf(),
        ensures
            final(self).wf(),
            final(self).buf() == old(self).buf(),
            final(self).searches_view() == old(self).searches_view(),
            final(self).cursor_pos() == old(self).cursor_pos(),
            final(self).cur().size_x == if old(self).cur().size_x > 1 {
                old(self).cur().size_x - 1
            } else {
                old(self).cur().size_x as int
            },
            final(self).cur().size_y == old(self).cur().size_y,
            final(self).column_view() == ColumnSetting::Fixed(final(self).cur().size_x),
    {
        let sx = self.cursor.get_size_x();
        if sx > 1 {
            let sy = self.cursor.get_size_y();
            self.resize((sx - 1, sy));
        }
        self.columns = ColumnSetting::Fixed(self.cursor.get_size_x());
    }

    /// The buffer's bounds.
    pub fn bounds(&self) -> (r: Range<isize>)
        requires
            self.wf(),
        ensures
            r.start == self.buf().lo(),
            r.end == self.buf().hi(),
    {
        self.data.bounds()
    }

    /// The buffer index of the first cell in view.
    pub fn view_start(&self) -> (r: isize)
        ensures
            r == self.view_index(),
    {
        self.index
    }

    /// The column setting.
    pub fn column_setting(&self) -> (r: ColumnSetting)
        ensures
            r == self.column_view(),
    {
        self.columns
    }

    /// The cursor within the view.
    pub fn cursor(&self) -> (r: Cursor)
        ensures
            r == self.cur(),
    {
        self.cursor
    }

    /// The two files' names.
    pub fn filenames(&self) -> (r: (&str, &str))
        ensures
            r.0@ == self.names().0 && r.1@ == self.names().1,
    {
        (self.filenames.0.as_str(), self.filenames.1.as_str())
    }

    /// The two files' contents.
    pub fn original(&self) -> (r: (&Vec<u8>, &Vec<u8>))
        ensures
            r.0@ == self.contents().0 && r.1@ == self.contents().1,
    {
        (&self.original.0, &self.original.1)
    }

    /// Sets whether columns run from right to left.
    pub fn set_right_to_left(&mut self, rtl: bool)
        requires
            old(self).wf(),
        ensures
            final(self).wf(),
            final(self).rtl() == rtl,
            final(self).buf() == old(self).buf(),
            final(self).cursor_pos() == old(self).cursor_pos(),
    {
        self.right_to_left = rtl;
    }

    /// The actions that `process_move` carries out itself.
    pub open spec fn handles(action: Action) -> bool {
        match action {
            Action::Down | Action::DownAlt | Action::Up | Action::UpAlt | Action::Left
            | Action::LeftAlt | Action::Right | Action::RightAlt | Action::PgDown | Action::PgUp
            | Action::NextDifference | Action::NextInsertion | Action::PrevDifference
            | Action::PrevInsertion | Action::Top | Action::Bottom | Action::NextSearch
            | Action::PrevSearch | Action::AddColumn | Action::RemoveColumn
            | Action::ResetColumn => true,
            _ => false,
        }
    }

    /// Carries out a movement, jump or column action; returns whether it was
    /// one of those. Other actions leave the view as it is.
    pub fn process_move(&mut self, action: Action) -> (r: bool)
        requires
            old(self).wf(),
        ensures
            final(self).wf(),
            final(self).buf() == old(self).buf(),
            final(self).searches_view() == old(self).searches_view(),
            r == Self::handles(action),
            !r ==> *final(self) == *old(self),
            old(self).move_done(*final(self), action),
    {
        proof {
            self.cursor.lemma_index_in_view();
            assert(MAX_DIM * MAX_DIM < 0x100_0000);
        }
        let sx = self.cursor.get_size_x();
        let sy = self.cursor.get_size_y();
        assert(-MAX_SHIFT <= sx <= MAX_SHIFT);
        assert((-1isize) * sx == -sx);
        assert((-((sy / 2) as isize)) * sx == -((sy / 2) * sx)) by (nonlinear_arith);
        assert(-MAX_SHIFT <= (sy / 2) * sx <= MAX_SHIFT) by (nonlinear_arith)
            requires
                1 <= sx <= MAX_DIM,
                1 <= sy <= MAX_DIM,
        ;
        match action {
            Action::Down => {
                self.move_around(Move::CursorY(1));
            },
            Action::DownAlt => {
                self.move_around(Move::ViewY(1));
            },
            Action::Up => {
                self.move_around(Move::CursorY(-1isize));
            },
            Action::UpAlt => {
                self.move_around(Move::ViewY(-1isize));
            },
            Action::Left => {
                self.move_around(Move::CursorX(-1isize));
            },
            Action::LeftAlt => {
                self.move_around(Move::ViewX(-1isize));
            },
            Action::Right => {
                self.move_around(Move::CursorX(1));
            },
            Action::RightAlt => {
                self.move_around(Move::ViewX(1));
            },
            Action::PgDown => {
                self.move_around(Move::ViewY((sy / 2) as isize));
            },
            Action::PgUp => {
                self.move_around(Move::ViewY(-((sy / 2) as isize)));
            },
            Action::NextDifference => self.jump_next_difference(true, false),
            Action::NextInsertion => self.jump_next_difference(true, true),
            Action::PrevDifference => self.jump_next_difference(false, false),
            Action::PrevInsertion => self.jump_next_difference(false, true),
            Action::Top => self.jump_start(),
            Action::Bottom => self.jump_end(),
            Action::NextSearch => self.jump_next_search_result(),
            Action::PrevSearch => self.jump_prev_search_result(),
            Action::AddColumn => self.add_column(),
            Action::RemoveColumn => self.remove_column(),
            Action::ResetColumn => self.columns = ColumnSetting::Fit,
            _ => return false,
        }
        true
    }

    /// Whether the buffer has room for the cells of `message`; a user event
    /// always fits.
    pub open spec fn fits_spec(&self, message: &AlignedMessage) -> bool {
        match message {
            AlignedMessage::Append(v) => self.buf().hi() + v@.len() <= MAX_HALF,
            AlignedMessage::Prepend(v) => -self.buf().lo() + v@.len() <= MAX_HALF,
            AlignedMessage::UserEvent(_) => true,
        }
    }

    /// Whether `process_action` will take in the cells of `message`; where
    /// it will not, it drops them.
    pub fn fits(&self, message: &AlignedMessage) -> (r: bool)
        requires
            self.wf(),
        ensures
            r == self.fits_spec(message),
    {
        match message {
            AlignedMessage::Append(vec) => {
                let end = self.data.bounds().end;
                vec.len() <= MAX_HALF && end as usize + vec.len() <= MAX_HALF
            },
            AlignedMessage::Prepend(vec) => {
                let start = self.data.bounds().start;
                vec.len() <= MAX_HALF && (-start) as usize + vec.len() <= MAX_HALF
            },
            AlignedMessage::UserEvent(_) => true,
        }
    }

    /// Handles a message: cells from the aligner go into the buffer, user
    /// actions are carried out. Returns whether the view must be redrawn:
    /// new cells met the view, the user asked for a refresh, or an action
    /// was carried out. A batch of cells that would not fit the buffer is
    /// dropped.
    pub fn process_action(&mut self, action: AlignedMessage) -> (r: bool)
        requires
            old(self).wf(),
        ensures
            final(self).wf(),
            match action {
                AlignedMessage::Append(v) => if old(self).buf().hi() + v@.len() <= MAX_HALF {
                    &&& final(self).buf().hi() == old(self).buf().hi() + v@.len()
                    &&& final(self).buf().lo() == old(self).buf().lo()
                    &&& forall|k: int|
                        0 <= k < v@.len() ==> final(self).buf().at(old(self).buf().hi() + k)
                            == v@[k]
                    &&& r == old(self).in_view(old(self).buf().hi(), old(self).buf().hi() + v@.len())
                    &&& old(self).unchanged_but_cells(*final(self))
                } else {
                    !r && *final(self) == *old(self)
                },
                AlignedMessage::Prepend(v) => if -old(self).buf().lo() + v@.len() <= MAX_HALF {
                    &&& final(self).buf().lo() == old(self).buf().lo() - v@.len()
                    &&& final(self).buf().hi() == old(self).buf().hi()
                    &&& forall|k: int|
                        0 <= k < v@.len() ==> final(self).buf().at(final(self).buf().lo() + k)
                            == v@[k]
                    &&& r == old(self).in_view(old(self).buf().lo() - v@.len(), old(self).buf().lo())
                    &&& old(self).unchanged_but_cells(*final(self))
                } else {
                    !r && *final(self) == *old(self)
                },
                AlignedMessage::UserEvent(a) => if a == Action::Refresh {
                    r && *final(self) == *old(self)
                } else {
                    r == Self::handles(a) && old(self).move_done(*final(self), a)
                },
            },
    {
        match action {
            AlignedMessage::UserEvent(ev) => match ev {
                Action::Refresh => true,
                otherwise => self.process_move(otherwise),
            },
            AlignedMessage::Append(vec) => {
                let end = self.data.bounds().end;
                if vec.len() <= MAX_HALF && end as usize + vec.len() <= MAX_HALF {
                    self.append(vec)
                } else {
                    false
                }
            },
            AlignedMessage::Prepend(vec) => {
                let start = self.data.bounds().start;
                if vec.len() <= MAX_HALF && (-start) as usize + vec.len() <= MAX_HALF {
                    self.prepend(vec)
                } else {
                    false
                }
            },
        }
    }
}

/// Cells that arrive in address order keep the buffer in address order: a
/// batch put after the last cell, or one put before the first, whose own
/// addresses do not decrease and which continues (or leads into) the
/// buffer's addresses, leaves both sides' addresses non-decreasing.
pub proof fn lemma_stream_order(
    b0: SignedBuffer<AlignElement>,
    b1: SignedBuffer<AlignElement>,
    xs: Seq<AlignElement>,
    at_end: bool,
)
    requires
        b0.wf(),
        addrs_sorted(b0, false) && addrs_sorted(b0, true),
        cells_monotone(xs),
        forall|i: int| b0.has(i) ==> b1.at(i) == b0.at(i),
        at_end ==> {
            &&& b1.lo() == b0.lo() && b1.hi() == b0.hi() + xs.len()
            &&& forall|k: int| 0 <= k < xs.len() ==> b1.at(b0.hi() + k) == xs[k]
            &&& b0.lo() < b0.hi() && xs.len() > 0 ==> b0.at(b0.hi() - 1).xaddr <= xs[0].xaddr
                && b0.at(b0.hi() - 1).yaddr <= xs[0].yaddr
        },
        !at_end ==> {
            &&& b1.hi() == b0.hi() && b1.lo() == b0.lo() - xs.len()
            &&& forall|k: int| 0 <= k < xs.len() ==> b1.at(b1.lo() + k) == xs[k]
            &&& b0.lo() < b0.hi() && xs.len() > 0 ==> xs.last().xaddr <= b0.at(b0.lo()).xaddr
                && xs.last().yaddr <= b0.at(b0.lo()).yaddr
        },
    ensures
        addrs_sorted(b1, false),
        addrs_sorted(b1, true),
{
    assert forall|i: int, j: int, right: bool|
        b1.lo() <= i <= j < b1.hi() implies side_addr(b1.at(i), right) <= side_addr(
        b1.at(j),
        right,
    ) by {
        if at_end {
            if j < b0.hi() {
            } else if i >= b0.hi() {
                assert(b1.at(i) == xs[i - b0.hi()]);
                assert(b1.at(j) == xs[j - b0.hi()]);
            } else {
                assert(b1.at(j) == xs[j - b0.hi()]);
                assert(side_addr(b0.at(i), right) <= side_addr(b0.at(b0.hi() - 1), right));
                assert(xs[0].xaddr <= xs[j - b0.hi()].xaddr && xs[0].yaddr <= xs[j - b0.hi()].yaddr);
            }
        } else {
            if i >= b0.lo() {
            } else if j < b0.lo() {
                assert(b1.at(i) == xs[i - b1.lo()]);
                assert(b1.at(j) == xs[j - b1.lo()]);
            } else {
                assert(b1.at(i) == xs[i - b1.lo()]);
                assert(side_addr(b0.at(b0.lo()), right) <= side_addr(b0.at(j), right));
                assert(xs[i - b1.lo()].xaddr <= xs.last().xaddr && xs[i - b1.lo()].yaddr
                    <= xs.last().yaddr);
            }
        }
    }
}

} // verus!
