//! Search queries and the per-file stores of their matches.
use std::ops::Range;
use vstd::prelude::*;
use vstd::string::StrSliceExecFns;

verus! {

#[verifier::external_type_specification]
#[verifier::external_body]
pub struct ExRegex(regex::bytes::Regex);

/// Relies on `Clone` for `regex::bytes::Regex`, which shares the compiled program.
pub assume_specification[ <regex::bytes::Regex as Clone>::clone ](r: &regex::bytes::Regex) -> regex::bytes::Regex;

/// A character with a meaning in a regex.
pub open spec fn is_meta(c: char) -> bool {
    c == '\\' || c == '.' || c == '+' || c == '*' || c == '?' || c == '(' || c == ')' || c == '|'
        || c == '[' || c == ']' || c == '{' || c == '}' || c == '^' || c == '$' || c == '#' || c
        == '&' || c == '-' || c == '~'
}

/// `text` with a backslash before each character that has a meaning in a
/// regex: a pattern that matches `text` literally.
pub open spec fn escaped(text: Seq<char>) -> Seq<char>
    decreases text.len(),
{
    if text.len() == 0 {
        Seq::empty()
    } else {
        let rest = escaped(text.drop_last());
        let c = text.last();
        if is_meta(c) {
            rest.push('\\').push(c)
        } else {
            rest.push(c)
        }
    }
}

/// Whether `regex::bytes::RegexBuilder` compiles `pattern` in multi-line
/// mode with Unicode on or off.
pub uninterp spec fn regex_compiles(pattern: Seq<char>, unicode: bool) -> bool;

/// Whether `hexagex::hexagex` accepts `text`.
pub uninterp spec fn hexagex_compiles(text: Seq<char>) -> bool;

/// Whether a query of kind `kind` with text `text` compiles: plain text is
/// escaped and compiled with Unicode on, a regex with Unicode off, a
/// hexagex by its own compiler.
pub open spec fn query_compiles(kind: QueryType, text: Seq<char>) -> bool {
    match kind {
        QueryType::Text => regex_compiles(escaped(text), true),
        QueryType::Regex => regex_compiles(text, false),
        QueryType::Hexagex => !text.contains('\r') && hexagex_compiles(text),
    }
}

/// Relies on `regex::escape`: a backslash before each meta character of
/// `text`.
#[verifier::external_body]
fn escape_text(text: &str) -> (r: String)
    ensures
        r@ == escaped(text@),
{
    regex::escape(text)
}

/// Relies on `regex::bytes::RegexBuilder`: compiles `pattern` in multi-line
/// mode, with Unicode classes on or off; the error is its message.
#[verifier::external_body]
fn build_regex(pattern: &str, unicode: bool) -> (r: Result<regex::bytes::Regex, String>)
    ensures
        r is Ok == regex_compiles(pattern@, unicode),
{
    regex::bytes::RegexBuilder::new(pattern).multi_line(true).unicode(unicode).build().map_err(
        |e| e.to_string(),
    )
}

/// Relies on `hexagex::hexagex`: compiles a regex written in hexadecimal
/// digits and bits; the error is its message. A carriage return makes its
/// error report count columns past the end of a line and panic, so such
/// texts are kept from it.
#[verifier::external_body]
fn compile_hexagex(text: &str) -> (r: Result<regex::bytes::Regex, String>)
    requires
        !text@.contains('\r'),
    ensures
        r is Ok == hexagex_compiles(text@),
{
    hexagex::hexagex(text).map_err(|e| e.to_string())
}

/// Whether `text` holds a carriage return.
fn has_carriage_return(text: &str) -> (r: bool)
    ensures
        r == text@.contains('\r'),
{
    let n = text.unicode_len();
    let mut i: usize = 0;
    while i < n
        invariant
            n == text@.len(),
            i <= n,
            forall|k: int| 0 <= k < i ==> text@[k] != '\r',
        decreases n - i,
    {
        if text.get_char(i) == '\r' {
            return true;
        }
        i = i + 1;
    }
    false
}

/// The three kinds of query, which are all compiled to a regex, but with
/// different options.
#[derive(Clone, Copy, Debug, PartialEq, Eq, Structural)]
pub enum QueryType {
    /// plain unescaped text
    Text,
    /// a normal regex
    Regex,
    /// a regex using hex characters
    Hexagex,
}

/// A search query with its compiled regex.
pub struct Query {
    text: String,
    query_type: QueryType,
    compiled: regex::bytes::Regex,
}

impl PartialEq for Query {
    /// The compiled regex is not compared: it follows from text and kind.
    fn eq(&self, other: &Query) -> (r: bool) {
        self.query_type == other.query_type && self.text == other.text
    }
}

impl vstd::std_specs::cmp::PartialEqSpecImpl for Query {
    open spec fn obeys_eq_spec() -> bool {
        true
    }

    open spec fn eq_spec(&self, other: &Query) -> bool {
        self.text_view() == other.text_view() && self.kind() == other.kind()
    }
}

impl Query {
    /// The text the user typed.
    pub closed spec fn text_view(&self) -> Seq<char> {
        self.text@
    }

    /// The kind of the query.
    pub closed spec fn kind(&self) -> QueryType {
        self.query_type
    }

    /// Compiles `text` as a query of kind `query_type`; the error is the
    /// compiler's message.
    pub fn new(query_type: QueryType, text: &str) -> (r: Result<Query, String>)
        ensures
            r is Ok == query_compiles(query_type, text@),
            r matches Ok(q) ==> q.text_view() == text@ && q.kind() == query_type,
    {
        let compiled = match query_type {
            QueryType::Text => {
                let escaped = escape_text(text);
                build_regex(escaped.as_str(), true)
            },
            QueryType::Regex => build_regex(text, false),
            QueryType::Hexagex => if has_carriage_return(text) {
                Err("a hexagex may not hold a carriage return".to_owned())
            } else {
                compile_hexagex(text)
            },
        };
        match compiled {
            Ok(compiled) => Ok(Query { text: text.to_owned(), query_type, compiled }),
            Err(e) => Err(e),
        }
    }

    pub fn query_type(&self) -> (r: QueryType)
        ensures
            r == self.kind(),
    {
        self.query_type
    }

    pub fn text(&self) -> (r: &str)
        ensures
            r@ == self.text_view(),
    {
        self.text.as_str()
    }

    /// The compiled regex.
    pub fn compiled(&self) -> &regex::bytes::Regex {
        &self.compiled
    }

    /// A second query equal to this one, sharing its compiled regex.
    pub fn duplicate(&self) -> (r: Query)
        ensures
            r.text_view() == self.text_view(),
            r.kind() == self.kind(),
    {
        Query { text: self.text.clone(), query_type: self.query_type, compiled: self.compiled.clone() }
    }
}

/// `a` lies wholly before `b`, with a smaller start and a smaller end.
pub open spec fn before(a: (usize, usize), b: (usize, usize)) -> bool {
    a.0 < b.0 && a.1 < b.1 && a.1 <= b.0
}

/// `x` lies wholly before or wholly after each pair of `set`.
pub open spec fn apart_from_all(set: Set<(usize, usize)>, x: (usize, usize)) -> bool {
    forall|q: (usize, usize)| set.contains(q) ==> before(q, x) || before(x, q)
}

/// Ranges `(start, end)` in ascending order, pairwise apart.
pub open spec fn ordered_ranges(s: Seq<(usize, usize)>) -> bool {
    &&& forall|i: int| 0 <= i < s.len() ==> s[i].0 <= s[i].1
    &&& forall|i: int, j: int| 0 <= i < j < s.len() ==> before(s[i], s[j])
}

/// Pairs ordered strictly by their first component.
pub open spec fn keys_ascending(s: Seq<(usize, usize)>) -> bool {
    forall|i: int, j: int| 0 <= i < j < s.len() ==> s[i].0 < s[j].0
}

/// `i` is the last position whose key is at most `addr`.
pub open spec fn last_at_most(s: Seq<(usize, usize)>, i: int, addr: int) -> bool {
    &&& 0 <= i < s.len()
    &&& s[i].0 <= addr
    &&& (i + 1 == s.len() || s[i + 1].0 > addr)
}

/// `i` is the first position whose key is greater than `addr`.
pub open spec fn first_above(s: Seq<(usize, usize)>, i: int, addr: int) -> bool {
    &&& 0 <= i < s.len()
    &&& s[i].0 > addr
    &&& (i == 0 || s[i - 1].0 <= addr)
}

/// A search result as (start, end) pairs.
pub open spec fn as_pairs(r: Option<Result<Range<usize>, Range<usize>>>) -> Option<
    Result<(usize, usize), (usize, usize)>,
> {
    match r {
        Some(Ok(x)) => Some(Ok((x.start, x.end))),
        Some(Err(x)) => Some(Err((x.start, x.end))),
        None => None,
    }
}

/// The number of leading pairs of `v` whose key is at most `addr`.
fn count_at_most(v: &Vec<(usize, usize)>, addr: usize) -> (r: usize)
    requires
        keys_ascending(v@),
    ensures
        r <= v@.len(),
        forall|k: int| 0 <= k < r ==> v@[k].0 <= addr,
        forall|k: int| r <= k < v@.len() ==> v@[k].0 > addr,
{
    let mut lo: usize = 0;
    let mut hi: usize = v.len();
    while lo < hi
        invariant
            lo <= hi <= v@.len(),
            keys_ascending(v@),
            forall|k: int| 0 <= k < lo ==> v@[k].0 <= addr,
            forall|k: int| hi <= k < v@.len() ==> v@[k].0 > addr,
        decreases hi - lo,
    {
        let mid = lo + (hi - lo) / 2;
        if v[mid].0 <= addr {
            lo = mid + 1;
        } else {
            hi = mid;
        }
    }
    lo
}

/// A query and the matches found for it so far.
pub struct SearchResults {
    /// each match as (start, end), ascending by start
    starts: Vec<(usize, usize)>,
    /// each match as (end, start), ascending by end
    ends: Vec<(usize, usize)>,
    /// the query this belongs to
    query: Query,
}

impl SearchResults {
    /// The matches as (start, end) pairs, ordered by start.
    pub closed spec fn starts_seq(&self) -> Seq<(usize, usize)> {
        self.starts@
    }

    /// The matches as (end, start) pairs, ordered by end.
    pub closed spec fn ends_seq(&self) -> Seq<(usize, usize)> {
        self.ends@
    }

    pub closed spec fn query_view(&self) -> Query {
        self.query
    }

    /// The matches are ordered and apart, and the table by end mirrors the
    /// table by start.
    pub open spec fn wf(&self) -> bool {
        &&& ordered_ranges(self.starts_seq())
        &&& self.ends_seq().len() == self.starts_seq().len()
        &&& forall|i: int|
            0 <= i < self.starts_seq().len() ==> #[trigger] self.ends_seq()[i] == (
            self.starts_seq()[i].1,
            self.starts_seq()[i].0,
        )
    }

    /// What `next_result` returns, as (start, end) pairs.
    pub open spec fn next_spec(&self, addr: int) -> Option<Result<(usize, usize), (usize, usize)>> {
        let s = self.starts_seq();
        if exists|i: int| first_above(s, i, addr) {
            Some(Ok(s[choose|i: int| first_above(s, i, addr)]))
        } else if s.len() > 0 {
            Some(Err(s[0]))
        } else {
            None
        }
    }

    /// What `prev_result` returns, as (start, end) pairs.
    pub open spec fn prev_spec(&self, addr: int) -> Option<Result<(usize, usize), (usize, usize)>> {
        let e = self.ends_seq();
        if exists|i: int| last_at_most(e, i, addr) {
            let i = choose|i: int| last_at_most(e, i, addr);
            Some(Ok((e[i].1, e[i].0)))
        } else if e.len() > 0 {
            Some(Err((e.last().1, e.last().0)))
        } else {
            None
        }
    }

    /// `addr` lies in the match with the greatest start at most `addr`.
    pub open spec fn in_result(&self, addr: int) -> bool {
        exists|i: int|
            last_at_most(self.starts_seq(), i, addr) && addr < #[trigger] self.starts_seq()[i].1
    }

    /// The matches as a set of (start, end) pairs.
    pub open spec fn match_set(&self) -> Set<(usize, usize)> {
        self.starts_seq().to_set()
    }

    /// `range` may be added: it lies wholly before or wholly after every
    /// stored match.
    pub open spec fn accepts(&self, range: Range<usize>) -> bool {
        range.start <= range.end && apart_from_all(self.match_set(), (range.start, range.end))
    }

    /// An empty store for `query`.
    pub fn new(query: Query) -> (r: SearchResults)
        ensures
            r.wf(),
            r.starts_seq().len() == 0,
            r.query_view() == query,
    {
        SearchResults { starts: Vec::new(), ends: Vec::new(), query }
    }

    /// The query this store belongs to.
    pub fn query(&self) -> (r: &Query)
        ensures
            *r == self.query_view(),
    {
        &self.query
    }

    /// Whether `range` may be added by `add_match`.
    pub fn can_add(&self, range: &Range<usize>) -> (r: bool)
        requires
            self.wf(),
        ensures
            r == self.accepts(*range),
    {
        proof {
            self.lemma_ends_ascending();
        }
        let x = (range.start, range.end);
        let p = count_at_most(&self.starts, range.start);
        let after_prev = p == 0 || {
            let a = self.starts[p - 1];
            a.0 < x.0 && a.1 < x.1 && a.1 <= x.0
        };
        let before_next = p == self.starts.len() || {
            let c = self.starts[p];
            x.0 < c.0 && x.1 < c.1 && x.1 <= c.0
        };
        let r = range.start <= range.end && after_prev && before_next;
        proof {
            let s = self.starts_seq();
            if r {
                assert forall|q: (usize, usize)| self.match_set().contains(q) implies before(q, x)
                    || before(x, q) by {
                    let k = choose|k: int| 0 <= k < s.len() && s[k] == q;
                    if k < p - 1 {
                        assert(before(s[k], s[p - 1]));
                    } else if k > p as int {
                        assert(before(s[p as int], s[k]));
                    }
                }
            } else if range.start <= range.end {
                if !after_prev {
                    assert(self.match_set().contains(s[p - 1]));
                } else {
                    assert(self.match_set().contains(s[p as int]));
                }
            }
        }
        r
    }

    /// Adds a match that lies apart from all stored ones, at its place.
    pub fn add_match(&mut self, range: Range<usize>)
        requires
            old(self).wf(),
            old(self).accepts(range),
        ensures
            final(self).wf(),
            final(self).query_view() == old(self).query_view(),
            final(self).match_set() == old(self).match_set().insert((range.start, range.end)),
            exists|p: int|
                0 <= p <= old(self).starts_seq().len() && final(self).starts_seq()
                    == old(self).starts_seq().insert(p, (range.start, range.end))
                    && final(self).ends_seq() == old(self).ends_seq().insert(
                    p,
                    (range.end, range.start),
                ),
    {
        proof {
            self.lemma_ends_ascending();
        }
        let ghost s0 = self.starts@;
        let ghost e0 = self.ends@;
        let x = (range.start, range.end);
        let p = count_at_most(&self.starts, range.start);
        self.starts.insert(p, x);
        self.ends.insert(p, (range.end, range.start));
        proof {
            let s = self.starts@;
            assert forall|k: int| 0 <= k < s0.len() implies (k < p ==> before(s0[k], x)) && (k >= p
                ==> before(x, s0[k])) by {
                assert(s0.to_set().contains(s0[k]));
            }
            assert forall|i: int| 0 <= i < s.len() implies s[i].0 <= s[i].1 by {
                if i < p {
                    assert(s[i] == s0[i]);
                } else if i > p {
                    assert(s[i] == s0[i - 1]);
                }
            }
            assert forall|i: int, j: int| 0 <= i < j < s.len() implies before(s[i], s[j]) by {
                if j < p {
                    assert(s[i] == s0[i] && s[j] == s0[j]);
                } else if i > p {
                    assert(s[i] == s0[i - 1] && s[j] == s0[j - 1]);
                } else if i < p && j > p {
                    assert(s[i] == s0[i] && s[j] == s0[j - 1]);
                    assert(before(s0[i], x) && before(x, s0[j - 1]));
                } else if i == p {
                    assert(s[j] == s0[j - 1]);
                } else {
                    assert(s[i] == s0[i]);
                }
            }
            assert forall|i: int| 0 <= i < s.len() implies #[trigger] self.ends@[i] == (
                s[i].1,
                s[i].0,
            ) by {
                if i < p {
                    assert(s[i] == s0[i] && self.ends@[i] == e0[i]);
                    assert(e0[i] == (s0[i].1, s0[i].0));
                } else if i > p {
                    assert(s[i] == s0[i - 1] && self.ends@[i] == e0[i - 1]);
                    assert(e0[i - 1] == (s0[i - 1].1, s0[i - 1].0));
                }
            }
            assert(s.to_set() =~= s0.to_set().insert(x)) by {
                assert forall|q: (usize, usize)| s.to_set().contains(q) implies s0.to_set().insert(
                    x,
                ).contains(q) by {
                    let k = choose|k: int| 0 <= k < s.len() && s[k] == q;
                    if k < p {
                        assert(s0[k] == q);
                    } else if k > p {
                        assert(s0[k - 1] == q);
                    }
                }
                assert forall|q: (usize, usize)| s0.to_set().insert(x).contains(q) implies s.to_set().contains(q) by {
                    if q == x {
                        assert(s[p as int] == x);
                    } else {
                        let k = choose|k: int| 0 <= k < s0.len() && s0[k] == q;
                        if k < p {
                            assert(s[k] == q);
                        } else {
                            assert(s[k + 1] == q);
                        }
                    }
                }
            }
        }
    }

    /// Whether `addr` lies inside a match.
    pub fn is_in_result(&self, addr: Option<usize>) -> (r: bool)
        requires
            self.wf(),
        ensures
            r == (addr matches Some(a) && self.in_result(a as int)),
    {
        let addr = match addr {
            Some(a) => a,
            None => return false,
        };
        proof {
            self.lemma_ends_ascending();
        }
        let n = count_at_most(&self.starts, addr);
        if n == 0 {
            false
        } else {
            let (start, end) = self.starts[n - 1];
            let r = start <= addr && addr < end;
            proof {
                if r {
                    assert(last_at_most(self.starts_seq(), n - 1, addr as int));
                }
                if !r {
                    assert forall|i: int|
                        last_at_most(self.starts_seq(), i, addr as int) implies !(addr
                        < #[trigger] self.starts_seq()[i].1) by {
                        if i < n - 1 {
                            assert(self.starts_seq()[i + 1].0 <= addr);
                        }
                    }
                }
            }
            r
        }
    }

    /// The first match starting after `addr` as `Ok`; where there is none,
    /// the first match of all as `Err` (the search wraps around); `None`
    /// where there is no match.
    pub fn next_result(&self, addr: usize) -> (r: Option<Result<Range<usize>, Range<usize>>>)
        requires
            self.wf(),
        ensures
            r.is_none() == (self.starts_seq().len() == 0),
            (r matches Some(Ok(_))) == (exists|i: int|
                0 <= i < self.starts_seq().len() && #[trigger] self.starts_seq()[i].0 > addr),
            r matches Some(Ok(x)) ==> exists|i: int|
                first_above(self.starts_seq(), i, addr as int) && x.start == self.starts_seq()[i].0
                    && x.end == self.starts_seq()[i].1,
            r matches Some(Err(x)) ==> x.start == self.starts_seq()[0].0 && x.end
                == self.starts_seq()[0].1,
            as_pairs(r) == self.next_spec(addr as int),
    {
        proof {
            self.lemma_ends_ascending();
        }
        let n = count_at_most(&self.starts, addr);
        if n < self.starts.len() {
            let (a, b) = self.starts[n];
            assert(first_above(self.starts_seq(), n as int, addr as int));
            proof {
                let s = self.starts_seq();
                let i = choose|i: int| first_above(s, i, addr as int);
                if i < n {
                    assert(s[i].0 <= s[n - 1].0 || i == n - 1);
                }
                if i > n {
                    assert(s[n as int].0 <= s[i - 1].0 || n == i - 1);
                }
                assert(i == n);
            }
            Some(Ok(a..b))
        } else if self.starts.len() > 0 {
            let (a, b) = self.starts[0];
            assert(!exists|i: int| first_above(self.starts_seq(), i, addr as int));
            Some(Err(a..b))
        } else {
            None
        }
    }

    /// The last match ending at or before `addr` as `Ok`; where there is
    /// none, the last match of all as `Err` (the search wraps around);
    /// `None` where there is no match.
    pub fn prev_result(&self, addr: usize) -> (r: Option<Result<Range<usize>, Range<usize>>>)
        requires
            self.wf(),
        ensures
            r.is_none() == (self.ends_seq().len() == 0),
            (r matches Some(Ok(_))) == (exists|i: int|
                0 <= i < self.ends_seq().len() && #[trigger] self.ends_seq()[i].0 <= addr),
            r matches Some(Ok(x)) ==> exists|i: int|
                last_at_most(self.ends_seq(), i, addr as int) && x.start == self.ends_seq()[i].1
                    && x.end == self.ends_seq()[i].0,
            r matches Some(Err(x)) ==> x.start == self.ends_seq().last().1 && x.end
                == self.ends_seq().last().0,
            as_pairs(r) == self.prev_spec(addr as int),
    {
        proof {
            self.lemma_ends_ascending();
        }
        let n = count_at_most(&self.ends, addr);
        if n > 0 {
            let (e, s) = self.ends[n - 1];
            assert(last_at_most(self.ends_seq(), n - 1, addr as int));
            proof {
                let es = self.ends_seq();
                let i = choose|i: int| last_at_most(es, i, addr as int);
                if i < n - 1 {
                    assert(es[i + 1].0 <= es[n - 1].0 || i + 1 == n - 1);
                }
                if i > n - 1 {
                    assert(es[n as int].0 <= es[i].0 || n == i);
                }
                assert(i == n - 1);
            }
            Some(Ok(s..e))
        } else if self.ends.len() > 0 {
            let (e, s) = self.ends[self.ends.len() - 1];
            assert(!exists|i: int| last_at_most(self.ends_seq(), i, addr as int));
            Some(Err(s..e))
        } else {
            None
        }
    }

    /// The row of the nearest candidate after the cursor, given for each store
    /// its `next_result` mapped to rows; `None` where there is no candidate.
    pub fn nearest_next_result(cands: &Vec<Result<isize, isize>>) -> (r: Option<isize>)
        ensures
            r.is_none() == (cands@.len() == 0),
            r matches Some(v) ==> exists|i: int| nearest_next_at(cands@, i) && both_value(cands@[i]) == v,
    {
        pick_nearest(cands, true)
    }

    /// The row of the nearest candidate before the cursor, given for each store
    /// its `prev_result` mapped to rows; `None` where there is no candidate.
    pub fn nearest_prev_result(cands: &Vec<Result<isize, isize>>) -> (r: Option<isize>)
        ensures
            r.is_none() == (cands@.len() == 0),
            r matches Some(v) ==> exists|i: int| nearest_prev_at(cands@, i) && both_value(cands@[i]) == v,
    {
        pick_nearest(cands, false)
    }

    /// The table by end is ordered by its keys.
    pub proof fn lemma_ends_ascending(&self)
        requires
            self.wf(),
        ensures
            keys_ascending(self.ends_seq()),
            keys_ascending(self.starts_seq()),
    {
        assert forall|i: int, j: int|
            0 <= i < j < self.ends_seq().len() implies self.ends_seq()[i].0
            < self.ends_seq()[j].0 by {
            assert(before(self.starts_seq()[i], self.starts_seq()[j]));
            assert(self.ends_seq()[i] == (self.starts_seq()[i].1, self.starts_seq()[i].0));
            assert(self.ends_seq()[j] == (self.starts_seq()[j].1, self.starts_seq()[j].0));
        }
        assert forall|i: int, j: int|
            0 <= i < j < self.starts_seq().len() implies self.starts_seq()[i].0
            < self.starts_seq()[j].0 by {
            assert(before(self.starts_seq()[i], self.starts_seq()[j]));
        }
    }
}

/// The value held by either variant.
pub open spec fn both_value<T>(r: Result<T, T>) -> T {
    match r {
        Ok(v) => v,
        Err(v) => v,
    }
}

/// Applies `f` to the value of either variant, keeping the variant.
pub fn map_both<T, S, F: FnOnce(T) -> S>(r: Result<T, T>, f: F) -> (o: Result<S, S>)
    requires
        f.requires((both_value(r),)),
    ensures
        o is Ok == r is Ok,
        f.ensures((both_value(r),), both_value(o)),
{
    match r {
        Ok(s) => Ok(f(s)),
        Err(s) => Err(f(s)),
    }
}

/// Moves an inner `Option` out of either variant.
pub fn transpose_both<T>(r: Result<Option<T>, Option<T>>) -> (o: Option<Result<T, T>>)
    ensures
        o.is_some() == both_value(r).is_some(),
        o matches Some(x) ==> (x is Ok == r is Ok) && both_value(x) == both_value(r).unwrap(),
{
    match r {
        Ok(Some(s)) => Some(Ok(s)),
        Err(Some(s)) => Some(Err(s)),
        Ok(None) | Err(None) => None,
    }
}

/// The value of either variant.
pub fn unwrap_both<T>(r: Result<T, T>) -> (o: T)
    ensures
        o == both_value(r),
{
    match r {
        Ok(s) | Err(s) => s,
    }
}

/// For a forward search: `a` is nearer than `b`. A hit that needs no
/// wrap-around (`Ok`) comes before one that does (`Err`); among equals the
/// lower row comes first.
pub open spec fn next_before(a: Result<isize, isize>, b: Result<isize, isize>) -> bool {
    (a is Ok && b is Err) || ((a is Ok == b is Ok) && both_value(a) < both_value(b))
}

/// For a backward search: `a` is nearer than `b`. `Ok` comes before `Err`;
/// among equals the higher row comes first.
pub open spec fn prev_before(a: Result<isize, isize>, b: Result<isize, isize>) -> bool {
    (a is Ok && b is Err) || ((a is Ok == b is Ok) && both_value(a) > both_value(b))
}

/// `cands[i]` is a nearest candidate of a forward search.
pub open spec fn nearest_next_at(cands: Seq<Result<isize, isize>>, i: int) -> bool {
    0 <= i < cands.len() && forall|j: int| 0 <= j < cands.len() ==> !next_before(cands[j], cands[i])
}

/// `cands[i]` is a nearest candidate of a backward search.
pub open spec fn nearest_prev_at(cands: Seq<Result<isize, isize>>, i: int) -> bool {
    0 <= i < cands.len() && forall|j: int| 0 <= j < cands.len() ==> !prev_before(cands[j], cands[i])
}

/// Picks the nearest of `cands` by the order of `next_before` or `prev_before`.
fn pick_nearest(cands: &Vec<Result<isize, isize>>, forward: bool) -> (r: Option<isize>)
    ensures
        r.is_none() == (cands@.len() == 0),
        forward ==> (r matches Some(v) ==> exists|i: int|
            nearest_next_at(cands@, i) && both_value(cands@[i]) == v),
        !forward ==> (r matches Some(v) ==> exists|i: int|
            nearest_prev_at(cands@, i) && both_value(cands@[i]) == v),
{
    if cands.len() == 0 {
        return None;
    }
    let mut best: usize = 0;
    let mut k: usize = 1;
    while k < cands.len()
        invariant
            0 <= best < k <= cands@.len(),
            forward ==> forall|j: int| 0 <= j < k ==> !next_before(cands@[j], cands@[best as int]),
            !forward ==> forall|j: int| 0 <= j < k ==> !prev_before(cands@[j], cands@[best as int]),
        decreases cands@.len() - k,
    {
        let c = cands[k];
        let b = cands[best];
        let nearer = match (c, b) {
            (Ok(_), Err(_)) => true,
            (Err(_), Ok(_)) => false,
            (Ok(x), Ok(y)) | (Err(x), Err(y)) => if forward {
                x < y
            } else {
                x > y
            },
        };
        if nearer {
            best = k;
        }
        k = k + 1;
    }
    let v = unwrap_both(cands[best]);
    proof {
        if forward {
            assert(nearest_next_at(cands@, best as int));
        } else {
            assert(nearest_prev_at(cands@, best as int));
        }
    }
    Some(v)
}

/// A hit that needs no wrap-around sorts strictly before one that does, in
/// both directions; so whenever some candidate needs no wrap-around, the
/// nearest one needs none either.
pub proof fn lemma_unwrapped_first(cands: Seq<Result<isize, isize>>, i: int, a: isize, b: isize)
    ensures
        next_before(Ok(a), Err(b)) && !next_before(Err(b), Ok(a)),
        prev_before(Ok(a), Err(b)) && !prev_before(Err(b), Ok(a)),
        nearest_next_at(cands, i) && (exists|j: int| 0 <= j < cands.len() && #[trigger] cands[j] is Ok)
            ==> cands[i] is Ok,
        nearest_prev_at(cands, i) && (exists|j: int| 0 <= j < cands.len() && #[trigger] cands[j] is Ok)
            ==> cands[i] is Ok,
{
}

/// Every match is recorded under its end too, matches do not overlap, and an
/// address lies in a result exactly when some match holds it.
pub proof fn lemma_store_consistent(store: &SearchResults, addr: int)
    requires
        store.wf(),
    ensures
        forall|i: int|
            0 <= i < store.starts_seq().len() ==> exists|j: int|
                0 <= j < store.ends_seq().len() && #[trigger] store.ends_seq()[j] == (
                (#[trigger] store.starts_seq()[i]).1,
                store.starts_seq()[i].0,
            ),
        forall|i: int, j: int|
            0 <= i < j < store.starts_seq().len() ==> store.starts_seq()[i].1
                <= store.starts_seq()[j].0,
        store.in_result(addr) <==> exists|i: int|
            0 <= i < store.starts_seq().len() && store.starts_seq()[i].0 <= addr < (
            #[trigger] store.starts_seq()[i]).1,
{
    let s = store.starts_seq();
    assert forall|i: int| 0 <= i < s.len() implies exists|j: int|
        0 <= j < store.ends_seq().len() && #[trigger] store.ends_seq()[j] == (
        (#[trigger] s[i]).1,
        s[i].0,
    ) by {
        assert(store.ends_seq()[i] == (s[i].1, s[i].0));
    }
    assert forall|i: int, j: int| 0 <= i < j < s.len() implies s[i].1 <= s[j].0 by {
        assert(before(s[i], s[j]));
    }
    if exists|i: int| 0 <= i < s.len() && s[i].0 <= addr < (#[trigger] s[i]).1 {
        let i = choose|i: int| 0 <= i < s.len() && s[i].0 <= addr < (#[trigger] s[i]).1;
        if i + 1 < s.len() {
            assert(before(s[i], s[i + 1]));
        }
        assert(last_at_most(s, i, addr));
    }
}

/// Which of the two panes a command applies to.
#[derive(Clone, Copy, Debug, PartialEq, Eq, Structural)]
pub enum CursorActive {
    /// no pane is selected
    Neither,
    First,
    Second,
    Both,
}

impl CursorActive {
    /// The first pane is a subject: every choice but the second pane alone.
    pub fn is_first(self) -> (r: bool)
        ensures
            r == !(self is Second),
    {
        !matches!(self, CursorActive::Second)
    }

    /// The second pane is a subject: every choice but the first pane alone.
    pub fn is_second(self) -> (r: bool)
        ensures
            r == !(self is First),
    {
        !matches!(self, CursorActive::First)
    }
}

/// The pane a search runs on, and its query.
pub struct SearchContext {
    /// whether this search runs on the first pane
    pub first: bool,
    /// the query searched for
    pub query: Query,
}

/// The searches of the two panes.
pub struct SearchPair(pub Option<SearchResults>, pub Option<SearchResults>);

/// `s` is absent or a well-formed store.
pub open spec fn opt_wf(s: Option<SearchResults>) -> bool {
    s matches Some(x) ==> x.wf()
}

/// `addr` lies in a match of `s`.
pub open spec fn opt_in_result(s: Option<SearchResults>, addr: Option<usize>) -> bool {
    s matches Some(x) && addr matches Some(a) && x.in_result(a as int)
}

impl SearchPair {
    pub open spec fn wf(&self) -> bool {
        opt_wf(self.0) && opt_wf(self.1)
    }

    /// For each pane, whether its address lies in one of its matches.
    pub fn is_in_result(&self, addr: [Option<usize>; 2]) -> (r: [bool; 2])
        requires
            self.wf(),
        ensures
            r[0] == opt_in_result(self.0, addr[0]),
            r[1] == opt_in_result(self.1, addr[1]),
    {
        let a = match &self.0 {
            Some(s) => s.is_in_result(addr[0]),
            None => false,
        };
        let b = match &self.1 {
            Some(s) => s.is_in_result(addr[1]),
            None => false,
        };
        [a, b]
    }

    /// Drops the searches of the panes that `cursor_act` selects.
    pub fn clear(&mut self, cursor_act: CursorActive)
        ensures
            final(self).0 == (if !(cursor_act is Second) { None } else { old(self).0 }),
            final(self).1 == (if !(cursor_act is First) { None } else { old(self).1 }),
    {
        if cursor_act.is_first() {
            self.0 = None;
        }
        if cursor_act.is_second() {
            self.1 = None;
        }
    }

    /// The query of the selected pane's search, else that of the other pane.
    pub fn current_search_query(&self, cursor_act: CursorActive) -> (r: Option<&Query>)
        ensures
            ({
                let (a, b) = if !(cursor_act is Second) {
                    (self.0, self.1)
                } else {
                    (self.1, self.0)
                };
                match (a, b) {
                    (Some(x), _) => r == Some(&x.query_view()),
                    (None, Some(y)) => r == Some(&y.query_view()),
                    (None, None) => r.is_none(),
                }
            }),
    {
        let (a, b) = if cursor_act.is_first() {
            (&self.0, &self.1)
        } else {
            (&self.1, &self.0)
        };
        match a {
            Some(x) => Some(x.query()),
            None => match b {
                Some(y) => Some(y.query()),
                None => None,
            },
        }
    }

    /// Installs empty results for `query` on the selected panes (on both
    /// where none is selected) and returns what each pane's search needs.
    pub fn setup_search(&mut self, query: Query, cursor_act: CursorActive) -> (r: (
        SearchContext,
        Option<SearchContext>,
    ))
        requires
            old(self).wf(),
        ensures
            final(self).wf(),
            ({
                let both = cursor_act is Neither || cursor_act is Both;
                &&& (both || cursor_act is First) ==> (final(self).0 matches Some(x) && x.query_view()
                    == query && x.starts_seq().len() == 0)
                &&& (both || cursor_act is Second) ==> (final(self).1 matches Some(x)
                    && x.query_view().text_view() == query.text_view() && x.query_view().kind()
                    == query.kind() && x.starts_seq().len() == 0)
                &&& cursor_act is First ==> final(self).1 == old(self).1
                &&& cursor_act is Second ==> final(self).0 == old(self).0
                &&& r.0.first == !(cursor_act is Second)
                &&& r.1.is_some() == both
                &&& r.1 matches Some(c) ==> !c.first
                &&& r.0.query.text_view() == query.text_view() && r.0.query.kind() == query.kind()
                &&& r.1 matches Some(c) ==> c.query.text_view() == query.text_view()
                    && c.query.kind() == query.kind()
            }),
        {
        match cursor_act {
            CursorActive::Neither | CursorActive::Both => {
                let q1 = query.duplicate();
                let q2 = query.duplicate();
                let q3 = query.duplicate();
                self.0 = Some(SearchResults::new(query));
                self.1 = Some(SearchResults::new(q1));
                (SearchContext { first: true, query: q2 }, Some(SearchContext { first: false, query: q3 }))
            },
            CursorActive::First => {
                let q2 = query.duplicate();
                self.0 = Some(SearchResults::new(query));
                (SearchContext { first: true, query: q2 }, None)
            },
            CursorActive::Second => {
                let q2 = query.duplicate();
                self.1 = Some(SearchResults::new(query));
                (SearchContext { first: false, query: q2 }, None)
            },
        }
    }
}

} // verus!
