//! The text buffer of the terminal editor: rows of chars, edited at a cursor
//! position, and written back through a save callback.
use vstd::prelude::*;

use crate::text::{
    chars_of, lemma_split_on_nonempty, lines, lines_spec, push_char, split_on, strip_cr, views,
};

verus! {

/// A cursor position: column `x` within row `y`.
#[derive(Clone, Copy, Debug, PartialEq, Eq, Structural)]
pub struct Position {
    pub x: usize,
    pub y: usize,
}

/// One line of a document, without its line break.
#[derive(Debug)]
pub struct Row {
    chars: Vec<char>,
}

impl View for Row {
    type V = Seq<char>;

    closed spec fn view(&self) -> Seq<char> {
        self.chars@
    }
}

/// `s` with `c` put in at column `at`; past the end it is appended.
pub open spec fn row_insert(s: Seq<char>, at: int, c: char) -> Seq<char> {
    if at >= s.len() {
        s.push(c)
    } else {
        s.insert(at, c)
    }
}

/// `s` without the char at column `at`; past the end nothing changes.
pub open spec fn row_delete(s: Seq<char>, at: int) -> Seq<char> {
    if at >= s.len() {
        s
    } else {
        s.remove(at)
    }
}

/// The first `at` chars of `s` (all of them when `at` is past the end).
pub open spec fn row_head(s: Seq<char>, at: int) -> Seq<char> {
    if at >= s.len() {
        s
    } else {
        s.take(at)
    }
}

/// What follows the first `at` chars of `s`.
pub open spec fn row_tail(s: Seq<char>, at: int) -> Seq<char> {
    if at >= s.len() {
        Seq::empty()
    } else {
        s.skip(at)
    }
}

impl Row {
    /// An empty row.
    pub fn new() -> (r: Row)
        ensures
            r@ == Seq::<char>::empty(),
    {
        Row { chars: Vec::new() }
    }

    /// A row holding the chars of `line`.
    pub fn from_chars(line: Vec<char>) -> (r: Row)
        ensures
            r@ == line@,
    {
        Row { chars: line }
    }

    /// The number of chars in the row.
    pub fn len(&self) -> (r: usize)
        ensures
            r == self@.len(),
    {
        self.chars.len()
    }

    /// The row's text.
    pub fn text(&self) -> (r: String)
        ensures
            r@ == self@,
    {
        crate::text::string_of(&self.chars)
    }

    /// Puts `c` in at column `at`, or at the end when `at` is past it.
    pub fn insert(&mut self, at: usize, c: char)
        ensures
            final(self)@ == row_insert(old(self)@, at as int, c),
    {
        if at >= self.chars.len() {
            self.chars.push(c);
        } else {
            self.chars.insert(at, c);
        }
    }

    /// Removes the char at column `at`; past the end nothing happens.
    pub fn delete(&mut self, at: usize)
        ensures
            final(self)@ == row_delete(old(self)@, at as int),
    {
        if at < self.chars.len() {
            self.chars.remove(at);
        }
    }

    /// Appends the chars of `other`.
    pub fn append(&mut self, other: &Row)
        ensures
            final(self)@ == old(self)@ + other@,
    {
        crate::text::extend_chars(&mut self.chars, &other.chars);
    }

    /// Keeps the first `at` chars and hands back the rest as a new row.
    pub fn split(&mut self, at: usize) -> (rest: Row)
        ensures
            final(self)@ == row_head(old(self)@, at as int),
            rest@ == row_tail(old(self)@, at as int),
    {
        if at >= self.chars.len() {
            Row::new()
        } else {
            let tail = crate::text::slice_chars(&self.chars, at, self.chars.len());
            self.chars.truncate(at);
            proof {
                assert(tail@ =~= old(self)@.skip(at as int));
                assert(self.chars@ =~= old(self)@.take(at as int));
            }
            Row { chars: tail }
        }
    }
}

/// The rows after a line break at `(x, y)`: row `y` keeps its first `x`
/// chars and the rest becomes a new row below it; at `y == rows.len()` an
/// empty row is added; further down nothing changes.
pub open spec fn newline_spec(rows: Seq<Seq<char>>, x: int, y: int) -> Seq<Seq<char>> {
    if y > rows.len() {
        rows
    } else if y == rows.len() {
        rows.push(Seq::empty())
    } else {
        rows.update(y, row_head(rows[y], x)).insert(y + 1, row_tail(rows[y], x))
    }
}

/// The rows after typing `c` at `(x, y)`.
pub open spec fn insert_spec(rows: Seq<Seq<char>>, x: int, y: int, c: char) -> Seq<Seq<char>> {
    if y > rows.len() {
        rows
    } else if c == '\n' {
        newline_spec(rows, x, y)
    } else if y == rows.len() {
        rows.push(seq![c])
    } else {
        rows.update(y, row_insert(rows[y], x, c))
    }
}

/// The rows after deleting at `(x, y)`: at the end of a row that has a row
/// below it the two rows are joined, otherwise the char at `x` goes.
pub open spec fn delete_spec(rows: Seq<Seq<char>>, x: int, y: int) -> Seq<Seq<char>> {
    if y >= rows.len() {
        rows
    } else if x == rows[y].len() && y + 1 < rows.len() {
        rows.update(y, rows[y] + rows[y + 1]).remove(y + 1)
    } else {
        rows.update(y, row_delete(rows[y], x))
    }
}

/// The rows as one text: each row followed by `"\r\n"`.
pub open spec fn joined(rows: Seq<Seq<char>>) -> Seq<char>
    decreases rows.len(),
{
    if rows.len() == 0 {
        Seq::empty()
    } else {
        joined(rows.drop_last()) + rows.last() + seq!['\r', '\n']
    }
}

/// A document open in the editor: its rows, whether they changed since the
/// last save, and the callback that a save hands the text to.
pub struct Document<F> where F: FnMut(String) -> Result<(), String> {
    pub title: String,
    pub(crate) rows: Vec<Row>,
    dirty: bool,
    on_save: F,
}

/// The views of a list of rows.
pub open spec fn row_views(rows: Seq<Row>) -> Seq<Seq<char>> {
    rows.map_values(|r: Row| r@)
}

impl<F> Document<F> where F: FnMut(String) -> Result<(), String> {
    /// The rows, as char sequences.
    pub closed spec fn rows_view(&self) -> Seq<Seq<char>> {
        row_views(self.rows@)
    }

    /// The title.
    pub closed spec fn title_view(&self) -> Seq<char> {
        self.title@
    }

    /// The save callback can be called with any text.
    pub closed spec fn callback_accepts(&self) -> bool {
        forall|s: String| call_requires(self.on_save, (s,))
    }

    /// The save callback, handed `text`, may answer `r`.
    pub closed spec fn callback_gave(&self, text: Seq<char>, r: Result<(), String>) -> bool {
        exists|s: String| s@ == text && call_ensures(self.on_save, (s,), r)
    }

    /// Whether the rows changed since the document was opened or saved.
    pub closed spec fn dirty_view(&self) -> bool {
        self.dirty
    }

    /// Opens a document on `content`, one row per line.
    pub fn new(title: String, content: String, on_save: F) -> (d: Self)
        ensures
            d.rows_view() == lines_spec(content@),
            d.title_view() == title@,
            !d.dirty_view(),
    {
        let ls = lines(&chars_of(content.as_str()));
        let mut rows: Vec<Row> = Vec::new();
        let mut i: usize = 0;
        while i < ls.len()
            invariant
                i <= ls.len(),
                row_views(rows@) =~= views(ls@).take(i as int),
            decreases ls.len() - i,
        {
            rows.push(Row::from_chars(ls[i].clone()));
            proof {
                assert(views(ls@).take(i + 1) =~= views(ls@).take(i as int).push(ls@[i as int]@));
            }
            i = i + 1;
        }
        proof {
            assert(views(ls@).take(ls.len() as int) =~= views(ls@));
        }
        Document { title, rows, dirty: false, on_save }
    }

    /// The row at `index`, if there is one.
    pub(crate) fn row(&self, index: usize) -> (r: Option<&Row>)
        ensures
            index < self.rows_view().len() ==> r is Some && r->0@ == self.rows_view()[index as int],
            index >= self.rows_view().len() ==> r is None,
    {
        if index < self.rows.len() {
            Some(&self.rows[index])
        } else {
            None
        }
    }

    /// Whether the document has no rows.
    pub fn is_empty(&self) -> (r: bool)
        ensures
            r == (self.rows_view().len() == 0),
    {
        self.rows.len() == 0
    }

    /// The number of rows.
    pub fn len(&self) -> (r: usize)
        ensures
            r == self.rows_view().len(),
    {
        self.rows.len()
    }

    /// Whether the rows changed since the document was opened or saved.
    pub fn is_dirty(&self) -> (r: bool)
        ensures
            r == self.dirty_view(),
    {
        self.dirty
    }

    /// Breaks the line at `at`.
    fn insert_newline(&mut self, at: &Position)
        ensures
            final(self).rows_view() == newline_spec(old(self).rows_view(), at.x as int, at.y as int),
            final(self).dirty_view() == old(self).dirty_view(),
            final(self).title_view() == old(self).title_view(),
    {
        if at.y > self.rows.len() {
            return;
        }
        if at.y == self.rows.len() {
            self.rows.push(Row::new());
            proof {
                assert(row_views(self.rows@) =~= row_views(old(self).rows@).push(Seq::empty()));
            }
            return;
        }
        let mut current_row = Row::new();
        std::mem::swap(&mut current_row, &mut self.rows[at.y]);
        let new_row = current_row.split(at.x);
        self.rows.set(at.y, current_row);
        self.rows.insert(at.y + 1, new_row);
        proof {
            let o = row_views(old(self).rows@);
            assert(row_views(self.rows@) =~= newline_spec(o, at.x as int, at.y as int));
        }
    }

    /// Types `c` at `at`: a line break splits the row, any other char goes
    /// into the row (a new row when `at` is just below the last one).
    /// Further down nothing changes; otherwise the document becomes dirty.
    pub fn insert(&mut self, at: &Position, c: char)
        ensures
            final(self).rows_view() == insert_spec(old(self).rows_view(), at.x as int, at.y as int, c),
            final(self).dirty_view() == (old(self).dirty_view() || at.y <= old(self).rows_view().len()),
            final(self).title_view() == old(self).title_view(),
    {
        if at.y > self.rows.len() {
            return;
        }
        self.dirty = true;
        if c == '\n' {
            self.insert_newline(at);
        } else if at.y == self.rows.len() {
            let mut row = Row::new();
            row.insert(0, c);
            self.rows.push(row);
            proof {
                assert(row_views(self.rows@) =~= row_views(old(self).rows@).push(seq![c]));
            }
        } else {
            let mut row = Row::new();
            std::mem::swap(&mut row, &mut self.rows[at.y]);
            row.insert(at.x, c);
            self.rows.set(at.y, row);
            proof {
                let o = row_views(old(self).rows@);
                assert(row_views(self.rows@) =~= o.update(at.y as int, row_insert(o[at.y as int], at.x as int, c)));
            }
        }
    }

    /// Deletes at `at`: at the end of a row with a row below, the two rows
    /// are joined; otherwise the char at `at.x` goes, if the row has one.
    /// Past the last row nothing changes; otherwise the document becomes dirty.
    pub fn delete(&mut self, at: &Position)
        ensures
            final(self).rows_view() == delete_spec(old(self).rows_view(), at.x as int, at.y as int),
            final(self).dirty_view() == (old(self).dirty_view() || at.y < old(self).rows_view().len()),
            final(self).title_view() == old(self).title_view(),
    {
        let len = self.rows.len();
        if at.y >= len {
            return;
        }
        self.dirty = true;
        if at.x == self.rows[at.y].len() && at.y + 1 < len {
            let next_row = self.rows.remove(at.y + 1);
            let mut row = Row::new();
            std::mem::swap(&mut row, &mut self.rows[at.y]);
            row.append(&next_row);
            self.rows.set(at.y, row);
            proof {
                let o = row_views(old(self).rows@);
                let y = at.y as int;
                assert(row_views(self.rows@) =~= o.update(y, o[y] + o[y + 1]).remove(y + 1));
            }
        } else {
            let mut row = Row::new();
            std::mem::swap(&mut row, &mut self.rows[at.y]);
            row.delete(at.x);
            self.rows.set(at.y, row);
            proof {
                let o = row_views(old(self).rows@);
                assert(row_views(self.rows@) =~= o.update(at.y as int, row_delete(o[at.y as int], at.x as int)));
            }
        }
    }

    /// Saves the document: hands its text to the callback and, when that
    /// succeeds, marks the document clean. The callback's error is passed on.
    pub fn save(&mut self) -> (r: Result<(), String>)
        requires
            old(self).callback_accepts(),
        ensures
            old(self).callback_gave(joined(old(self).rows_view()), r),
            final(self).rows_view() == old(self).rows_view(),
            final(self).title_view() == old(self).title_view(),
            r is Ok ==> !final(self).dirty_view(),
            r is Err ==> final(self).dirty_view() == old(self).dirty_view(),
    {
        let content = self.as_string();
        let ghost text = content;
        let res = (self.on_save)(content);
        proof {
            assert(call_ensures(old(self).on_save, (text,), res));
        }
        if res.is_ok() {
            self.dirty = false;
        }
        res
    }

    /// The text of the document: every row followed by `"\r\n"`.
    pub fn as_string(&self) -> (r: String)
        ensures
            r@ == joined(self.rows_view()),
    {
        let mut res = String::new();
        let mut i: usize = 0;
        while i < self.rows.len()
            invariant
                i <= self.rows.len(),
                res@ == joined(row_views(self.rows@).take(i as int)),
            decreases self.rows.len() - i,
        {
            let ghost before = res@;
            let row = &self.rows[i];
            let mut k: usize = 0;
            while k < row.chars.len()
                invariant
                    k <= row.chars.len(),
                    res@ == before + row.chars@.take(k as int),
                decreases row.chars.len() - k,
            {
                push_char(&mut res, row.chars[k]);
                assert(row.chars@.take(k + 1) =~= row.chars@.take(k as int).push(row.chars@[k as int]));
                k = k + 1;
            }
            push_char(&mut res, '\r');
            push_char(&mut res, '\n');
            proof {
                let v = row_views(self.rows@);
                assert(row.chars@.take(row.chars.len() as int) =~= row.chars@);
                assert(v.take(i + 1).drop_last() =~= v.take(i as int));
                assert(v.take(i + 1).last() == row@);
                assert(res@ =~= joined(v.take(i + 1)));
            }
            i = i + 1;
        }
        proof {
            assert(row_views(self.rows@).take(self.rows.len() as int) =~= row_views(self.rows@));
        }
        res
    }
}

/// Deleting where a char was just typed takes it out again: a typed char is
/// removed, a typed line break joins the two rows back. This holds for any
/// position inside an existing row, its end included.
pub proof fn law_delete_undoes_insert(rows: Seq<Seq<char>>, x: int, y: int, c: char)
    requires
        0 <= y < rows.len(),
        0 <= x <= rows[y].len(),
    ensures
        delete_spec(insert_spec(rows, x, y, c), x, y) == rows,
{
    let r = rows[y];
    if c == '\n' {
        let n = newline_spec(rows, x, y);
        assert(row_head(r, x) + row_tail(r, x) =~= r);
        assert(n.update(y, n[y] + n[y + 1]).remove(y + 1) =~= rows);
    } else {
        let n = insert_spec(rows, x, y, c);
        assert(row_delete(row_insert(r, x, c), x) =~= r);
        assert(n.update(y, row_delete(n[y], x)) =~= rows);
    }
}

/// No row holds a line break.
pub open spec fn unbroken(rows: Seq<Seq<char>>) -> bool {
    forall|i: int| 0 <= i < rows.len() ==> !(#[trigger] rows[i]).contains('\n')
}

proof fn lemma_split_on_append(s: Seq<char>, t: Seq<char>, c: char)
    requires
        !t.contains(c),
    ensures
        split_on(s + t, c) == split_on(s, c).update(
            split_on(s, c).len() - 1,
            split_on(s, c).last() + t,
        ),
    decreases t.len(),
{
    lemma_split_on_nonempty(s, c);
    let p = split_on(s, c);
    if t.len() == 0 {
        assert(s + t =~= s);
        assert(p.last() + t =~= p.last());
        assert(p.update(p.len() - 1, p.last() + t) =~= p);
    } else {
        let u = t.drop_last();
        assert(!u.contains(c)) by {
            if u.contains(c) {
                let k = choose|k: int| 0 <= k < u.len() && u[k] == c;
                assert(t[k] == c);
            }
        }
        assert(t.last() != c) by {
            assert(t[t.len() - 1] == t.last());
        }
        lemma_split_on_append(s, u, c);
        assert((s + t).drop_last() =~= s + u);
        assert((s + t).last() == t.last());
        lemma_split_on_nonempty(s + u, c);
        let q = split_on(s + u, c);
        assert(q.last() == p.last() + u);
        assert((p.last() + u).push(t.last()) =~= p.last() + t);
        assert(split_on(s + t, c) =~= p.update(p.len() - 1, p.last() + t));
    }
}

/// The pieces of the saved text between line breaks: each row with its
/// `'\r'`, and an empty piece after the last break.
proof fn lemma_split_joined(rows: Seq<Seq<char>>)
    requires
        unbroken(rows),
    ensures
        split_on(joined(rows), '\n') =~= Seq::new(
            rows.len() + 1,
            |k: int| if k < rows.len() { rows[k].push('\r') } else { Seq::<char>::empty() },
        ),
    decreases rows.len(),
{
    if rows.len() > 0 {
        let front = rows.drop_last();
        let r = rows.last();
        assert(unbroken(front)) by {
            assert forall|i: int| 0 <= i < front.len() implies !(#[trigger] front[i]).contains('\n') by {
                assert(front[i] == rows[i]);
            }
        }
        lemma_split_joined(front);
        let j = joined(front);
        let piece = r.push('\r');
        assert(!piece.contains('\n')) by {
            assert(!rows[rows.len() - 1].contains('\n'));
            if piece.contains('\n') {
                let k = choose|k: int| 0 <= k < piece.len() && piece[k] == '\n';
                assert(r[k] == '\n');
            }
        }
        lemma_split_on_append(j, piece, '\n');
        assert(joined(rows) =~= (j + piece).push('\n'));
        assert((j + piece).push('\n').drop_last() =~= j + piece);
        lemma_split_on_nonempty(j + piece, '\n');
    }
}

/// Text that is saved reads back as the same rows: split into lines, the
/// text of a document whose rows hold no line break gives those rows again.
pub proof fn law_saved_text_reopens(rows: Seq<Seq<char>>)
    requires
        unbroken(rows),
    ensures
        lines_spec(joined(rows)) == rows,
{
    lemma_split_joined(rows);
    let p = split_on(joined(rows), '\n');
    assert(lines_spec(joined(rows)) =~= rows) by {
        assert forall|k: int| 0 <= k < rows.len() implies #[trigger] strip_cr(p[k]) == rows[k] by {
            assert(p[k] == rows[k].push('\r'));
            assert(rows[k].push('\r').drop_last() =~= rows[k]);
        }
    }
}

proof fn lemma_split_on_pieces(s: Seq<char>, c: char)
    ensures
        forall|k: int| 0 <= k < split_on(s, c).len() ==> !(#[trigger] split_on(s, c)[k]).contains(c),
    decreases s.len(),
{
    if s.len() > 0 {
        let p = split_on(s.drop_last(), c);
        lemma_split_on_pieces(s.drop_last(), c);
        lemma_split_on_nonempty(s.drop_last(), c);
        if s.last() != c {
            let l = p.last().push(s.last());
            assert(!l.contains(c)) by {
                if l.contains(c) {
                    let i = choose|i: int| 0 <= i < l.len() && l[i] == c;
                    assert(p.last()[i] == c);
                    assert(p[p.len() - 1].contains(c));
                }
            }
        }
    }
}

/// Every row of a freshly opened document is free of line breaks.
pub proof fn law_opened_rows_unbroken(s: Seq<char>)
    ensures
        unbroken(lines_spec(s)),
{
    lemma_split_on_pieces(s, '\n');
    lemma_split_on_nonempty(s, '\n');
    let p = split_on(s, '\n');
    let l = lines_spec(s);
    assert forall|i: int| 0 <= i < l.len() implies !(#[trigger] l[i]).contains('\n') by {
        assert(!p[i].contains('\n'));
        if l[i].contains('\n') {
            let k = choose|k: int| 0 <= k < l[i].len() && l[i][k] == '\n';
            assert(p[i][k] == '\n');
        }
    }
}

/// Edits keep the rows free of line breaks: a typed line break always
/// splits a row, and joining or shortening rows brings none in.
pub proof fn law_edits_keep_rows_unbroken(rows: Seq<Seq<char>>, x: int, y: int, c: char)
    requires
        unbroken(rows),
        0 <= x,
        0 <= y,
    ensures
        unbroken(insert_spec(rows, x, y, c)),
        unbroken(delete_spec(rows, x, y)),
{
    let i_rows = insert_spec(rows, x, y, c);
    assert forall|i: int| 0 <= i < i_rows.len() implies !(#[trigger] i_rows[i]).contains('\n') by {
        if i_rows[i].contains('\n') {
            let k = choose|k: int| 0 <= k < i_rows[i].len() && i_rows[i][k] == '\n';
            if 0 <= y < rows.len() {
                let r = rows[y];
                assert(!r.contains('\n'));
                if c == '\n' {
                    if i == y {
                        assert(r[k] == '\n');
                    } else if i == y + 1 {
                        assert(x < r.len());
                        assert(r[x + k] == '\n');
                    } else if i > y + 1 {
                        assert(rows[i - 1][k] == '\n');
                    } else {
                        assert(rows[i][k] == '\n');
                    }
                } else if i == y {
                    if x >= r.len() {
                        if k < r.len() {
                            assert(r[k] == '\n');
                        }
                    } else if k < x {
                        assert(r[k] == '\n');
                    } else if k > x {
                        assert(r[k - 1] == '\n');
                    }
                } else {
                    assert(rows[i][k] == '\n');
                }
            } else if y == rows.len() && i < rows.len() {
                assert(rows[i][k] == '\n');
            } else if y > rows.len() {
                assert(rows[i][k] == '\n');
            }
        }
    }
    let d_rows = delete_spec(rows, x, y);
    assert forall|i: int| 0 <= i < d_rows.len() implies !(#[trigger] d_rows[i]).contains('\n') by {
        if d_rows[i].contains('\n') {
            let k = choose|k: int| 0 <= k < d_rows[i].len() && d_rows[i][k] == '\n';
            if y >= rows.len() {
                assert(rows[i][k] == '\n');
            } else if x == rows[y].len() && y + 1 < rows.len() {
                if i == y {
                    if k < rows[y].len() {
                        assert(rows[y][k] == '\n');
                    } else {
                        assert(rows[y + 1][k - rows[y].len()] == '\n');
                    }
                } else if i > y {
                    assert(rows[i + 1][k] == '\n');
                } else {
                    assert(rows[i][k] == '\n');
                }
            } else if i == y {
                if x < rows[y].len() && k >= x {
                    assert(rows[y][k + 1] == '\n');
                } else {
                    assert(rows[y][k] == '\n');
                }
            } else {
                assert(rows[i][k] == '\n');
            }
        }
    }
}

} // verus!
