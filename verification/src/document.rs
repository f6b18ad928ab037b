//! An ordered sequence of rows with a dirty flag and an optional file
//! identity.
use crate::editor::Position;
use crate::row::Row;
use crate::row::graphemes_of;
use crate::row::row_delete_text;
use crate::row::row_insert_text;
use crate::row::row_split_back;
use crate::row::row_split_front;
use crate::row::views_of;
use vstd::prelude::*;
use vstd::string::StringExecFns;

verus! {

/// Where the first `'\n'` of the text stands, or the text's length if
/// there is none.
pub open spec fn first_newline(s: Seq<char>) -> int
    decreases s.len(),
{
    if s.len() == 0 {
        0
    } else if s[0] == '\n' {
        0
    } else {
        1 + first_newline(s.drop_first())
    }
}

pub proof fn lemma_first_newline_bounds(s: Seq<char>)
    ensures
        0 <= first_newline(s) <= s.len(),
        first_newline(s) < s.len() ==> s[first_newline(s)] == '\n',
        forall|k: int| 0 <= k < first_newline(s) ==> s[k] != '\n',
    decreases s.len(),
{
    if s.len() == 0 {
    } else if s[0] == '\n' {
    } else {
        lemma_first_newline_bounds(s.drop_first());
        let i = first_newline(s);
        if i < s.len() {
            assert(s.drop_first()[i - 1] == s[i]);
        }
        assert forall|k: int| 0 <= k < i implies s[k] != '\n' by {
            if k > 0 {
                assert(s.drop_first()[k - 1] == s[k]);
            }
        }
    }
}

/// The first newline is wherever a newline stands with none before it.
pub proof fn lemma_first_newline_at(s: Seq<char>, m: int)
    requires
        0 <= m < s.len(),
        s[m] == '\n',
        forall|k: int| 0 <= k < m ==> s[k] != '\n',
    ensures
        first_newline(s) == m,
{
    lemma_first_newline_bounds(s);
    let i = first_newline(s);
    if i < m {
        assert(s[i] != '\n');
    }
    if i > m {
        assert(s[m] != '\n');
    }
}

/// A line without its trailing carriage return, if it has one.
pub open spec fn strip_trailing_cr(l: Seq<char>) -> Seq<char> {
    if l.len() > 0 && l[l.len() - 1] == '\r' {
        l.drop_last()
    } else {
        l
    }
}

/// The lines of a text: split at `'\n'`, with one carriage return
/// stripped before each line feed, a final terminator closing the last
/// line rather than opening an empty one, and a trailing carriage return
/// without a line feed kept.
pub open spec fn lines_of(s: Seq<char>) -> Seq<Seq<char>>
    decreases s.len(),
    via lines_of_dec
{
    if s.len() == 0 {
        Seq::empty()
    } else {
        let i = first_newline(s);
        if i >= s.len() {
            seq![s]
        } else {
            seq![strip_trailing_cr(s.take(i))] + lines_of(s.skip(i + 1))
        }
    }
}

#[via_fn]
proof fn lines_of_dec(s: Seq<char>) {
    lemma_first_newline_bounds(s);
}

/// Relies on `str::lines`: lines are split at `\n` or `\r\n`, the
/// terminators are not included, a final terminator ends the last line
/// rather than opening an empty one, and a carriage return that no line
/// feed follows is kept, so a trailing one stays in the last line.
#[verifier::external_body]
fn split_lines(s: &str) -> (r: Vec<String>)
    ensures
        views_of(r@) == lines_of(s@),
{
    s.lines().map(String::from).collect()
}

/// Every row's text followed by a line feed.
pub open spec fn terminated(rows: Seq<Seq<char>>) -> Seq<Seq<char>> {
    rows.map_values(|t: Seq<char>| t.push('\n'))
}

/// The texts of the rows joined into one text, a line feed after each.
pub open spec fn serialized(rows: Seq<Seq<char>>) -> Seq<char> {
    terminated(rows).flatten()
}

/// Rows written out with a line feed after each and read back as lines
/// are the same rows, provided no row holds a line feed and no row ends
/// with a carriage return.  A row that ends with a carriage return is
/// read back without it, so the proviso cannot be dropped.
pub proof fn lemma_lines_roundtrip(rows: Seq<Seq<char>>)
    requires
        forall|i: int| #![trigger rows[i]] 0 <= i < rows.len() ==> !rows[i].contains('\n'),
        forall|i: int| #![trigger rows[i]] 0 <= i < rows.len() ==> strip_trailing_cr(rows[i])
            == rows[i],
    ensures
        lines_of(serialized(rows)) == rows,
    decreases rows.len(),
{
    if rows.len() == 0 {
        assert(terminated(rows) =~= Seq::<Seq<char>>::empty());
        assert(serialized(rows) =~= Seq::<char>::empty());
        assert(lines_of(serialized(rows)) =~= rows);
    } else {
        let r0 = rows[0];
        let rest = rows.drop_first();
        let s = serialized(rows);
        assert(terminated(rows) =~= seq![r0.push('\n')] + terminated(rest));
        vstd::seq_lib::lemma_flatten_concat(seq![r0.push('\n')], terminated(rest));
        seq![r0.push('\n')].lemma_flatten_singleton();
        assert(s =~= r0.push('\n') + serialized(rest));
        let m = r0.len() as int;
        assert(s[m] == '\n');
        assert forall|k: int| 0 <= k < m implies s[k] != '\n' by {
            assert(s[k] == r0[k]);
            assert(!r0.contains('\n'));
        }
        lemma_first_newline_at(s, m);
        assert(s.take(m) =~= r0);
        assert(s.skip(m + 1) =~= serialized(rest));
        assert forall|i: int| #![trigger rest[i]] 0 <= i < rest.len() implies !rest[i].contains(
            '\n',
        ) && strip_trailing_cr(rest[i]) == rest[i] by {
            assert(rest[i] == rows[i + 1]);
        }
        lemma_lines_roundtrip(rest);
        assert(lines_of(s) =~= seq![r0] + lines_of(serialized(rest)));
        assert(seq![r0] + rest =~= rows);
    }
}

/// No line that `lines_of` yields holds a line feed.
pub proof fn lemma_lines_hold_no_newline(s: Seq<char>)
    ensures
        forall|i: int| #![trigger lines_of(s)[i]] 0 <= i < lines_of(s).len() ==> !lines_of(
            s,
        )[i].contains('\n'),
    decreases s.len(),
{
    lemma_first_newline_bounds(s);
    if s.len() == 0 {
    } else {
        let i = first_newline(s);
        if i >= s.len() {
            assert(lines_of(s) =~= seq![s]);
            assert(forall|k: int| 0 <= k < s.len() ==> s[k] != '\n');
        } else {
            let l0 = strip_trailing_cr(s.take(i));
            lemma_lines_hold_no_newline(s.skip(i + 1));
            assert forall|k: int| 0 <= k < l0.len() implies l0[k] != '\n' by {
                assert(l0[k] == s[k]);
            }
            assert forall|j: int| #![trigger lines_of(s)[j]] 0 <= j < lines_of(s).len() implies !lines_of(
                s,
            )[j].contains('\n') by {
                if j == 0 {
                    assert(lines_of(s)[0] == l0);
                } else {
                    assert(lines_of(s)[j] == lines_of(s.skip(i + 1))[j - 1]);
                }
            }
        }
    }
}

/// Opening a text, saving it, and opening what was written yields the
/// same rows, provided no line of the text keeps a trailing carriage
/// return; one that does is read back without it the second time.
pub proof fn lemma_reopen_after_save(s: Seq<char>)
    requires
        forall|i: int| #![trigger lines_of(s)[i]] 0 <= i < lines_of(s).len() ==> strip_trailing_cr(
            lines_of(s)[i],
        ) == lines_of(s)[i],
    ensures
        lines_of(serialized(lines_of(s))) == lines_of(s),
{
    lemma_lines_hold_no_newline(s);
    lemma_lines_roundtrip(lines_of(s));
}

/// The texts after inserting a line break at `{x, y}`: one empty row is
/// appended when the cursor hangs below the last row, and the addressed
/// row is split in two otherwise.
pub open spec fn doc_insert_newline(v: Seq<Seq<char>>, y: int, x: int) -> Seq<Seq<char>> {
    if y == v.len() {
        v.push(Seq::empty())
    } else {
        v.take(y) + seq![row_split_front(v[y], x), row_split_back(v[y], x)] + v.skip(y + 1)
    }
}

/// The texts after inserting `c` at `{x, y}`: positions more than one
/// row past the end are rejected, a line feed follows the line-break
/// policy, a character one row past the end opens a new row, and any
/// other character goes into the addressed row.
pub open spec fn doc_insert(v: Seq<Seq<char>>, y: int, x: int, c: char) -> Seq<Seq<char>> {
    if y > v.len() {
        v
    } else if c == '\n' {
        doc_insert_newline(v, y, x)
    } else if y == v.len() {
        v.push(seq![c])
    } else {
        v.update(y, row_insert_text(v[y], x, c))
    }
}

/// The texts after deleting at `{x, y}`: positions past the last row are
/// rejected, a cursor at the end of a row that another row follows merges
/// the two, and anything else deletes within the addressed row.
pub open spec fn doc_delete(v: Seq<Seq<char>>, y: int, x: int) -> Seq<Seq<char>> {
    if y >= v.len() {
        v
    } else if x == graphemes_of(v[y]).len() && y + 1 < v.len() {
        v.take(y) + seq![v[y] + v[y + 1]] + v.skip(y + 2)
    } else {
        v.update(y, row_delete_text(v[y], x))
    }
}

/// An ordered sequence of rows, an optional file identity, and a flag
/// recording whether the rows have changed since the last save.
pub struct Document {
    rows: Vec<Row>,
    pub filename: Option<String>,
    is_dirty: bool,
}

impl Document {
    /// The text of each row.
    pub closed spec fn texts(self) -> Seq<Seq<char>> {
        self.rows@.map_values(|r: Row| r.text_view())
    }

    /// Every row's cached cluster count is right.
    pub closed spec fn wf(self) -> bool {
        forall|i: int| 0 <= i < self.rows@.len() ==> (#[trigger] self.rows@[i]).wf()
    }

    /// Whether the rows have changed since the last save.
    pub closed spec fn dirty(self) -> bool {
        self.is_dirty
    }

    /// The optional file identity.
    pub closed spec fn spec_filename(self) -> Option<String> {
        self.filename
    }

    /// Builds a document from a file's text, one row per line, clean.
    pub fn from_text(text: &str, filename: Option<String>) -> (r: Document)
        ensures
            r.wf(),
            r.texts() == lines_of(text@),
            r.dirty() == false,
            r.spec_filename() == filename,
    {
        let lines = split_lines(text);
        let mut rows: Vec<Row> = Vec::new();
        let mut i: usize = 0;
        while i < lines.len()
            invariant
                i <= lines@.len(),
                rows@.len() == i,
                forall|k: int| 0 <= k < i as int ==> (#[trigger] rows@[k]).wf(),
                forall|k: int|
                    0 <= k < i as int ==> (#[trigger] rows@[k]).text_view() == lines@[k]@,
            decreases lines@.len() - i,
        {
            rows.push(Row::from(lines[i].as_str()));
            i = i + 1;
        }
        let r = Document { rows, filename, is_dirty: false };
        proof {
            assert(r.texts() =~= views_of(lines@));
        }
        r
    }

    pub fn row(&self, index: usize) -> (r: Option<&Row>)
        ensures
            match r {
                Some(row) => index < self.texts().len() && row.text_view() == self.texts()[index as int]
                    && (self.wf() ==> row.wf()),
                None => index >= self.texts().len(),
            },
    {
        if index < self.rows.len() {
            Some(&self.rows[index])
        } else {
            None
        }
    }

    pub fn is_empty(&self) -> (r: bool)
        ensures
            r == (self.texts().len() == 0),
    {
        self.rows.is_empty()
    }

    pub fn len(&self) -> (r: usize)
        ensures
            r == self.texts().len(),
    {
        self.rows.len()
    }

    pub fn is_dirty(&self) -> (r: bool)
        ensures
            r == self.dirty(),
    {
        self.is_dirty
    }

    /// Records that the rows now match the file.
    pub fn mark_saved(&mut self)
        ensures
            final(self).texts() == old(self).texts(),
            final(self).spec_filename() == old(self).spec_filename(),
            final(self).dirty() == false,
            final(self).wf() == old(self).wf(),
    {
        self.is_dirty = false;
    }

    pub fn insert(&mut self, at: &Position, c: char)
        requires
            old(self).wf(),
        ensures
            final(self).wf(),
            final(self).texts() == doc_insert(old(self).texts(), at.y as int, at.x as int, c),
            final(self).dirty() == (if at.y as int > old(self).texts().len() {
                old(self).dirty()
            } else {
                true
            }),
            final(self).spec_filename() == old(self).spec_filename(),
    {
        if at.y > self.rows.len() {
            return ;
        }
        self.is_dirty = true;
        if c == '\n' {
            self.insert_newline(at);
            return ;
        }
        if at.y == self.rows.len() {
            let mut row = Row::default();
            row.insert(0, c);
            self.rows.push(row);
            proof {
                assert(self.texts() =~= doc_insert(
                    old(self).texts(),
                    at.y as int,
                    at.x as int,
                    c,
                ));
            }
        } else {
            let row = &mut self.rows[at.y];
            row.insert(at.x, c);
            proof {
                assert(self.texts() =~= doc_insert(
                    old(self).texts(),
                    at.y as int,
                    at.x as int,
                    c,
                ));
            }
        }
    }

    /// Breaks the addressed row at the cursor.  The dirty flag is left as
    /// it stands: `insert` has already raised it on this path.
    fn insert_newline(&mut self, at: &Position)
        requires
            old(self).wf(),
            at.y as int <= old(self).texts().len(),
        ensures
            final(self).wf(),
            final(self).texts() == doc_insert_newline(old(self).texts(), at.y as int, at.x as int),
            final(self).dirty() == old(self).dirty(),
            final(self).spec_filename() == old(self).spec_filename(),
    {
        if at.y == self.rows.len() {
            self.rows.push(Row::default());
            proof {
                assert(self.texts() =~= doc_insert_newline(
                    old(self).texts(),
                    at.y as int,
                    at.x as int,
                ));
            }
            return ;
        }
        let row = &mut self.rows[at.y];
        let new_row = row.split(at.x);
        self.rows.insert(at.y + 1, new_row);
        proof {
            assert(self.texts() =~= doc_insert_newline(
                old(self).texts(),
                at.y as int,
                at.x as int,
            ));
        }
    }

    /// Deletes at the cursor.  When the cursor stands at the end of a row
    /// that another row follows, the following row is removed and its
    /// text appended to the addressed one: the row count then drops by
    /// exactly one and the merged row's text is the concatenation of the
    /// two, as the last two ensures state.
    pub fn delete(&mut self, at: &Position)
        requires
            old(self).wf(),
        ensures
            final(self).wf(),
            final(self).texts() == doc_delete(old(self).texts(), at.y as int, at.x as int),
            final(self).dirty() == (if at.y as int >= old(self).texts().len() {
                old(self).dirty()
            } else {
                true
            }),
            final(self).spec_filename() == old(self).spec_filename(),
            at.y as int + 1 < old(self).texts().len() && at.x as int == graphemes_of(
                old(self).texts()[at.y as int],
            ).len() ==> final(self).texts().len() == old(self).texts().len() - 1,
            at.y as int + 1 < old(self).texts().len() && at.x as int == graphemes_of(
                old(self).texts()[at.y as int],
            ).len() ==> final(self).texts()[at.y as int] == old(self).texts()[at.y as int] + old(
                self,
            ).texts()[at.y as int + 1],
    {
        if at.y >= self.rows.len() {
            return ;
        }
        let ghost v0 = self.texts();
        let ghost rows0 = self.rows@;
        self.is_dirty = true;
        let at_row_end = at.x == self.rows[at.y].len();
        proof {
            assert(v0[at.y as int] == rows0[at.y as int].text_view());
            assert(at_row_end == (at.x as int == graphemes_of(v0[at.y as int]).len()));
        }
        if at_row_end && self.is_not_last_row(at) {
            let next_row = self.rows.remove(at.y + 1);
            proof {
                assert(self.rows@ == rows0.remove(at.y as int + 1));
                assert(next_row.text_view() == v0[at.y as int + 1]);
            }
            let row = &mut self.rows[at.y];
            row.append(&next_row);
            proof {
                assert(self.rows@[at.y as int].text_view() == v0[at.y as int] + v0[at.y as int
                    + 1]);
                assert(self.texts() =~= doc_delete(v0, at.y as int, at.x as int));
            }
        } else {
            let row = &mut self.rows[at.y];
            row.delete(at.x);
            proof {
                assert(self.rows@[at.y as int].text_view() == row_delete_text(
                    v0[at.y as int],
                    at.x as int,
                ));
                assert(self.texts() =~= doc_delete(v0, at.y as int, at.x as int));
            }
        }
    }

    fn is_not_last_row(&self, at: &Position) -> (r: bool)
        requires
            self.texts().len() >= 1,
        ensures
            r == (at.y as int + 1 < self.texts().len()),
    {
        at.y < self.rows.len() - 1
    }

    /// The document as it is written to its file: every row's text with
    /// a line feed after it.
    pub fn to_text(&self) -> (r: String)
        ensures
            r@ == serialized(self.texts()),
    {
        proof {
            reveal_strlit("\n");
        }
        let ghost m = terminated(self.texts());
        let nl = String::from_str("\n");
        proof {
            assert(nl@ =~= seq!['\n']);
            assert(m.subrange(0, 0) =~= Seq::<Seq<char>>::empty());
            assert(Seq::<Seq<char>>::empty().flatten() =~= Seq::<char>::empty());
        }
        let mut out = String::new();
        let mut i: usize = 0;
        while i < self.rows.len()
            invariant
                i <= self.rows@.len(),
                m == terminated(self.texts()),
                nl@ == seq!['\n'],
                out@ == m.subrange(0, i as int).flatten(),
            decreases self.rows@.len() - i,
        {
            out.append(self.rows[i].as_str());
            out.append(nl.as_str());
            proof {
                assert(m[i as int] == self.texts()[i as int].push('\n'));
                assert(self.texts()[i as int].push('\n') =~= self.texts()[i as int] + seq!['\n']);
                crate::row::lemma_flatten_subrange_push(m, 0, i as int);
            }
            i = i + 1;
        }
        proof {
            assert(m.subrange(0, self.rows@.len() as int) =~= m);
        }
        out
    }
}

impl Default for Document {
    /// An empty, unnamed, clean document.
    fn default() -> (r: Document)
        ensures
            r.wf(),
            r.texts() == Seq::<Seq<char>>::empty(),
            r.dirty() == false,
            r.spec_filename() is None,
    {
        let r = Document { rows: Vec::new(), filename: None, is_dirty: false };
        proof {
            assert(r.texts() =~= Seq::<Seq<char>>::empty());
        }
        r
    }
}

} // verus!
