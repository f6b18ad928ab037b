//! A single line of document text, indexed by grapheme clusters.
use unicode_segmentation::UnicodeSegmentation;
use vstd::prelude::*;
use vstd::string::StringExecFns;

verus! {

/// The grapheme clusters of a text, as Unicode extended grapheme cluster
/// segmentation defines them.  The segmentation depends on the text alone.
pub uninterp spec fn graphemes_of(s: Seq<char>) -> Seq<Seq<char>>;

/// The views of a sequence of owned strings.
pub open spec fn views_of(parts: Seq<String>) -> Seq<Seq<char>> {
    parts.map_values(|g: String| g@)
}

/// Relies on `unicode_segmentation::UnicodeSegmentation::graphemes` (with
/// extended clusters) to split a string into its grapheme clusters: the
/// clusters are substrings whose concatenation is the original string, the
/// segmentation depends on the text alone, and an empty string has no
/// clusters.
#[verifier::external_body]
fn graphemes(s: &str) -> (r: Vec<String>)
    ensures
        views_of(r@) == graphemes_of(s@),
        views_of(r@).flatten() == s@,
        s@.len() == 0 ==> views_of(r@) == Seq::<Seq<char>>::empty(),
{
    s.graphemes(true).map(String::from).collect()
}

/// Relies on `String::from` for a single character: the resulting string
/// holds exactly that character.
#[verifier::external_body]
fn char_to_string(c: char) -> (r: String)
    ensures
        r@ == seq![c],
{
    String::from(c)
}

/// An index into a cluster sequence, clamped to its length.
pub open spec fn clamped(g: Seq<Seq<char>>, at: int) -> int {
    if at > g.len() {
        g.len() as int
    } else {
        at
    }
}

/// The text after inserting `c` at cluster index `at`: past-the-end
/// indices append.
pub open spec fn row_insert_text(t: Seq<char>, at: int, c: char) -> Seq<char> {
    let g = graphemes_of(t);
    let i = clamped(g, at);
    g.take(i).flatten() + seq![c] + g.skip(i).flatten()
}

/// The text after deleting the cluster at index `at`: past-the-end
/// indices leave the text unchanged.
pub open spec fn row_delete_text(t: Seq<char>, at: int) -> Seq<char> {
    let g = graphemes_of(t);
    if at >= g.len() {
        t
    } else {
        g.take(at).flatten() + g.skip(at + 1).flatten()
    }
}

/// The first `at` clusters of the text, as text.
pub open spec fn row_split_front(t: Seq<char>, at: int) -> Seq<char> {
    let g = graphemes_of(t);
    g.take(clamped(g, at)).flatten()
}

/// The clusters of the text from index `at` on, as text.
pub open spec fn row_split_back(t: Seq<char>, at: int) -> Seq<char> {
    let g = graphemes_of(t);
    g.skip(clamped(g, at)).flatten()
}

/// A cluster as it is drawn: a tab becomes a single space.
pub open spec fn rendered_cluster(cl: Seq<char>) -> Seq<char> {
    if cl == seq!['\t'] {
        seq![' ']
    } else {
        cl
    }
}

/// Every cluster as it is drawn.
pub open spec fn rendered_all(g: Seq<Seq<char>>) -> Seq<Seq<char>> {
    g.map_values(|cl: Seq<char>| rendered_cluster(cl))
}

/// The visible slice of the text: clusters in `[start, end)` clamped to
/// the cluster count, tabs replaced by single spaces.
pub open spec fn row_render_text(t: Seq<char>, start: int, end: int) -> Seq<char> {
    let g = graphemes_of(t);
    let e = if end > g.len() {
        g.len() as int
    } else {
        end
    };
    let s = if start > e {
        e
    } else {
        start
    };
    rendered_all(g).subrange(s, e).flatten()
}

/// Extending a flattened slice of clusters by one more cluster.
pub proof fn lemma_flatten_subrange_push(g: Seq<Seq<char>>, s: int, i: int)
    requires
        0 <= s <= i < g.len(),
    ensures
        g.subrange(s, i + 1).flatten() == g.subrange(s, i).flatten() + g[i],
{
    assert(g.subrange(s, i + 1) =~= g.subrange(s, i).push(g[i]));
    g.subrange(s, i).lemma_flatten_push(g[i]);
}

/// Concatenating the texts of the clusters before an index and from that
/// index on yields the text of all clusters.
pub proof fn lemma_flatten_split(g: Seq<Seq<char>>, i: int)
    requires
        0 <= i <= g.len(),
    ensures
        g.take(i).flatten() + g.skip(i).flatten() == g.flatten(),
{
    vstd::seq_lib::lemma_flatten_concat(g.take(i), g.skip(i));
    assert(g.take(i) + g.skip(i) =~= g);
}

/// One line of text together with its cached grapheme cluster count.
pub struct Row {
    text: String,
    len: usize,
}

impl Row {
    /// The characters of the line.
    pub closed spec fn text_view(self) -> Seq<char> {
        self.text@
    }

    /// The grapheme clusters of the line.
    pub open spec fn clusters(self) -> Seq<Seq<char>> {
        graphemes_of(self.text_view())
    }

    /// The cached length is the number of grapheme clusters.
    pub closed spec fn wf(self) -> bool {
        self.len == graphemes_of(self.text@).len()
    }

    pub fn from(s: &str) -> (r: Row)
        ensures
            r.wf(),
            r.text_view() == s@,
    {
        let text = s.to_owned();
        let len = graphemes(text.as_str()).len();
        Row { text, len }
    }

    pub fn len(&self) -> (r: usize)
        requires
            self.wf(),
        ensures
            r == self.clusters().len(),
    {
        self.len
    }

    pub fn is_empty(&self) -> (r: bool)
        requires
            self.wf(),
        ensures
            r == (self.clusters().len() == 0),
    {
        self.len == 0
    }

    pub fn as_str(&self) -> (r: &str)
        ensures
            r@ == self.text_view(),
    {
        self.text.as_str()
    }

    pub fn as_bytes(&self) -> (r: &[u8])
        ensures
            r@ == vstd::utf8::encode_utf8(self.text_view()),
    {
        self.text.as_str().as_bytes()
    }

    /// Recompute the cached cluster count after a mutation of the text.
    fn update_len(&mut self)
        ensures
            final(self).text == old(self).text,
            final(self).wf(),
    {
        self.len = graphemes(self.text.as_str()).len();
    }

    pub fn insert(&mut self, at: usize, c: char)
        requires
            old(self).wf(),
        ensures
            final(self).wf(),
            final(self).text_view() == row_insert_text(old(self).text_view(), at as int, c),
            at >= old(self).clusters().len() ==> final(self).text_view() == old(self).text_view()
                + seq![c],
    {
        let ghost g = self.clusters();
        let parts = graphemes(self.text.as_str());
        let n = parts.len();
        let cut = if at > n {
            n
        } else {
            at
        };
        let mut out = concat_range(&parts, 0, cut);
        let cs = char_to_string(c);
        out.append(cs.as_str());
        let rest = concat_range(&parts, cut, n);
        out.append(rest.as_str());
        proof {
            assert(g.take(cut as int) =~= g.subrange(0, cut as int));
            assert(g.skip(cut as int) =~= g.subrange(cut as int, g.len() as int));
            if at >= g.len() {
                assert(g.take(cut as int) =~= g);
                assert(g.skip(cut as int) =~= Seq::<Seq<char>>::empty());
                assert(Seq::<Seq<char>>::empty().flatten() =~= Seq::<char>::empty());
                assert(out@ =~= old(self).text_view() + seq![c]);
            }
        }
        self.text = out;
        self.update_len();
    }

    pub fn delete(&mut self, at: usize)
        requires
            old(self).wf(),
        ensures
            final(self).wf(),
            final(self).text_view() == row_delete_text(old(self).text_view(), at as int),
    {
        if at >= self.len {
            return ;
        }
        let ghost g = self.clusters();
        let parts = graphemes(self.text.as_str());
        let n = parts.len();
        let mut out = concat_range(&parts, 0, at);
        let rest = concat_range(&parts, at + 1, n);
        out.append(rest.as_str());
        proof {
            assert(g.take(at as int) =~= g.subrange(0, at as int));
            assert(g.skip(at + 1) =~= g.subrange(at + 1, g.len() as int));
        }
        self.text = out;
        self.update_len();
    }

    pub fn append(&mut self, new: &Row)
        requires
            old(self).wf(),
        ensures
            final(self).wf(),
            final(self).text_view() == old(self).text_view() + new.text_view(),
    {
        self.text.append(new.text.as_str());
        self.update_len();
    }

    /// Truncates the row to its first `at` clusters and returns the rest
    /// as a new row.  The two ensures on the texts give the split halves;
    /// the last ensures states that the halves concatenate back to the
    /// original text, so a `split` followed by an `append` of the returned
    /// row restores the row, text and cluster count alike.
    pub fn split(&mut self, at: usize) -> (r: Row)
        requires
            old(self).wf(),
        ensures
            final(self).wf(),
            r.wf(),
            final(self).text_view() == row_split_front(old(self).text_view(), at as int),
            r.text_view() == row_split_back(old(self).text_view(), at as int),
            final(self).text_view() + r.text_view() == old(self).text_view(),
    {
        let ghost g = self.clusters();
        let parts = graphemes(self.text.as_str());
        let n = parts.len();
        let cut = if at > n {
            n
        } else {
            at
        };
        let front = concat_range(&parts, 0, cut);
        let back = concat_range(&parts, cut, n);
        proof {
            assert(g.take(cut as int) =~= g.subrange(0, cut as int));
            assert(g.skip(cut as int) =~= g.subrange(cut as int, g.len() as int));
            lemma_flatten_split(g, cut as int);
        }
        self.text = front;
        self.update_len();
        Row::from(back.as_str())
    }

    pub fn render(&self, start: usize, end: usize) -> (r: String)
        ensures
            r@ == row_render_text(self.text_view(), start as int, end as int),
    {
        proof {
            reveal_strlit("\t");
            reveal_strlit(" ");
        }
        let ghost g = self.clusters();
        let ghost m = rendered_all(g);
        let parts = graphemes(self.text.as_str());
        let n = parts.len();
        let e = if end < n {
            end
        } else {
            n
        };
        let s = if start < e {
            start
        } else {
            e
        };
        let tab = String::from_str("\t");
        let space = String::from_str(" ");
        proof {
            assert(tab@ =~= seq!['\t']);
            assert(space@ =~= seq![' ']);
            assert(m.subrange(s as int, s as int) =~= Seq::<Seq<char>>::empty());
            assert(Seq::<Seq<char>>::empty().flatten() =~= Seq::<char>::empty());
        }
        let mut out = String::new();
        let mut i: usize = s;
        while i < e
            invariant
                s <= i <= e <= n,
                n == g.len(),
                m == rendered_all(g),
                views_of(parts@) == g,
                tab@ == seq!['\t'],
                space@ == seq![' '],
                out@ == m.subrange(s as int, i as int).flatten(),
            decreases e - i,
        {
            if parts[i] == tab {
                out.append(space.as_str());
            } else {
                out.append(parts[i].as_str());
            }
            proof {
                assert(m[i as int] == rendered_cluster(g[i as int]));
                lemma_flatten_subrange_push(m, s as int, i as int);
            }
            i = i + 1;
        }
        out
    }
}

impl Default for Row {
    /// An empty row.
    fn default() -> (r: Row)
        ensures
            r.wf(),
            r.text_view() == Seq::<char>::empty(),
            r.clusters() == Seq::<Seq<char>>::empty(),
    {
        let text = String::new();
        let len = graphemes(text.as_str()).len();
        Row { text, len }
    }
}

/// The concatenation of the cluster strings in `[from, to)`.
fn concat_range(parts: &Vec<String>, from: usize, to: usize) -> (r: String)
    requires
        from <= to <= parts@.len(),
    ensures
        r@ == views_of(parts@).subrange(from as int, to as int).flatten(),
{
    let ghost m = views_of(parts@);
    proof {
        assert(m.subrange(from as int, from as int) =~= Seq::<Seq<char>>::empty());
        assert(Seq::<Seq<char>>::empty().flatten() =~= Seq::<char>::empty());
    }
    let mut out = String::new();
    let mut i: usize = from;
    while i < to
        invariant
            from <= i <= to <= parts@.len(),
            m == views_of(parts@),
            out@ == m.subrange(from as int, i as int).flatten(),
        decreases to - i,
    {
        out.append(parts[i].as_str());
        proof {
            lemma_flatten_subrange_push(m, from as int, i as int);
        }
        i = i + 1;
    }
    out
}

/// Splitting a row at any cluster index and appending the returned tail
/// back onto the front reconstructs the original text, and with it the
/// cluster count.  The hypothesis on `flatten` holds of every string, as
/// the segmentation facts state.
pub proof fn lemma_split_append_restores(t: Seq<char>, at: int)
    requires
        0 <= at,
        graphemes_of(t).flatten() == t,
    ensures
        row_split_front(t, at) + row_split_back(t, at) == t,
{
    let g = graphemes_of(t);
    lemma_flatten_split(g, clamped(g, at));
}

/// Inserting a character that segments as a cluster of its own at `at`
/// and then deleting the cluster at `at` restores the original text.  The
/// first hypothesis holds of every string; the second excludes the
/// characters that merge with a neighbouring cluster, for which the
/// round trip genuinely does not restore the text.
pub proof fn lemma_insert_delete_restores(t: Seq<char>, at: int, c: char)
    requires
        0 <= at <= graphemes_of(t).len(),
        graphemes_of(t).flatten() == t,
        graphemes_of(row_insert_text(t, at, c)) == graphemes_of(t).take(at) + seq![seq![c]]
            + graphemes_of(t).skip(at),
    ensures
        row_delete_text(row_insert_text(t, at, c), at) == t,
{
    let g = graphemes_of(t);
    let t2 = row_insert_text(t, at, c);
    let g2 = graphemes_of(t2);
    assert(g2.len() == g.len() + 1);
    assert(g2.take(at) =~= g.take(at));
    assert(g2.skip(at + 1) =~= g.skip(at));
    lemma_flatten_split(g, at);
}

} // verus!
