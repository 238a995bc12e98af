//! CSV rendering of a query result: `;`-separated, header first, internal
//! columns left out.

use vstd::prelude::*;
use crate::chars::{chars_of, push_chars, string_of};
use crate::table::{rid_column, ord_column};
use crate::text::double_quotes;
use crate::xmldoc::QueryResult;

verus! {

/// Whether a CSV field must be quoted.
pub open spec fn needs_quotes(s: Seq<char>) -> bool {
    s.contains(';') || s.contains('"') || s.contains('\n')
}

/// A CSV field: quoted (with inner quotes doubled) when it holds `;`, `"`
/// or a line feed, else as is.
pub open spec fn csv_field(s: Seq<char>) -> Seq<char> {
    if needs_quotes(s) {
        seq!['"'] + double_quotes(s) + seq!['"']
    } else {
        s
    }
}

/// Whether a column is internal (`_rid`, `__ord`) and left out of exports.
pub open spec fn hidden_column(name: Seq<char>) -> bool {
    name == rid_column() || name == ord_column()
}

/// The positions of the columns that are shown, in order.
pub open spec fn visible(cols: Seq<Seq<char>>) -> Seq<int>
    decreases cols.len(),
{
    if cols.len() == 0 {
        Seq::empty()
    } else if hidden_column(cols.last()) {
        visible(cols.drop_last())
    } else {
        visible(cols.drop_last()).push(cols.len() - 1)
    }
}

/// Texts joined with `;`.
pub open spec fn join(cells: Seq<Seq<char>>) -> Seq<char>
    decreases cells.len(),
{
    if cells.len() == 0 {
        Seq::empty()
    } else if cells.len() == 1 {
        cells[0]
    } else {
        join(cells.drop_last()) + seq![';'] + cells.last()
    }
}

/// One CSV line (without its line feed) of the shown columns of `cells`.
pub open spec fn csv_line(cells: Seq<Seq<char>>, vis: Seq<int>) -> Seq<char> {
    join(vis.map_values(|i: int| csv_field(cells[i])))
}

pub open spec fn csv_rows(rows: Seq<Seq<Seq<char>>>, vis: Seq<int>) -> Seq<char>
    decreases rows.len(),
{
    if rows.len() == 0 {
        Seq::empty()
    } else {
        csv_rows(rows.drop_last(), vis) + csv_line(rows.last(), vis) + seq!['\n']
    }
}

/// The CSV text of a result: the header line, then one line per row.
pub open spec fn csv_text(cols: Seq<Seq<char>>, rows: Seq<Seq<Seq<char>>>) -> Seq<char> {
    let vis = visible(cols);
    csv_line(cols, vis) + seq!['\n'] + csv_rows(rows, vis)
}

pub proof fn lemma_visible_bounds(cols: Seq<Seq<char>>)
    ensures
        forall|k: int| 0 <= k < visible(cols).len() ==> 0 <= #[trigger] visible(cols)[k] < cols.len(),
        visible(cols).len() <= cols.len(),
    decreases cols.len(),
{
    if cols.len() > 0 {
        lemma_visible_bounds(cols.drop_last());
    }
}

/// The export shows every column but `_rid` and `__ord`, each once, in
/// order.
pub proof fn law_export_hides_internal_columns(cols: Seq<Seq<char>>)
    ensures
        forall|k: int|
            0 <= k < visible(cols).len() ==> !hidden_column(cols[#[trigger] visible(cols)[k]]),
        forall|k: int, j: int|
            0 <= k < j < visible(cols).len() ==> #[trigger] visible(cols)[k] < #[trigger] visible(
                cols,
            )[j],
        forall|i: int|
            0 <= i < cols.len() && !hidden_column(#[trigger] cols[i]) ==> visible(cols).contains(i),
    decreases cols.len(),
{
    if cols.len() > 0 {
        let p = cols.drop_last();
        law_export_hides_internal_columns(p);
        lemma_visible_bounds(p);
        let vp = visible(p);
        let v = visible(cols);
        assert forall|k: int| 0 <= k < vp.len() implies cols[vp[k]] == p[vp[k]] by {}
        assert forall|i: int| 0 <= i < cols.len() && !hidden_column(#[trigger] cols[i]) implies v.contains(
            i,
        ) by {
            if i < cols.len() - 1 {
                assert(p[i] == cols[i]);
                let k = choose|k: int| 0 <= k < vp.len() && vp[k] == i;
                assert(v[k] == i);
            } else {
                assert(v[v.len() - 1] == i);
            }
        }
    }
}

/// A CSV field.
pub fn csv_field_exec(s: &[char]) -> (r: Vec<char>)
    ensures
        r@ == csv_field(s@),
{
    let mut quote = false;
    let mut i: usize = 0;
    while i < s.len()
        invariant
            i <= s@.len(),
            quote == (s@.take(i as int).contains(';') || s@.take(i as int).contains('"')
                || s@.take(i as int).contains('\n')),
        decreases s@.len() - i,
    {
        let c = s[i];
        proof {
            let t = s@.take(i + 1);
            assert(t =~= s@.take(i as int).push(c));
            assert(t[i as int] == c);
            assert forall|x: char| t.contains(x) <==> (s@.take(i as int).contains(x) || x == c) by {
                if t.contains(x) {
                    let w = choose|w: int| 0 <= w < t.len() && t[w] == x;
                    if w < i {
                        assert(s@.take(i as int)[w] == x);
                    }
                }
                if s@.take(i as int).contains(x) {
                    let w = choose|w: int| 0 <= w < i && s@.take(i as int)[w] == x;
                    assert(t[w] == x);
                }
            }
        }
        if c == ';' || c == '"' || c == '\n' {
            quote = true;
        }
        i = i + 1;
    }
    assert(s@.take(i as int) =~= s@);
    if !quote {
        let mut r: Vec<char> = Vec::new();
        push_chars(&mut r, s);
        assert(r@ =~= s@);
        return r;
    }
    crate::text::quoted(s)
}

/// The positions of the shown columns.
pub fn visible_exec(cols: &Vec<String>) -> (r: Vec<usize>)
    ensures
        r@.map_values(|i: usize| i as int) == visible(cols.deep_view()),
        forall|k: int| 0 <= k < r@.len() ==> #[trigger] r@[k] < cols@.len(),
{
    let rid = chars_of("_rid");
    let ord = chars_of("__ord");
    proof {
        reveal_strlit("_rid");
        reveal_strlit("__ord");
        assert(rid@ =~= rid_column());
        assert(ord@ =~= ord_column());
    }
    let mut r: Vec<usize> = Vec::new();
    let mut i: usize = 0;
    while i < cols.len()
        invariant
            i <= cols@.len(),
            rid@ == rid_column(),
            ord@ == ord_column(),
            r@.map_values(|i: usize| i as int) =~= visible(cols.deep_view().take(i as int)),
            forall|k: int| 0 <= k < r@.len() ==> #[trigger] r@[k] < i,
        decreases cols@.len() - i,
    {
        let c = chars_of(cols[i].as_str());
        let hidden = crate::chars::chars_eq(&c, &rid) || crate::chars::chars_eq(&c, &ord);
        proof {
            let t = cols.deep_view().take(i + 1);
            assert(t.drop_last() =~= cols.deep_view().take(i as int));
            assert(t.last() == c@);
        }
        if !hidden {
            r.push(i);
        }
        i = i + 1;
    }
    assert(cols.deep_view().take(i as int) =~= cols.deep_view());
    r
}

fn line_into(out: &mut Vec<char>, cells: &Vec<String>, vis: &Vec<usize>)
    requires
        forall|k: int| 0 <= k < vis@.len() ==> #[trigger] vis@[k] < cells@.len(),
    ensures
        final(out)@ == old(out)@ + csv_line(cells.deep_view(), vis@.map_values(|i: usize| i as int)),
{
    let ghost vi = vis@.map_values(|i: usize| i as int);
    let ghost fs = vi.map_values(|i: int| csv_field(cells.deep_view()[i]));
    let mut k: usize = 0;
    while k < vis.len()
        invariant
            k <= vis@.len(),
            vi == vis@.map_values(|i: usize| i as int),
            fs == vi.map_values(|i: int| csv_field(cells.deep_view()[i])),
            forall|q: int| 0 <= q < vis@.len() ==> #[trigger] vis@[q] < cells@.len(),
            out@ == old(out)@ + join(fs.take(k as int)),
        decreases vis@.len() - k,
    {
        let ghost before = out@;
        if k > 0 {
            out.push(';');
        }
        let c = chars_of(cells[vis[k]].as_str());
        let f = csv_field_exec(&c);
        push_chars(out, &f);
        proof {
            let t = fs.take(k + 1);
            assert(t.drop_last() =~= fs.take(k as int));
            assert(t.last() == f@);
            if k == 0 {
                assert(t.len() == 1);
                assert(out@ =~= old(out)@ + join(t));
            } else {
                assert(out@ =~= old(out)@ + join(t));
            }
        }
        k = k + 1;
    }
    assert(fs.take(k as int) =~= fs);
}

impl QueryResult {
    /// The result as CSV text. Every row must hold a cell for each shown
    /// column.
    pub fn csv(&self) -> (r: String)
        requires
            forall|k: int, q: int|
                #![trigger self.rows@[k], visible(self.columns.deep_view())[q]]
                0 <= k < self.rows@.len() && 0 <= q < visible(self.columns.deep_view()).len()
                    ==> visible(self.columns.deep_view())[q] < self.rows@[k]@.len(),
        ensures
            r@ == csv_text(self.columns.deep_view(), self.rows.deep_view()),
    {
        let vis = visible_exec(&self.columns);
        let ghost vi = vis@.map_values(|i: usize| i as int);
        let mut out: Vec<char> = Vec::new();
        line_into(&mut out, &self.columns, &vis);
        out.push('\n');
        let ghost start = out@;
        let mut k: usize = 0;
        while k < self.rows.len()
            invariant
                k <= self.rows@.len(),
                vi == vis@.map_values(|i: usize| i as int),
                forall|q: int| 0 <= q < vis@.len() ==> #[trigger] vis@[q] < self.columns@.len(),
                forall|j: int, q: int|
                    #![trigger self.rows@[j], vi[q]]
                    0 <= j < self.rows@.len() && 0 <= q < vi.len() ==> vi[q] < self.rows@[j]@.len(),
                out@ == start + csv_rows(self.rows.deep_view().take(k as int), vi),
            decreases self.rows@.len() - k,
        {
            proof {
                assert forall|q: int| 0 <= q < vis@.len() implies #[trigger] vis@[q] < self.rows@[k as int]@.len() by {
                    assert(vi[q] == vis@[q] as int);
                    assert(vi[q] < self.rows@[k as int]@.len());
                }
            }
            line_into(&mut out, &self.rows[k], &vis);
            out.push('\n');
            proof {
                let t = self.rows.deep_view().take(k + 1);
                assert(t.drop_last() =~= self.rows.deep_view().take(k as int));
                assert(t.last() == self.rows[k as int].deep_view());
                assert(out@ =~= start + csv_rows(t, vi));
            }
            k = k + 1;
        }
        assert(self.rows.deep_view().take(k as int) =~= self.rows.deep_view());
        assert(out@ =~= csv_text(self.columns.deep_view(), self.rows.deep_view()));
        string_of(&out)
    }
}

} // verus!
