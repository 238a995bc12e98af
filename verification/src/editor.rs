//! What the table editor computes around the document: the word under the
//! cursor and the column names offered for it, the search through the
//! rows, the grid shown for a query result, and the texts of its status
//! line and number formats.

use vstd::prelude::*;
use crate::chars::{chars_of, chars_eq, string_of, push_chars, push_str};
use crate::text::{double_quotes, quoted, trim, trim_chars, dec, fmt_u64};
use crate::frame::{find_from, find_from_exec};

verus! {

// ------------------------------------------------------ std character classes

/// Whether `char::is_alphanumeric` holds of `c`.
pub uninterp spec fn alphanumeric(c: char) -> bool;

/// Whether `char::is_alphabetic` holds of `c`.
pub uninterp spec fn alphabetic(c: char) -> bool;

/// The text `str::to_lowercase` gives for `s`.
pub uninterp spec fn lowercase(s: Seq<char>) -> Seq<char>;

/// Trusted: `char::is_alphanumeric` (Unicode `Alphabetic` or `Numeric`).
#[verifier::external_body]
fn is_alphanumeric(c: char) -> (r: bool)
    ensures
        r == alphanumeric(c),
{
    c.is_alphanumeric()
}

/// Trusted: `char::is_alphabetic` (Unicode `Alphabetic`).
#[verifier::external_body]
fn is_alphabetic(c: char) -> (r: bool)
    ensures
        r == alphabetic(c),
{
    c.is_alphabetic()
}

/// Trusted: `str::to_lowercase`; the result depends on the text alone.
#[verifier::external_body]
fn to_lowercase(s: &str) -> (r: String)
    ensures
        r@ == lowercase(s@),
{
    s.to_lowercase()
}

pub open spec fn digit_value(c: char) -> int {
    (c as u32) - ('0' as u32)
}

pub open spec fn is_digit(c: char) -> bool {
    '0' <= c && c <= '9'
}

/// The value of a string of decimal digits.
pub open spec fn digits_value(s: Seq<char>) -> int
    decreases s.len(),
{
    if s.len() == 0 {
        0
    } else {
        digits_value(s.drop_last()) * 10 + digit_value(s.last())
    }
}

/// Whether a text starts with a sign.
pub open spec fn signed(s: Seq<char>) -> bool {
    s.len() > 0 && (s[0] == '-' || s[0] == '+')
}

/// A text without its sign.
pub open spec fn unsigned_part(s: Seq<char>) -> Seq<char> {
    if signed(s) {
        s.drop_first()
    } else {
        s
    }
}

/// The integer a text denotes as `i64::from_str` reads it: an optional `+`
/// or `-`, then one or more ASCII digits, nothing else.
pub open spec fn int_text(s: Seq<char>) -> Option<int> {
    let body = unsigned_part(s);
    if body.len() > 0 && forall|i: int| 0 <= i < body.len() ==> is_digit(#[trigger] body[i]) {
        Some(
            if s[0] == '-' {
                -digits_value(body)
            } else {
                digits_value(body)
            },
        )
    } else {
        None
    }
}

/// A string of digits is worth at least any of its prefixes, and nothing
/// negative.
proof fn lemma_digits_grow(s: Seq<char>, k: int)
    requires
        0 <= k <= s.len(),
        forall|i: int| 0 <= i < s.len() ==> is_digit(#[trigger] s[i]),
    ensures
        0 <= digits_value(s.take(k)) <= digits_value(s),
    decreases s.len(),
{
    if s.len() > 0 {
        let t = s.drop_last();
        assert forall|i: int| 0 <= i < t.len() implies is_digit(#[trigger] t[i]) by {
            assert(t[i] == s[i]);
        }
        if k < s.len() {
            lemma_digits_grow(t, k);
            assert(t.take(k) =~= s.take(k));
        } else {
            lemma_digits_grow(t, 0);
            assert(t.take(0) =~= Seq::<char>::empty());
            assert(s.take(k) =~= s);
        }
    } else {
        assert(s.take(k) =~= s);
    }
}

/// Reads an `i64` written as `i64::from_str` reads it: an optional sign and
/// one or more ASCII digits, within the range of `i64`.
fn parse_i64(s: &str) -> (r: Option<i64>)
    ensures
        r == (match int_text(s@) {
            Some(v) => if i64::MIN <= v <= i64::MAX {
                Some(v as i64)
            } else {
                None
            },
            None => None,
        }),
{
    let c = chars_of(s);
    let neg: bool = c.len() > 0 && c[0] == '-';
    let start: usize = if c.len() > 0 && (c[0] == '-' || c[0] == '+') {
        1
    } else {
        0
    };
    let ghost body = c@.subrange(start as int, c@.len() as int);
    proof {
        assert(body =~= unsigned_part(s@));
    }
    if start >= c.len() {
        return None;
    }
    let limit: u128 = 0x8000_0000_0000_0000;
    let mut acc: u128 = 0;
    let mut i: usize = start;
    while i < c.len()
        invariant
            start <= i <= c@.len(),
            start < c@.len(),
            body == c@.subrange(start as int, c@.len() as int),
            forall|j: int| 0 <= j < i - start ==> is_digit(#[trigger] body[j]),
            acc == digits_value(body.take(i - start)),
            acc <= limit,
            limit == 0x8000_0000_0000_0000,
            int_text(s@) == if body.len() > 0 && forall|j: int|
                0 <= j < body.len() ==> is_digit(#[trigger] body[j]) {
                Some(if neg { -digits_value(body) } else { digits_value(body) })
            } else {
                None::<int>
            },
        decreases c@.len() - i,
    {
        let ch = c[i];
        let ghost k = i - start;
        assert(body[k] == ch);
        if !('0' <= ch && ch <= '9') {
            proof {
                assert(!is_digit(body[k]));
            }
            return None;
        }
        let d: u128 = ((ch as u32) - ('0' as u32)) as u128;
        assert(body.take(k + 1).drop_last() =~= body.take(k));
        assert(digits_value(body.take(k + 1)) == acc * 10 + d);
        let next: u128 = acc * 10 + d;
        if next > limit {
            proof {
                if forall|j: int| 0 <= j < body.len() ==> is_digit(#[trigger] body[j]) {
                    lemma_digits_grow(body, k + 1);
                    assert(digits_value(body) > limit);
                }
            }
            return None;
        }
        acc = next;
        i = i + 1;
    }
    assert(body.take(i - start) =~= body);
    if neg {
        if acc == limit {
            Some(i64::MIN)
        } else {
            Some(0 - (acc as i64))
        }
    } else if acc < limit {
        Some(acc as i64)
    } else {
        None
    }
}

// ------------------------------------------------------------- the cursor word

/// A character of a column name as the editor reads words: a letter, a
/// digit or `_`.
pub open spec fn ident_char(c: char) -> bool {
    alphanumeric(c) || c == '_'
}

pub fn is_ident_char(c: char) -> (r: bool)
    ensures
        r == ident_char(c),
{
    is_alphanumeric(c) || c == '_'
}

/// Where the word that ends at position `c` starts.
pub open spec fn word_start(t: Seq<char>, c: int) -> int
    decreases c,
{
    if 0 < c <= t.len() && ident_char(t[c - 1]) {
        word_start(t, c - 1)
    } else {
        c
    }
}

/// Where the word that starts at position `c` ends.
pub open spec fn word_end(t: Seq<char>, c: int) -> int
    decreases t.len() - c,
{
    if 0 <= c < t.len() && ident_char(t[c]) {
        word_end(t, c + 1)
    } else {
        c
    }
}

pub open spec fn clamp(cursor: int, len: int) -> int {
    if cursor < len {
        cursor
    } else {
        len
    }
}

proof fn lemma_word_bounds(t: Seq<char>, c: int)
    requires
        0 <= c <= t.len(),
    ensures
        0 <= word_start(t, c) <= c,
        c <= word_end(t, c) <= t.len(),
    decreases t.len() - c,
{
    lemma_word_start_bounds(t, c);
    if c < t.len() && ident_char(t[c]) {
        lemma_word_bounds(t, c + 1);
        lemma_word_start_bounds(t, c);
    }
}

proof fn lemma_word_start_bounds(t: Seq<char>, c: int)
    requires
        0 <= c <= t.len(),
    ensures
        0 <= word_start(t, c) <= c,
    decreases c,
{
    if c > 0 && ident_char(t[c - 1]) {
        lemma_word_start_bounds(t, c - 1);
    }
}

/// The word of letters, digits and `_` around the cursor (its start, its
/// end, its text), positions counted in characters; a cursor past the end
/// stands at the end.
pub fn current_word(text: &str, cursor: usize) -> (r: (usize, usize, String))
    ensures
        r.0 == word_start(text@, clamp(cursor as int, text@.len() as int)),
        r.1 == word_end(text@, clamp(cursor as int, text@.len() as int)),
        r.2@ == text@.subrange(r.0 as int, r.1 as int),
{
    let t = chars_of(text);
    let c = if cursor < t.len() {
        cursor
    } else {
        t.len()
    };
    proof {
        lemma_word_bounds(t@, c as int);
    }
    let mut start = c;
    while start > 0 && is_ident_char(t[start - 1])
        invariant
            start <= c <= t@.len(),
            word_start(t@, c as int) == word_start(t@, start as int),
        decreases start,
    {
        start = start - 1;
    }
    let mut end = c;
    while end < t.len() && is_ident_char(t[end])
        invariant
            c <= end <= t@.len(),
            word_end(t@, c as int) == word_end(t@, end as int),
        decreases t@.len() - end,
    {
        end = end + 1;
    }
    let mut w: Vec<char> = Vec::new();
    let mut k = start;
    while k < end
        invariant
            start <= k <= end <= t@.len(),
            w@ =~= t@.subrange(start as int, k as int),
        decreases end - k,
    {
        w.push(t[k]);
        k = k + 1;
    }
    (start, end, string_of(&w))
}

// --------------------------------------------------------------- completion

/// A column name that SQL reads without quotes: a letter or `_`, then ASCII
/// letters, digits and `_`.
pub open spec fn simple_ident(s: Seq<char>) -> bool {
    &&& s.len() > 0
    &&& (alphabetic(s[0]) || s[0] == '_')
    &&& forall|i: int| 0 <= i < s.len() ==> ascii_word_char(#[trigger] s[i])
}

pub open spec fn ascii_word_char(c: char) -> bool {
    ('a' <= c && c <= 'z') || ('A' <= c && c <= 'Z') || ('0' <= c && c <= '9') || c == '_'
}

/// A column name as the filter writes it: bare when simple, else quoted.
pub open spec fn ident_text(s: Seq<char>) -> Seq<char> {
    if simple_ident(s) {
        s
    } else {
        seq!['"'] + double_quotes(s) + seq!['"']
    }
}

/// A column name as SQL text, quoted unless it is a simple identifier.
pub fn quote_ident(name: &str) -> (r: String)
    ensures
        r@ == ident_text(name@),
{
    let n = chars_of(name);
    let mut simple = n.len() > 0 && (is_alphabetic(n[0]) || n[0] == '_');
    let mut i: usize = 0;
    while simple && i < n.len()
        invariant
            i <= n@.len(),
            simple ==> forall|j: int| 0 <= j < i ==> ascii_word_char(#[trigger] n@[j]),
            simple ==> n@.len() > 0 && (alphabetic(n@[0]) || n@[0] == '_'),
            !simple ==> !simple_ident(n@),
        decreases n@.len() - i,
    {
        let c = n[i];
        if !(('a' <= c && c <= 'z') || ('A' <= c && c <= 'Z') || ('0' <= c && c <= '9') || c == '_') {
            simple = false;
        }
        i = i + 1;
    }
    if simple {
        String::from_str(name)
    } else {
        string_of(&quoted(&n))
    }
}

/// What completing the word under the cursor with a column name does: the
/// word from `r.0` to `r.1` gives way to the text `r.2`, the name as SQL
/// reads it followed by a space.
pub fn complete_word(text: &str, cursor: usize, name: &str) -> (r: (usize, usize, String))
    ensures
        r.0 == word_start(text@, clamp(cursor as int, text@.len() as int)),
        r.1 == word_end(text@, clamp(cursor as int, text@.len() as int)),
        r.2@ == ident_text(name@) + seq![' '],
{
    let (start, end, _w) = current_word(text, cursor);
    let mut ins = quote_ident(name);
    ins.append(" ");
    proof {
        reveal_strlit(" ");
        assert(" "@ =~= seq![' ']);
    }
    (start, end, ins)
}

// -------------------------------------------------------------- suggestions

/// The most names offered at once.
pub open spec fn max_suggestions() -> nat {
    8
}

/// The internal columns, never offered.
pub open spec fn internal_column(c: Seq<char>) -> bool {
    c == "_rid"@ || c == "__ord"@
}

/// A column offered for what was typed: its lower-case name starts with
/// the lower-case text typed and is longer than it.
pub open spec fn offered(col: Seq<char>, needle: Seq<char>) -> bool {
    let l = lowercase(col);
    &&& !internal_column(col)
    &&& needle.len() <= l.len()
    &&& l.take(needle.len() as int) == needle
    &&& l != needle
}

/// The columns offered, in order.
pub open spec fn offered_all(cols: Seq<Seq<char>>, needle: Seq<char>) -> Seq<Seq<char>>
    decreases cols.len(),
{
    if cols.len() == 0 {
        Seq::empty()
    } else {
        let p = offered_all(cols.drop_last(), needle);
        if offered(cols.last(), needle) {
            p.push(cols.last())
        } else {
            p
        }
    }
}

/// The text typed so far of the word under the cursor.
pub open spec fn typed_text(text: Seq<char>, cursor: int) -> Seq<char> {
    let c = clamp(cursor, text.len() as int);
    let s = word_start(text, c);
    let w = text.subrange(s, word_end(text, c));
    let k = cursor - s;
    if k < w.len() {
        w.take(k)
    } else {
        w
    }
}

/// The column names to offer while the user types `text` with the cursor at
/// `cursor`: none when nothing but spaces was typed of the current word,
/// else the first few columns the typed text begins.
pub open spec fn suggestion_list(cols: Seq<Seq<char>>, text: Seq<char>, cursor: int) -> Seq<Seq<char>> {
    let typed = typed_text(text, cursor);
    if trim(typed).len() == 0 {
        Seq::empty()
    } else {
        let all = offered_all(cols, lowercase(typed));
        if all.len() <= max_suggestions() {
            all
        } else {
            all.take(max_suggestions() as int)
        }
    }
}

proof fn lemma_offered_prefix(cols: Seq<Seq<char>>, needle: Seq<char>, i: int, j: int)
    requires
        0 <= i <= j <= cols.len(),
    ensures
        offered_all(cols.take(i), needle).len() <= offered_all(cols.take(j), needle).len(),
        offered_all(cols.take(j), needle).take(offered_all(cols.take(i), needle).len() as int)
            == offered_all(cols.take(i), needle),
    decreases j - i,
{
    if i < j {
        lemma_offered_prefix(cols, needle, i, j - 1);
        assert(cols.take(j).drop_last() =~= cols.take(j - 1));
        let a = offered_all(cols.take(i), needle);
        let b = offered_all(cols.take(j - 1), needle);
        let c = offered_all(cols.take(j), needle);
        assert(c.take(a.len() as int) =~= b.take(a.len() as int));
    } else {
        let a = offered_all(cols.take(i), needle);
        assert(a.take(a.len() as int) =~= a);
    }
}

fn starts_with_chars(s: &[char], p: &[char]) -> (r: bool)
    ensures
        r == (p@.len() <= s@.len() && s@.take(p@.len() as int) == p@),
{
    if p.len() > s.len() {
        return false;
    }
    let mut i: usize = 0;
    while i < p.len()
        invariant
            p@.len() <= s@.len(),
            i <= p@.len(),
            forall|j: int| 0 <= j < i ==> s@[j] == p@[j],
        decreases p@.len() - i,
    {
        if s[i] != p[i] {
            assert(s@.take(p@.len() as int)[i as int] != p@[i as int]);
            return false;
        }
        i = i + 1;
    }
    assert(s@.take(p@.len() as int) =~= p@);
    true
}

fn offered_exec(col: &String, needle: &Vec<char>) -> (r: bool)
    ensures
        r == offered(col@, needle@),
{
    let c = chars_of(col.as_str());
    let rid = chars_of("_rid");
    let ord = chars_of("__ord");
    if chars_eq(&c, &rid) || chars_eq(&c, &ord) {
        return false;
    }
    let l = chars_of(to_lowercase(col.as_str()).as_str());
    starts_with_chars(&l, needle) && !chars_eq(&l, needle)
}

/// The column names offered while the user types `text` with the cursor at
/// `cursor` (positions in characters).
pub fn suggestions(columns: &Vec<String>, text: &str, cursor: usize) -> (r: Vec<String>)
    ensures
        r.deep_view() == suggestion_list(columns.deep_view(), text@, cursor as int),
{
    let ghost cols = columns.deep_view();
    let (start, end, word) = current_word(text, cursor);
    proof {
        lemma_word_bounds(text@, clamp(cursor as int, text@.len() as int));
    }
    let w = chars_of(word.as_str());
    let k = cursor - start;
    let mut typed: Vec<char> = Vec::new();
    let mut i: usize = 0;
    while i < w.len() && i < k
        invariant
            i <= w@.len(),
            i <= k,
            typed@ =~= w@.take(i as int),
        decreases w@.len() - i,
    {
        typed.push(w[i]);
        i = i + 1;
    }
    proof {
        if k >= w@.len() {
            assert(i == w@.len());
            assert(typed@ =~= w@);
        } else {
            assert(i == k);
        }
        assert(typed@ == typed_text(text@, cursor as int));
    }
    let mut out: Vec<String> = Vec::new();
    if trim_chars(&typed).len() == 0 {
        return out;
    }
    let needle = chars_of(to_lowercase(string_of(&typed).as_str()).as_str());
    let mut j: usize = 0;
    while j < columns.len()
        invariant
            j <= columns@.len(),
            cols == columns.deep_view(),
            out.deep_view() == offered_all(cols.take(j as int), needle@),
            out@.len() < max_suggestions(),
            needle@ == lowercase(typed_text(text@, cursor as int)),
            trim(typed_text(text@, cursor as int)).len() != 0,
        decreases columns@.len() - j,
    {
        proof {
            assert(cols.take(j + 1).drop_last() =~= cols.take(j as int));
        }
        if offered_exec(&columns[j], &needle) {
            let ghost prev = out.deep_view();
            out.push(columns[j].clone());
            assert(out.deep_view() =~= prev.push(cols[j as int]));
            if out.len() == 8 {
                proof {
                    lemma_offered_prefix(cols, needle@, j + 1, cols.len() as int);
                    assert(cols.take(cols.len() as int) =~= cols);
                    let all = offered_all(cols, needle@);
                    assert(all.take(8) == out.deep_view());
                    assert(suggestion_list(cols, text@, cursor as int) == (if all.len() <= 8 { all } else { all.take(8) }));
                    if all.len() <= 8 {
                        assert(all.take(8) =~= all);
                    }
                }
                return out;
            }
        }
        j = j + 1;
    }
    assert(cols.take(j as int) =~= cols);
    out
}

// ------------------------------------------------------------------- search

/// Whether some cell of a row holds `needle`, ignoring case.
pub open spec fn row_hit(row: Seq<Seq<char>>, needle: Seq<char>) -> bool {
    exists|c: int| 0 <= c < row.len() && #[trigger] find_from(lowercase(row[c]), needle, 0) is Some
}

/// The first row, going round from `start`, in which some cell holds
/// `needle`: the offset from `start` of that row among offsets `off..n`.
pub open spec fn hit_from(rows: Seq<Seq<Seq<char>>>, needle: Seq<char>, start: int, off: int) -> Option<int>
    decreases rows.len() - off,
{
    if off < 0 || off >= rows.len() {
        None
    } else if row_hit(rows[(start + off) % (rows.len() as int)], needle) {
        Some((start + off) % (rows.len() as int))
    } else {
        hit_from(rows, needle, start, off + 1)
    }
}

/// Where the search for `needle` lands: the next row after the selected one
/// (or from the first, with none selected), going round, that holds the
/// text in some cell, ignoring case; nothing for an empty text.
pub open spec fn next_hit(rows: Seq<Seq<Seq<char>>>, needle: Seq<char>, selected: Option<int>) -> Option<int> {
    let n = lowercase(needle);
    if n.len() == 0 || rows.len() == 0 {
        None
    } else {
        let start = match selected {
            Some(s) => s % (rows.len() as int) + 1,
            None => 0,
        };
        hit_from(rows, n, start, 0)
    }
}

pub open spec fn position_of_selection(s: Option<usize>) -> Option<int> {
    match s {
        Some(p) => Some(p as int),
        None => None,
    }
}

/// The search from `from` finds something exactly when `pat` occurs at some
/// position at or after `from`.
proof fn lemma_find_from_some(s: Seq<char>, pat: Seq<char>, from: int)
    requires
        0 <= from,
    ensures
        (find_from(s, pat, from) is Some) <==> exists|i: int|
            from <= i && i + pat.len() <= s.len() && #[trigger] s.subrange(i, i + pat.len()) == pat,
    decreases s.len() + 1 - from,
{
    if from <= s.len() && !(from + pat.len() <= s.len() && s.subrange(from, from + pat.len()) == pat) {
        lemma_find_from_some(s, pat, from + 1);
        if exists|i: int| from <= i && i + pat.len() <= s.len() && #[trigger] s.subrange(i, i + pat.len()) == pat {
            let i = choose|i: int| from <= i && i + pat.len() <= s.len() && #[trigger] s.subrange(i, i + pat.len()) == pat;
            assert(i != from);
        }
    }
}

/// A row is a hit exactly when the lower-cased text of one of its cells
/// holds `needle` at some position, not only at its start.
pub proof fn law_hit_is_containment(row: Seq<Seq<char>>, needle: Seq<char>)
    ensures
        row_hit(row, needle) <==> exists|c: int, i: int|
            0 <= c < row.len() && 0 <= i && i + needle.len() <= lowercase(row[c]).len()
                && #[trigger] lowercase(row[c]).subrange(i, i + needle.len()) == needle,
{
    if row_hit(row, needle) {
        let c = choose|c: int| 0 <= c < row.len() && #[trigger] find_from(lowercase(row[c]), needle, 0) is Some;
        lemma_find_from_some(lowercase(row[c]), needle, 0);
    }
    if exists|c: int, i: int|
        0 <= c < row.len() && 0 <= i && i + needle.len() <= lowercase(row[c]).len()
            && #[trigger] lowercase(row[c]).subrange(i, i + needle.len()) == needle {
        let (c, i) = choose|c: int, i: int|
            0 <= c < row.len() && 0 <= i && i + needle.len() <= lowercase(row[c]).len()
                && #[trigger] lowercase(row[c]).subrange(i, i + needle.len()) == needle;
        lemma_find_from_some(lowercase(row[c]), needle, 0);
        assert(find_from(lowercase(row[c]), needle, 0) is Some);
    }
}

/// The row the search lands on holds the lower-cased text in one of its
/// cells.
pub proof fn law_search_lands_on_a_containing_row(rows: Seq<Seq<Seq<char>>>, needle: Seq<char>, selected: Option<int>)
    ensures
        next_hit(rows, needle, selected) matches Some(p) ==> 0 <= p < rows.len() && exists|c: int, i: int|
            0 <= c < rows[p].len() && 0 <= i && i + lowercase(needle).len() <= lowercase(rows[p][c]).len()
                && #[trigger] lowercase(rows[p][c]).subrange(i, i + lowercase(needle).len()) == lowercase(needle),
{
    let n = lowercase(needle);
    if n.len() > 0 && rows.len() > 0 {
        let start = match selected {
            Some(s) => s % (rows.len() as int) + 1,
            None => 0,
        };
        lemma_hit_from_hits(rows, n, start, 0);
        if let Some(p) = next_hit(rows, needle, selected) {
            law_hit_is_containment(rows[p], n);
        }
    }
}

proof fn lemma_hit_from_hits(rows: Seq<Seq<Seq<char>>>, needle: Seq<char>, start: int, off: int)
    requires
        rows.len() > 0,
    ensures
        hit_from(rows, needle, start, off) matches Some(p) ==> 0 <= p < rows.len() && row_hit(rows[p], needle),
    decreases rows.len() - off,
{
    if 0 <= off < rows.len() && !row_hit(rows[(start + off) % (rows.len() as int)], needle) {
        lemma_hit_from_hits(rows, needle, start, off + 1);
    }
}

fn row_hit_exec(row: &Vec<String>, needle: &Vec<char>) -> (r: bool)
    ensures
        r == row_hit(row.deep_view(), needle@),
{
    let ghost rv = row.deep_view();
    let mut c: usize = 0;
    while c < row.len()
        invariant
            c <= row@.len(),
            rv == row.deep_view(),
            forall|j: int| 0 <= j < c ==> find_from(lowercase(#[trigger] rv[j]), needle@, 0) is None,
        decreases row@.len() - c,
    {
        let l = chars_of(to_lowercase(row[c].as_str()).as_str());
        if find_from_exec(&l, needle, 0).is_some() {
            assert(find_from(lowercase(rv[c as int]), needle@, 0) is Some);
            return true;
        }
        c = c + 1;
    }
    false
}

/// The row that searching for `needle` selects, after the row `selected`.
pub fn find_next(rows: &Vec<Vec<String>>, needle: &str, selected: Option<usize>) -> (r: Option<usize>)
    ensures
        r matches Some(p) ==> next_hit(rows.deep_view(), needle@, position_of_selection(selected))
            == Some(p as int),
        r is None ==> next_hit(rows.deep_view(), needle@, position_of_selection(selected)) is None,
{
    let ghost rv = rows.deep_view();
    let n = chars_of(to_lowercase(needle).as_str());
    let len = rows.len();
    if n.len() == 0 || len == 0 {
        return None;
    }
    let start: usize = match selected {
        Some(s) => s % len + 1,
        None => 0,
    };
    let mut off: usize = 0;
    while off < len
        invariant
            len == rows@.len(),
            len > 0,
            start <= len,
            rv == rows.deep_view(),
            off <= len,
            hit_from(rv, n@, start as int, 0) == hit_from(rv, n@, start as int, off as int),
            n@ == lowercase(needle@),
            n@.len() > 0,
            start as int == (match position_of_selection(selected) {
                Some(s) => s % (len as int) + 1,
                None => 0,
            }),
        decreases len - off,
    {
        let pos = if off < len - start {
            start + off
        } else {
            off - (len - start)
        };
        assert(pos == (start + off) % (len as int)) by (nonlinear_arith)
            requires
                start <= len,
                off < len,
                len > 0,
                pos == (if off < len - start { start + off } else { off - (len - start) }),
        ;
        assert(rv[pos as int] == rows@[pos as int].deep_view());
        if row_hit_exec(&rows[pos], &n) {
            assert(row_hit(rv[(start + off) % (rv.len() as int)], n@));
            assert(hit_from(rv, n@, start as int, off as int) == Some(pos as int));
            return Some(pos);
        }
        off = off + 1;
    }
    None
}

// -------------------------------------------------------------- the grid


/// A query result as the grid shows it: the visible columns, and for each
/// row its id (or -1 when the result carries none) and its visible cells.
pub struct Grid {
    pub columns: Vec<String>,
    pub rows: Vec<(i64, Vec<String>)>,
}

/// The position of the first column named `_rid`.
pub open spec fn rid_position(cols: Seq<Seq<char>>, i: int) -> Option<int>
    decreases cols.len() - i,
{
    if i < 0 || i >= cols.len() {
        None
    } else if cols[i] == "_rid"@ {
        Some(i)
    } else {
        rid_position(cols, i + 1)
    }
}

/// The id a grid row carries: the `_rid` cell read as an integer, or -1.
pub open spec fn grid_rowid(row: Seq<Seq<char>>, rid: Option<int>) -> int {
    match rid {
        Some(i) => if 0 <= i < row.len() {
            match int_text(row[i]) {
                Some(v) => if i64::MIN <= v <= i64::MAX {
                    v
                } else {
                    -1
                },
                None => -1,
            }
        } else {
            -1
        },
        None => -1,
    }
}

/// The cells of `row` at the positions `vis`.
pub open spec fn pick(row: Seq<Seq<char>>, vis: Seq<int>) -> Seq<Seq<char>> {
    vis.map_values(|i: int| row[i])
}

fn pick_exec(row: &Vec<String>, vis: &Vec<usize>) -> (r: Vec<String>)
    requires
        forall|k: int| 0 <= k < vis@.len() ==> #[trigger] vis@[k] < row@.len(),
    ensures
        r.deep_view() == pick(row.deep_view(), vis@.map_values(|i: usize| i as int)),
{
    let mut r: Vec<String> = Vec::new();
    let mut k: usize = 0;
    while k < vis.len()
        invariant
            k <= vis@.len(),
            forall|q: int| 0 <= q < vis@.len() ==> #[trigger] vis@[q] < row@.len(),
            r.deep_view() =~= pick(row.deep_view(), vis@.map_values(|i: usize| i as int)).take(k as int),
        decreases vis@.len() - k,
    {
        let ghost prev = r.deep_view();
        let c = row[vis[k]].clone();
        r.push(c);
        assert(r.deep_view() =~= prev.push(row@[vis@[k as int] as int]@));
        k = k + 1;
    }
    assert(pick(row.deep_view(), vis@.map_values(|i: usize| i as int)).take(k as int) =~= pick(
        row.deep_view(),
        vis@.map_values(|i: usize| i as int),
    ));
    r
}

/// The position of the first `_rid` column.
fn rid_index(columns: &Vec<String>) -> (r: Option<usize>)
    ensures
        match r {
            Some(j) => rid_position(columns.deep_view(), 0) == Some(j as int) && j < columns@.len(),
            None => rid_position(columns.deep_view(), 0) is None,
        },
{
    let ghost cols = columns.deep_view();
    let rid = chars_of("_rid");
    let mut i: usize = 0;
    while i < columns.len()
        invariant
            i <= columns@.len(),
            cols == columns.deep_view(),
            rid@ == "_rid"@,
            rid_position(cols, 0) == rid_position(cols, i as int),
        decreases columns@.len() - i,
    {
        let c = chars_of(columns[i].as_str());
        if chars_eq(&c, &rid) {
            return Some(i);
        }
        i = i + 1;
    }
    None
}

/// The grid of a query result: its columns but `_rid` and `__ord`, and for
/// each row the id in its `_rid` cell with its visible cells.
pub fn grid_of(res: &crate::xmldoc::QueryResult) -> (g: Grid)
    requires
        forall|k: int| 0 <= k < res.rows@.len() ==> (#[trigger] res.rows@[k])@.len() >= res.columns@.len(),
    ensures
        ({
            let cols = res.columns.deep_view();
            let vis = crate::csv::visible(cols);
            &&& g.columns.deep_view() == pick(cols, vis)
            &&& g.rows@.len() == res.rows@.len()
            &&& forall|k: int|
                0 <= k < g.rows@.len() ==> (#[trigger] g.rows@[k]).0 == grid_rowid(
                    res.rows@[k].deep_view(),
                    rid_position(cols, 0),
                ) && g.rows@[k].1.deep_view() == pick(res.rows@[k].deep_view(), vis)
        }),
{
    let ghost cols = res.columns.deep_view();
    let vis = crate::csv::visible_exec(&res.columns);
    let ghost vi = vis@.map_values(|i: usize| i as int);
    let rid_at = rid_index(&res.columns);
    let ghost rp = rid_position(cols, 0);
    let columns = pick_exec(&res.columns, &vis);
    let mut rows: Vec<(i64, Vec<String>)> = Vec::new();
    let mut k: usize = 0;
    while k < res.rows.len()
        invariant
            k <= res.rows@.len(),
            cols == res.columns.deep_view(),
            vi == vis@.map_values(|i: usize| i as int),
            vi == crate::csv::visible(cols),
            forall|q: int| 0 <= q < vis@.len() ==> #[trigger] vis@[q] < cols.len(),
            forall|q: int| 0 <= q < res.rows@.len() ==> (#[trigger] res.rows@[q])@.len() >= res.columns@.len(),
            rid_at matches Some(j) ==> rp == Some(j as int),
            rid_at is None ==> rp is None,
            rp == rid_position(cols, 0),
            rows@.len() == k,
            forall|q: int|
                0 <= q < k ==> (#[trigger] rows@[q]).0 == grid_rowid(res.rows@[q].deep_view(), rp)
                    && rows@[q].1.deep_view() == pick(res.rows@[q].deep_view(), vi),
        decreases res.rows@.len() - k,
    {
        let row = &res.rows[k];
        let id: i64 = match rid_at {
            Some(j) => if j < row.len() {
                match parse_i64(row[j].as_str()) {
                    Some(v) => v,
                    None => -1,
                }
            } else {
                -1
            },
            None => -1,
        };
        let cells = pick_exec(row, &vis);
        rows.push((id, cells));
        k = k + 1;
    }
    Grid { columns, rows }
}

/// The position of the row with id `rowid` among `rowids`.
pub fn row_position(rowids: &Vec<i64>, rowid: i64) -> (r: Option<usize>)
    ensures
        match r {
            Some(i) => i < rowids@.len() && rowids@[i as int] == rowid && forall|j: int|
                0 <= j < i ==> #[trigger] rowids@[j] != rowid,
            None => forall|j: int| 0 <= j < rowids@.len() ==> #[trigger] rowids@[j] != rowid,
        },
{
    let mut i: usize = 0;
    while i < rowids.len()
        invariant
            i <= rowids@.len(),
            forall|j: int| 0 <= j < i ==> #[trigger] rowids@[j] != rowid,
        decreases rowids@.len() - i,
    {
        if rowids[i] == rowid {
            return Some(i);
        }
        i = i + 1;
    }
    None
}

/// Where a selection lands when moved by `delta` in a list whose last index
/// is `last`: kept at 0 or above, then at `last` or below.
pub open spec fn moved_index(current: int, delta: int, last: int) -> int {
    let i = current + delta;
    let i = if i < 0 {
        0
    } else {
        i
    };
    if i > last {
        last
    } else {
        i
    }
}

/// The index a list selection moves to.
pub fn clamp_selection(current: i32, delta: i32, last: i32) -> (r: i32)
    ensures
        r == moved_index(current as int, delta as int, last as int),
{
    let mut i: i64 = current as i64 + delta as i64;
    if i < 0 {
        i = 0;
    }
    if i > last as i64 {
        i = last as i64;
    }
    i as i32
}

// ------------------------------------------------------------ status texts

/// The status line of a table view: the row count, and the filter when one
/// is set.
pub open spec fn filter_status_text(n: nat, filter: Seq<char>) -> Seq<char> {
    "Total: "@ + dec(n) + if trim(filter).len() == 0 {
        Seq::empty()
    } else {
        "  \u{b7}  filtro: "@ + filter
    }
}

/// The status line after a free SQL query.
pub open spec fn sql_status_text(n: nat, sql: Seq<char>) -> Seq<char> {
    "Total: "@ + dec(n) + "  \u{b7}  SQL (somente leitura): "@ + sql
}

/// The status line of a table view showing `n` rows under `filter`.
pub fn filter_status(n: usize, filter: &str) -> (r: String)
    ensures
        r@ == filter_status_text(n as nat, filter@),
{
    let mut out: Vec<char> = Vec::new();
    push_str(&mut out, "Total: ");
    push_chars(&mut out, &fmt_u64(n as u64));
    let f = chars_of(filter);
    if trim_chars(&f).len() != 0 {
        push_str(&mut out, "  \u{b7}  filtro: ");
        push_chars(&mut out, &f);
    }
    proof {
        if trim(filter@).len() == 0 {
            assert(out@ =~= filter_status_text(n as nat, filter@));
        } else {
            assert(out@ =~= filter_status_text(n as nat, filter@));
        }
    }
    string_of(&out)
}

/// The status line after a free SQL query that gave `n` rows.
pub fn sql_status(n: usize, sql: &str) -> (r: String)
    ensures
        r@ == sql_status_text(n as nat, sql@),
{
    let mut out: Vec<char> = Vec::new();
    push_str(&mut out, "Total: ");
    push_chars(&mut out, &fmt_u64(n as u64));
    push_str(&mut out, "  \u{b7}  SQL (somente leitura): ");
    push_str(&mut out, sql);
    assert(out@ =~= sql_status_text(n as nat, sql@));
    string_of(&out)
}

// -------------------------------------------------------------- new columns

/// The name of the `n`-th column made by the editor: `coluna` and `n`.
pub open spec fn column_name(n: nat) -> Seq<char> {
    "coluna"@ + dec(n)
}

/// The name a new column gets among `existing`: `colunaN` for the least `N`
/// past the number of columns that no column is named.
pub open spec fn new_column_number(existing: Seq<Seq<char>>, n: nat) -> bool {
    &&& n >= existing.len() + 1
    &&& !existing.contains(column_name(n))
    &&& forall|m: nat| existing.len() + 1 <= m < n ==> existing.contains(#[trigger] column_name(m))
}

/// Whether `s` names a made column numbered `n` or more.
pub open spec fn named_from(s: Seq<char>, n: nat) -> bool {
    exists|k: nat| k >= n && s == #[trigger] column_name(k)
}

pub open spec fn count_named_from(ex: Seq<Seq<char>>, n: nat) -> nat
    decreases ex.len(),
{
    if ex.len() == 0 {
        0
    } else {
        count_named_from(ex.drop_last(), n) + if named_from(ex.last(), n) {
            1nat
        } else {
            0nat
        }
    }
}

proof fn lemma_dec_len(n: nat)
    ensures
        dec(n).len() >= 1,
        n >= 10 ==> dec(n).len() >= 2,
    decreases n,
{
    if n >= 10 {
        lemma_dec_len(n / 10);
    }
}

proof fn lemma_dec_injective(a: nat, b: nat)
    requires
        dec(a) == dec(b),
    ensures
        a == b,
    decreases a,
{
    lemma_dec_len(a);
    lemma_dec_len(b);
    if a < 10 && b < 10 {
        assert(dec(a)[0] == dec(b)[0]);
        assert(dec(a)[0] == crate::text::digit(a));
        assert(dec(b)[0] == crate::text::digit(b));
        assert(crate::text::digit(a) as u32 == 48 + a);
        assert(crate::text::digit(b) as u32 == 48 + b);
        assert(a == b);
    } else if a >= 10 && b >= 10 {
        assert(dec(a).last() == dec(b).last());
        assert(dec(a).last() == crate::text::digit(a % 10));
        assert(dec(b).last() == crate::text::digit(b % 10));
        assert(crate::text::digit(a % 10) as u32 == 48 + a % 10);
        assert(crate::text::digit(b % 10) as u32 == 48 + b % 10);
        assert(dec(a).drop_last() =~= dec(a / 10));
        assert(dec(b).drop_last() =~= dec(b / 10));
        lemma_dec_injective(a / 10, b / 10);
        assert(a % 10 == b % 10);
        assert(a / 10 == b / 10);
        assert(a == (a / 10) * 10 + a % 10);
        assert(b == (b / 10) * 10 + b % 10);
    } else {
        assert(dec(a).len() != dec(b).len());
    }
}

proof fn lemma_column_name_injective(a: nat, b: nat)
    requires
        column_name(a) == column_name(b),
    ensures
        a == b,
{
    reveal_strlit("coluna");
    assert(column_name(a).skip(6) =~= dec(a));
    assert(column_name(b).skip(6) =~= dec(b));
    lemma_dec_injective(a, b);
}

proof fn lemma_count_bound(ex: Seq<Seq<char>>, n: nat)
    ensures
        count_named_from(ex, n) <= ex.len(),
    decreases ex.len(),
{
    if ex.len() > 0 {
        lemma_count_bound(ex.drop_last(), n);
    }
}

/// Passing over a taken number leaves one name fewer to count.
proof fn lemma_count_step(ex: Seq<Seq<char>>, n: nat)
    ensures
        count_named_from(ex, n + 1) + (if ex.contains(column_name(n)) {
            1int
        } else {
            0int
        }) <= count_named_from(ex, n),
    decreases ex.len(),
{
    if ex.len() > 0 {
        let s = ex.last();
        let p = ex.drop_last();
        lemma_count_step(p, n);
        if named_from(s, (n + 1) as nat) {
            let k = choose|k: nat| k >= n + 1 && s == #[trigger] column_name(k);
            assert(named_from(s, n));
            if s == column_name(n) {
                lemma_column_name_injective(n, k);
            }
        }
        if s == column_name(n) {
            assert(named_from(s, n));
        }
        if ex.contains(column_name(n)) && s != column_name(n) {
            let i = choose|i: int| 0 <= i < ex.len() && ex[i] == column_name(n);
            assert(p[i] == ex[i]);
        }
        if p.contains(column_name(n)) {
            let i = choose|i: int| 0 <= i < p.len() && p[i] == column_name(n);
            assert(ex[i] == p[i]);
        }
    }
}

/// The name for a column added to a grid whose columns are `existing`:
/// `colunaN`, with `N` the least number past the number of columns that
/// no column is named.
pub fn next_column_name(existing: &Vec<String>) -> (r: String)
    requires
        existing@.len() < 0x4000_0000_0000_0000,
    ensures
        exists|n: nat| new_column_number(existing.deep_view(), n) && r@ == column_name(n),
{
    let ghost ex = existing.deep_view();
    let len = existing.len() as u64;
    let mut n: u64 = len + 1;
    proof {
        lemma_count_bound(ex, n as nat);
    }
    loop
        invariant
            ex == existing.deep_view(),
            len == ex.len(),
            len < 0x4000_0000_0000_0000,
            len + 1 <= n,
            n - (len + 1) + count_named_from(ex, n as nat) <= len,
            forall|m: nat| len + 1 <= m < n ==> ex.contains(#[trigger] column_name(m)),
        decreases 2 * len + 2 - n,
    {
        let mut name: Vec<char> = chars_of("coluna");
        push_chars(&mut name, &fmt_u64(n));
        assert(name@ == column_name(n as nat));
        let mut taken = false;
        let mut i: usize = 0;
        while i < existing.len()
            invariant
                i <= existing@.len(),
                ex == existing.deep_view(),
                name@ == column_name(n as nat),
                taken == ex.take(i as int).contains(name@),
            decreases existing@.len() - i,
        {
            let e = chars_of(existing[i].as_str());
            proof {
                assert(ex.take(i + 1) =~= ex.take(i as int).push(ex[i as int]));
            }
            if chars_eq(&e, &name) {
                taken = true;
            }
            proof {
                let t = ex.take(i + 1);
                if taken {
                    if t.last() != name@ {
                        let j = choose|j: int| 0 <= j < i && ex.take(i as int)[j] == name@;
                        assert(t[j] == name@);
                    }
                    assert(t[i as int] == ex[i as int]);
                } else {
                    assert forall|j: int| 0 <= j < t.len() implies t[j] != name@ by {
                        if j < i {
                            assert(ex.take(i as int)[j] == t[j]);
                        }
                    }
                }
            }
            i = i + 1;
        }
        assert(ex.take(i as int) =~= ex);
        if !taken {
            let r = string_of(&name);
            assert(new_column_number(ex, n as nat));
            return r;
        }
        proof {
            lemma_count_step(ex, n as nat);
        }
        n = n + 1;
    }
}

} // verus!
