//! Finding the parts of a document that are written back verbatim: the
//! `<DATAPACKET ...>` opening tag and the `<PARAMS>` section.

use vstd::prelude::*;
use crate::text::is_ws;

verus! {

/// Whether `pat` occurs in `s` at position `i`.
pub open spec fn occurs_at(s: Seq<char>, pat: Seq<char>, i: int) -> bool {
    0 <= i && i + pat.len() <= s.len() && s.subrange(i, i + pat.len()) == pat
}

/// The first position at or after `from` where `pat` occurs (as `str::find`).
pub open spec fn find_from(s: Seq<char>, pat: Seq<char>, from: int) -> Option<int>
    decreases s.len() + 1 - from,
{
    if from < 0 || from > s.len() {
        None
    } else if occurs_at(s, pat, from) {
        Some(from)
    } else {
        find_from(s, pat, from + 1)
    }
}

/// A character that may follow a tag name.
pub open spec fn ends_tag_name(c: char) -> bool {
    is_ws(c) || c == '>' || c == '/'
}

/// Whether the tag name `open` (`<` and a name) stands at `i`: it occurs
/// there and is followed by a space, `>` or `/`.
pub open spec fn tag_at(s: Seq<char>, open: Seq<char>, i: int) -> bool {
    &&& occurs_at(s, open, i)
    &&& i + open.len() < s.len()
    &&& ends_tag_name(s[i + open.len()])
}

/// The first position at or after `from` where the tag name `open` stands.
pub open spec fn find_tag(s: Seq<char>, open: Seq<char>, from: int) -> Option<int>
    decreases s.len() + 1 - from,
{
    if from < 0 || from > s.len() {
        None
    } else if tag_at(s, open, from) {
        Some(from)
    } else {
        find_tag(s, open, from + 1)
    }
}

/// The opening tag `<DATAPACKET ...>`: from the first `<DATAPACKET` followed
/// by a space, `>` or `/`, up to and including the next `>`.
pub open spec fn open_tag_of(s: Seq<char>, tag: Seq<char>) -> Option<Seq<char>> {
    let open = seq!['<'] + tag;
    match find_tag(s, open, 0) {
        None => None,
        Some(start) => match find_from(s, seq!['>'], start) {
            None => None,
            Some(end) => Some(s.subrange(start, end + 1)),
        },
    }
}

/// The `<PARAMS .../>` element or the `<PARAMS ...>...</PARAMS>` section,
/// from the first `<PARAMS` followed by a space, `>` or `/`.
pub open spec fn params_of(s: Seq<char>) -> Option<Seq<char>> {
    let open = "<PARAMS"@;
    match find_tag(s, open, 0) {
        None => None,
        Some(start) => match find_from(s, seq!['>'], start) {
            None => None,
            Some(end) => if s[end - 1] == '/' {
                Some(s.subrange(start, end + 1))
            } else {
                match find_from(s, "</PARAMS>"@, end) {
                    None => None,
                    Some(close) => Some(s.subrange(start, close + 9)),
                }
            },
        },
    }
}

/// Whether `pat` occurs in `s` at `i`.
fn occurs_at_exec(s: &[char], pat: &[char], i: usize) -> (r: bool)
    ensures
        r == occurs_at(s@, pat@, i as int),
{
    if i > s.len() || pat.len() > s.len() - i {
        return false;
    }
    let mut k: usize = 0;
    while k < pat.len()
        invariant
            i + pat@.len() <= s.len(),
            k <= pat@.len(),
            forall|j: int| 0 <= j < k ==> s@[i + j] == pat@[j],
        decreases pat@.len() - k,
    {
        if s[i + k] != pat[k] {
            assert(s@.subrange(i as int, i + pat@.len())[k as int] != pat@[k as int]);
            return false;
        }
        k = k + 1;
    }
    assert(s@.subrange(i as int, i + pat@.len()) =~= pat@);
    true
}

/// The first position at or after `from` where `pat` occurs.
pub fn find_from_exec(s: &[char], pat: &[char], from: usize) -> (r: Option<usize>)
    ensures
        match r {
            Some(i) => find_from(s@, pat@, from as int) == Some(i as int) && from <= i && i
                + pat@.len() <= s@.len() && occurs_at(s@, pat@, i as int),
            None => find_from(s@, pat@, from as int) is None,
        },
{
    if from > s.len() {
        return None;
    }
    let mut i: usize = from;
    while i < s.len()
        invariant
            from <= i <= s@.len(),
            find_from(s@, pat@, from as int) == find_from(s@, pat@, i as int),
        decreases s@.len() - i,
    {
        if occurs_at_exec(s, pat, i) {
            return Some(i);
        }
        i = i + 1;
    }
    if occurs_at_exec(s, pat, i) {
        return Some(i);
    }
    assert(find_from(s@, pat@, i + 1) is None);
    None
}

fn ends_tag_name_exec(c: char) -> (r: bool)
    ensures
        r == ends_tag_name(c),
{
    crate::text::is_ws_char(c) || c == '>' || c == '/'
}

/// The first position at or after `from` where the tag name `open` stands.
pub fn find_tag_exec(s: &[char], open: &[char], from: usize) -> (r: Option<usize>)
    ensures
        match r {
            Some(i) => find_tag(s@, open@, from as int) == Some(i as int) && from <= i && tag_at(
                s@,
                open@,
                i as int,
            ),
            None => find_tag(s@, open@, from as int) is None,
        },
{
    if from > s.len() {
        return None;
    }
    let mut i: usize = from;
    while i < s.len()
        invariant
            from <= i <= s@.len(),
            find_tag(s@, open@, from as int) == find_tag(s@, open@, i as int),
        decreases s@.len() + 1 - i,
    {
        if occurs_at_exec(s, open, i) && open.len() < s.len() - i && ends_tag_name_exec(
            s[i + open.len()],
        ) {
            return Some(i);
        }
        i = i + 1;
    }
    assert(!tag_at(s@, open@, i as int));
    assert(find_tag(s@, open@, i + 1) is None);
    None
}

/// The opening tag of `tag` in `s`.
pub fn open_tag_exec(s: &[char], tag: &[char]) -> (r: Option<Vec<char>>)
    ensures
        match r {
            Some(t) => open_tag_of(s@, tag@) == Some(t@),
            None => open_tag_of(s@, tag@) is None,
        },
{
    let mut open: Vec<char> = Vec::new();
    open.push('<');
    crate::chars::push_chars(&mut open, tag);
    assert(open@ =~= seq!['<'] + tag@);
    let start = match find_tag_exec(s, &open, 0) {
        None => {
            return None;
        },
        Some(i) => i,
    };
    let gt: Vec<char> = vec!['>'];
    assert(gt@ =~= seq!['>']);
    let end = match find_from_exec(s, &gt, start) {
        None => {
            return None;
        },
        Some(e) => e,
    };
    let mut t: Vec<char> = Vec::new();
    let mut k: usize = start;
    while k <= end
        invariant
            start <= k <= end + 1,
            end < s@.len(),
            t@ =~= s@.subrange(start as int, k as int),
        decreases end + 1 - k,
    {
        t.push(s[k]);
        k = k + 1;
    }
    Some(t)
}

/// The `PARAMS` section of `s`.
pub fn params_exec(s: &[char]) -> (r: Option<Vec<char>>)
    ensures
        match r {
            Some(t) => params_of(s@) == Some(t@),
            None => params_of(s@) is None,
        },
{
    let open = crate::chars::chars_of("<PARAMS");
    let close = crate::chars::chars_of("</PARAMS>");
    proof {
        reveal_strlit("</PARAMS>");
        reveal_strlit("<PARAMS");
    }
    let start = match find_tag_exec(s, &open, 0) {
        None => {
            return None;
        },
        Some(i) => i,
    };
    let gt: Vec<char> = vec!['>'];
    assert(gt@ =~= seq!['>']);
    let end = match find_from_exec(s, &gt, start) {
        None => {
            return None;
        },
        Some(e) => e,
    };
    proof {
        assert(end > start) by {
            assert(s@.subrange(start as int, start + open@.len())[0] == open@[0]);
            assert(s@[start as int] == '<');
            assert(occurs_at(s@, gt@, end as int));
            assert(s@.subrange(end as int, end + 1)[0] == '>');
        }
    }
    let stop = if s[end - 1] == '/' {
        end + 1
    } else {
        let c = match find_from_exec(s, &close, end) {
            None => {
                return None;
            },
            Some(c) => c,
        };
        c + 9
    };
    let mut t: Vec<char> = Vec::new();
    let mut k: usize = start;
    while k < stop
        invariant
            start <= k <= stop,
            stop <= s@.len(),
            t@ =~= s@.subrange(start as int, k as int),
        decreases stop - k,
    {
        t.push(s[k]);
        k = k + 1;
    }
    Some(t)
}

} // verus!
