//! Numbers in the Brazilian notation (`1.234,56`): how a sum is shown, and
//! which texts a cell's number is read from.

use vstd::prelude::*;
use crate::chars::{chars_of, push_chars, string_of};
use crate::text::{trim, trim_chars};

verus! {

/// The digits of an integer part in groups of three from the right,
/// separated by `.`.
pub open spec fn group_digits(s: Seq<char>) -> Seq<char>
    decreases s.len(),
{
    if s.len() <= 3 {
        s
    } else {
        group_digits(s.take(s.len() - 3)) + seq!['.'] + s.skip(s.len() - 3)
    }
}

/// The first position of `c` in `s`.
pub open spec fn first_of(s: Seq<char>, c: char, i: int) -> Option<int>
    decreases s.len() - i,
{
    if i < 0 || i >= s.len() {
        None
    } else if s[i] == c {
        Some(i)
    } else {
        first_of(s, c, i + 1)
    }
}

/// A number in Brazilian notation from its fixed-point text with two
/// decimals (`1234.50`): a `-` when negative, the integer part grouped by
/// thousands with `.`, a `,` and the decimals (`00` when the text has no
/// `.`).
pub open spec fn br_text(negative: bool, fixed: Seq<char>) -> Seq<char> {
    let (int_part, dec_part) = match first_of(fixed, '.', 0) {
        Some(i) => (fixed.take(i), fixed.skip(i + 1)),
        None => (fixed, seq!['0', '0']),
    };
    (if negative {
        seq!['-']
    } else {
        Seq::empty()
    }) + group_digits(int_part) + seq![','] + dec_part
}

fn first_of_exec(s: &[char], c: char) -> (r: Option<usize>)
    ensures
        match r {
            Some(i) => first_of(s@, c, 0) == Some(i as int) && i < s@.len(),
            None => first_of(s@, c, 0) is None,
        },
{
    let mut i: usize = 0;
    while i < s.len()
        invariant
            i <= s@.len(),
            first_of(s@, c, 0) == first_of(s@, c, i as int),
        decreases s@.len() - i,
    {
        if s[i] == c {
            return Some(i);
        }
        i = i + 1;
    }
    None
}

proof fn lemma_group_step(s: Seq<char>, k: int)
    requires
        0 < k,
        k + 3 <= s.len(),
    ensures
        group_digits(s.take(k + 3)) == group_digits(s.take(k)) + seq!['.'] + s.subrange(k, k + 3),
{
    let t = s.take(k + 3);
    assert(t.take(t.len() - 3) =~= s.take(k));
    assert(t.skip(t.len() - 3) =~= s.subrange(k, k + 3));
}

/// Appends the digits of `s` grouped by thousands.
fn group_into(out: &mut Vec<char>, s: &[char])
    ensures
        final(out)@ == old(out)@ + group_digits(s@),
{
    let n = s.len();
    let head: usize = if n % 3 == 0 {
        if n == 0 {
            0
        } else {
            3
        }
    } else {
        n % 3
    };
    let mut k: usize = 0;
    while k < head
        invariant
            k <= head <= n,
            head <= 3,
            n == s@.len(),
            out@ =~= old(out)@ + s@.take(k as int),
        decreases head - k,
    {
        out.push(s[k]);
        k = k + 1;
    }
    assert(group_digits(s@.take(head as int)) == s@.take(head as int));
    while k < n
        invariant
            head <= k <= n,
            n == s@.len(),
            (n - k) % 3 == 0,
            k > 0 || n == 0,
            out@ == old(out)@ + group_digits(s@.take(k as int)),
        decreases n - k,
    {
        proof {
            lemma_group_step(s@, k as int);
        }
        out.push('.');
        out.push(s[k]);
        out.push(s[k + 1]);
        out.push(s[k + 2]);
        assert(out@ =~= old(out)@ + group_digits(s@.take(k as int)) + seq!['.'] + s@.subrange(
            k as int,
            k + 3,
        ));
        k = k + 3;
    }
    assert(s@.take(k as int) =~= s@);
}

/// A sum as shown to the user, from the two-decimal text of its absolute
/// value and its sign.
pub fn br_number(negative: bool, fixed: &str) -> (r: String)
    ensures
        r@ == br_text(negative, fixed@),
{
    let f = chars_of(fixed);
    let mut int_part: Vec<char> = Vec::new();
    let mut dec_part: Vec<char> = Vec::new();
    match first_of_exec(&f, '.') {
        Some(i) => {
            let mut k: usize = 0;
            while k < f.len()
                invariant
                    i < f@.len(),
                    k <= f@.len(),
                    int_part@ =~= f@.take(if k <= i { k as int } else { i as int }),
                    dec_part@ =~= if k <= i + 1 { Seq::<char>::empty() } else { f@.subrange(i + 1, k as int) },
                decreases f@.len() - k,
            {
                if k < i {
                    int_part.push(f[k]);
                } else if k > i {
                    dec_part.push(f[k]);
                }
                k = k + 1;
            }
            assert(dec_part@ =~= f@.skip(i + 1));
        },
        None => {
            push_chars(&mut int_part, &f);
            dec_part.push('0');
            dec_part.push('0');
        },
    }
    let mut out: Vec<char> = Vec::new();
    if negative {
        out.push('-');
    }
    group_into(&mut out, &int_part);
    out.push(',');
    push_chars(&mut out, &dec_part);
    assert(out@ =~= br_text(negative, fixed@));
    string_of(&out)
}

/// A text in Brazilian notation made plain: thousands separators `.`
/// dropped and the decimal `,` turned into `.`.
pub open spec fn br_plain(s: Seq<char>) -> Seq<char>
    decreases s.len(),
{
    if s.len() == 0 {
        Seq::empty()
    } else {
        br_plain(s.drop_last()) + if s.last() == '.' {
            Seq::empty()
        } else if s.last() == ',' {
            seq!['.']
        } else {
            seq![s.last()]
        }
    }
}

/// The texts a cell's number is read from, in order: the trimmed text as
/// it stands, then in Brazilian notation made plain; none for a blank cell.
pub open spec fn number_texts(s: Seq<char>) -> Seq<Seq<char>> {
    let t = trim(s);
    if t.len() == 0 {
        Seq::empty()
    } else {
        seq![t, br_plain(t)]
    }
}

/// The texts to read a cell's number from.
pub fn number_candidates(s: &str) -> (r: Vec<String>)
    ensures
        r.deep_view() == number_texts(s@),
{
    let t = trim_chars(&chars_of(s));
    let mut out: Vec<String> = Vec::new();
    if t.len() == 0 {
        assert(out.deep_view() =~= number_texts(s@));
        return out;
    }
    let mut plain: Vec<char> = Vec::new();
    let mut k: usize = 0;
    while k < t.len()
        invariant
            k <= t@.len(),
            plain@ == br_plain(t@.take(k as int)),
        decreases t@.len() - k,
    {
        let c = t[k];
        if c == ',' {
            plain.push('.');
        } else if c != '.' {
            plain.push(c);
        }
        proof {
            assert(t@.take(k + 1).drop_last() =~= t@.take(k as int));
            assert(plain@ =~= br_plain(t@.take(k + 1)));
        }
        k = k + 1;
    }
    assert(t@.take(k as int) =~= t@);
    let a = string_of(&t);
    let b = string_of(&plain);
    out.push(a);
    out.push(b);
    assert(out.deep_view() =~= number_texts(s@));
    out
}

proof fn lemma_br_plain_concat(a: Seq<char>, b: Seq<char>)
    ensures
        br_plain(a + b) == br_plain(a) + br_plain(b),
    decreases b.len(),
{
    if b.len() == 0 {
        assert(a + b =~= a);
        assert(br_plain(a) + br_plain(b) =~= br_plain(a));
    } else {
        assert((a + b).drop_last() =~= a + b.drop_last());
        lemma_br_plain_concat(a, b.drop_last());
        assert(br_plain(a) + br_plain(b.drop_last()) + (if b.last() == '.' {
            Seq::empty()
        } else if b.last() == ',' {
            seq!['.']
        } else {
            seq![b.last()]
        }) =~= br_plain(a) + br_plain(b));
    }
}

/// Text with no `.` and no `,`.
pub open spec fn no_separators(s: Seq<char>) -> bool {
    forall|i: int| 0 <= i < s.len() ==> #[trigger] s[i] != '.' && s[i] != ','
}

proof fn lemma_br_plain_plain(s: Seq<char>)
    requires
        no_separators(s),
    ensures
        br_plain(s) == s,
    decreases s.len(),
{
    if s.len() > 0 {
        assert(no_separators(s.drop_last())) by {
            assert forall|i: int| 0 <= i < s.drop_last().len() implies #[trigger] s.drop_last()[i]
                != '.' && s.drop_last()[i] != ',' by {
                assert(s.drop_last()[i] == s[i]);
            }
        }
        lemma_br_plain_plain(s.drop_last());
        assert(s[s.len() - 1] == s.last());
        assert(s.drop_last().push(s.last()) =~= s);
    }
}

proof fn lemma_br_plain_grouped(s: Seq<char>)
    requires
        no_separators(s),
    ensures
        br_plain(group_digits(s)) == s,
    decreases s.len(),
{
    if s.len() <= 3 {
        lemma_br_plain_plain(s);
    } else {
        let head = s.take(s.len() - 3);
        let tail = s.skip(s.len() - 3);
        assert(no_separators(head)) by {
            assert forall|i: int| 0 <= i < head.len() implies #[trigger] head[i] != '.' && head[i] != ',' by {
                assert(head[i] == s[i]);
            }
        }
        assert(no_separators(tail)) by {
            assert forall|i: int| 0 <= i < tail.len() implies #[trigger] tail[i] != '.' && tail[i] != ',' by {
                assert(tail[i] == s[i + s.len() - 3]);
            }
        }
        lemma_br_plain_grouped(head);
        lemma_br_plain_plain(tail);
        lemma_br_plain_concat(group_digits(head), seq!['.']);
        lemma_br_plain_concat(group_digits(head) + seq!['.'], tail);
        assert(br_plain(seq!['.']) =~= Seq::<char>::empty()) by {
            assert(seq!['.'].drop_last() =~= Seq::<char>::empty());
            assert(seq!['.'].last() == '.');
            assert(br_plain(Seq::<char>::empty()) == Seq::<char>::empty());
        }
        assert(head + tail =~= s);
    }
}

/// A number shown in Brazilian notation reads back, made plain, as the
/// fixed-point text it was shown from (with its sign), when that text has
/// one `.` between its integer part and its decimals and no `,`.
pub proof fn law_br_reads_back(negative: bool, int_part: Seq<char>, decimals: Seq<char>)
    requires
        no_separators(int_part),
        no_separators(decimals),
    ensures
        br_plain(br_text(negative, int_part + seq!['.'] + decimals)) == (if negative {
            seq!['-']
        } else {
            Seq::empty()
        }) + int_part + seq!['.'] + decimals,
{
    let fixed = int_part + seq!['.'] + decimals;
    assert(first_of(fixed, '.', 0) == Some(int_part.len() as int)) by {
        lemma_first_of_at(fixed, int_part.len() as int, 0);
    }
    assert(fixed.take(int_part.len() as int) =~= int_part);
    assert(fixed.skip(int_part.len() as int + 1) =~= decimals);
    let sign: Seq<char> = if negative {
        seq!['-']
    } else {
        Seq::empty()
    };
    lemma_br_plain_grouped(int_part);
    lemma_br_plain_plain(decimals);
    lemma_br_plain_concat(sign, group_digits(int_part));
    lemma_br_plain_concat(sign + group_digits(int_part), seq![',']);
    lemma_br_plain_concat(sign + group_digits(int_part) + seq![','], decimals);
    assert(br_plain(seq![',']) =~= seq!['.']) by {
        assert(seq![','].drop_last() =~= Seq::<char>::empty());
            assert(seq![','].last() == ',');
            assert(br_plain(Seq::<char>::empty()) == Seq::<char>::empty());
    }
    if negative {
        assert(br_plain(seq!['-']) =~= seq!['-']) by {
            assert(seq!['-'].drop_last() =~= Seq::<char>::empty());
            assert(seq!['-'].last() == '-');
            assert(br_plain(Seq::<char>::empty()) == Seq::<char>::empty());
        }
    }
    assert(br_plain(sign) == sign);
}

proof fn lemma_first_of_at(s: Seq<char>, n: int, i: int)
    requires
        0 <= i <= n < s.len(),
        s[n] == '.',
        forall|j: int| i <= j < n ==> #[trigger] s[j] != '.',
    ensures
        first_of(s, '.', i) == Some(n),
    decreases n - i,
{
    if i < n {
        lemma_first_of_at(s, n, i + 1);
    }
}

} // verus!
