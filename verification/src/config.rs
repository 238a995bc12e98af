//! The application's preferences (theme and language) and their
//! `key=value` text form.

use vstd::prelude::*;
use crate::chars::{chars_of, chars_eq, string_of};
use crate::frame::{find_from, find_from_exec, occurs_at};
use crate::text::{is_ws, trim, trim_start, trim_end, trim_chars};

verus! {

/// The saved preferences.
#[derive(Clone)]
pub struct Config {
    /// `system`, `light` or `dark`.
    pub theme: String,
    /// A language code (`pt` or `en`).
    pub lang: String,
}

pub struct ConfigV {
    pub theme: Seq<char>,
    pub lang: Seq<char>,
}

impl View for Config {
    type V = ConfigV;

    open spec fn view(&self) -> ConfigV {
        ConfigV { theme: self.theme@, lang: self.lang@ }
    }
}

pub open spec fn default_config() -> ConfigV {
    ConfigV { theme: "system"@, lang: "pt"@ }
}

impl Default for Config {
    fn default() -> (c: Config)
        ensures
            c@ == default_config(),
    {
        Config { theme: String::from_str("system"), lang: String::from_str("pt") }
    }
}

/// What one line of the file does to the preferences: a line
/// `theme = v` or `lang = v` (spaces around key and value ignored) sets
/// that preference; blank lines, `#` comments and anything else change
/// nothing.
pub open spec fn apply_line(c: ConfigV, line: Seq<char>) -> ConfigV {
    let t = trim(line);
    if t.len() == 0 || t[0] == '#' {
        c
    } else {
        match find_from(t, seq!['='], 0) {
            None => c,
            Some(i) => {
                let k = trim(t.take(i));
                let v = trim(t.skip(i + 1));
                if k == "theme"@ {
                    ConfigV { theme: v, lang: c.lang }
                } else if k == "lang"@ {
                    ConfigV { theme: c.theme, lang: v }
                } else {
                    c
                }
            },
        }
    }
}

/// Reading `s` from the start: the preferences after its complete lines,
/// and the line begun but not ended.
pub open spec fn scan(s: Seq<char>) -> (ConfigV, Seq<char>)
    decreases s.len(),
{
    if s.len() == 0 {
        (default_config(), Seq::empty())
    } else {
        let (c, cur) = scan(s.drop_last());
        if s.last() == '\n' {
            (apply_line(c, cur), Seq::empty())
        } else {
            (c, cur.push(s.last()))
        }
    }
}

/// The preferences that a file holds: the defaults, changed by each of
/// its lines in order.
pub open spec fn config_of(text: Seq<char>) -> ConfigV {
    let (c, cur) = scan(text);
    apply_line(c, cur)
}

/// The text of a file holding `c`.
pub open spec fn config_text(c: ConfigV) -> Seq<char> {
    "theme="@ + c.theme + "\n"@ + "lang="@ + c.lang + "\n"@
}

/// A value that reads back as written: one line, no surrounding spaces.
pub open spec fn clean_value(v: Seq<char>) -> bool {
    &&& forall|i: int| 0 <= i < v.len() ==> #[trigger] v[i] != '\n'
    &&& v.len() > 0 ==> !is_ws(v[0]) && !is_ws(v.last())
}

/// A colour scheme: the desktop's, or a forced light or dark one.
#[derive(Clone, Copy, PartialEq, Eq, Structural, Debug)]
pub enum Scheme {
    System,
    Light,
    Dark,
}

/// Whether a theme value is one the application knows.
pub open spec fn known_theme(t: Seq<char>) -> bool {
    t == "system"@ || t == "light"@ || t == "dark"@
}

/// The theme in force: the one the environment names when it is known
/// (`system`, `light` or `dark`), else the saved one.
pub open spec fn theme_in_force(env: Option<Seq<char>>, saved: Seq<char>) -> Seq<char> {
    match env {
        Some(e) => if known_theme(e) {
            e
        } else {
            saved
        },
        None => saved,
    }
}

/// The scheme a theme asks for: `dark` and `light` force theirs; `system`,
/// and any value the application does not know, follow the desktop.
pub open spec fn scheme_of(theme: Seq<char>) -> Scheme {
    if theme == "dark"@ {
        Scheme::Dark
    } else if theme == "light"@ {
        Scheme::Light
    } else {
        Scheme::System
    }
}

/// The theme to apply at startup, from the environment's choice and the
/// saved preference.
pub fn chosen_theme(env: Option<&str>, saved: &str) -> (r: String)
    ensures
        r@ == theme_in_force(
            match env {
                Some(e) => Some(e@),
                None => None,
            },
            saved@,
        ),
{
    if let Some(e) = env {
        let c = chars_of(e);
        if chars_eq(&c, &chars_of("system")) || chars_eq(&c, &chars_of("light")) || chars_eq(
            &c,
            &chars_of("dark"),
        ) {
            return String::from_str(e);
        }
    }
    String::from_str(saved)
}

/// The colour scheme a theme asks for.
pub fn scheme_for(theme: &str) -> (r: Scheme)
    ensures
        r == scheme_of(theme@),
{
    let c = chars_of(theme);
    if chars_eq(&c, &chars_of("dark")) {
        Scheme::Dark
    } else if chars_eq(&c, &chars_of("light")) {
        Scheme::Light
    } else {
        Scheme::System
    }
}

/// Applies one line of the file to `c`.
fn apply_line_exec(c: &mut Config, line: &[char])
    ensures
        final(c)@ == apply_line(old(c)@, line@),
{
    let t = trim_chars(line);
    if t.len() == 0 || t[0] == '#' {
        return;
    }
    let eq: Vec<char> = vec!['='];
    assert(eq@ =~= seq!['=']);
    let i = match find_from_exec(&t, &eq, 0) {
        None => {
            return;
        },
        Some(i) => i,
    };
    let mut head: Vec<char> = Vec::new();
    let mut j: usize = 0;
    while j < i
        invariant
            j <= i < t@.len(),
            head@ =~= t@.take(j as int),
        decreases i - j,
    {
        head.push(t[j]);
        j = j + 1;
    }
    let mut tail: Vec<char> = Vec::new();
    let mut j: usize = i + 1;
    while j < t.len()
        invariant
            i + 1 <= j <= t@.len(),
            tail@ =~= t@.subrange(i + 1, j as int),
        decreases t@.len() - j,
    {
        tail.push(t[j]);
        j = j + 1;
    }
    assert(tail@ =~= t@.skip(i + 1));
    let k = trim_chars(&head);
    let v = trim_chars(&tail);
    let theme = chars_of("theme");
    let lang = chars_of("lang");
    if chars_eq(&k, &theme) {
        c.theme = string_of(&v);
    } else if chars_eq(&k, &lang) {
        c.lang = string_of(&v);
    }
}

/// The preferences that a file's text holds.
pub fn parse(text: &str) -> (c: Config)
    ensures
        c@ == config_of(text@),
{
    let t = chars_of(text);
    let mut c = Config::default();
    let mut cur: Vec<char> = Vec::new();
    let mut i: usize = 0;
    while i < t.len()
        invariant
            i <= t@.len(),
            t@ == text@,
            scan(t@.take(i as int)) == (c@, cur@),
        decreases t@.len() - i,
    {
        assert(t@.take(i + 1).drop_last() =~= t@.take(i as int));
        if t[i] == '\n' {
            apply_line_exec(&mut c, &cur);
            cur = Vec::new();
            assert(cur@ =~= Seq::<char>::empty());
        } else {
            cur.push(t[i]);
        }
        i = i + 1;
    }
    assert(t@.take(i as int) =~= t@);
    apply_line_exec(&mut c, &cur);
    c
}

/// The text of a file holding `c`.
pub fn render(c: &Config) -> (r: String)
    ensures
        r@ == config_text(c@),
{
    let mut out = String::from_str("theme=");
    out.append(c.theme.as_str());
    out.append("\n");
    out.append("lang=");
    out.append(c.lang.as_str());
    out.append("\n");
    out
}

proof fn lemma_scan_line(s: Seq<char>, line: Seq<char>, k: int)
    requires
        scan(s).1 == Seq::<char>::empty(),
        0 <= k <= line.len(),
        forall|i: int| 0 <= i < line.len() ==> #[trigger] line[i] != '\n',
    ensures
        scan(s + line.take(k)) == (scan(s).0, line.take(k)),
    decreases k,
{
    if k == 0 {
        assert(s + line.take(0) =~= s);
    } else {
        lemma_scan_line(s, line, k - 1);
        assert((s + line.take(k)).drop_last() =~= s + line.take(k - 1));
        assert(line.take(k - 1).push(line[k - 1]) =~= line.take(k));
    }
}

/// Reading `s` followed by a whole line applies that line.
proof fn lemma_scan_full_line(s: Seq<char>, line: Seq<char>)
    requires
        scan(s).1 == Seq::<char>::empty(),
        forall|i: int| 0 <= i < line.len() ==> #[trigger] line[i] != '\n',
    ensures
        scan(s + line + "\n"@) == (apply_line(scan(s).0, line), Seq::<char>::empty()),
{
    reveal_strlit("\n");
    lemma_scan_line(s, line, line.len() as int);
    assert(line.take(line.len() as int) =~= line);
    assert((s + line + "\n"@).drop_last() =~= s + line);
}

/// The line `key=v` sets the preference `key` to `v`.
proof fn lemma_apply_assignment(c: ConfigV, key: Seq<char>, v: Seq<char>)
    requires
        clean_value(v),
        key.len() > 0,
        !is_ws(key[0]),
        !is_ws(key.last()),
        key[0] != '#',
        forall|i: int| 0 <= i < key.len() ==> #[trigger] key[i] != '=',
    ensures
        apply_line(c, key + "="@ + v) == (if key == "theme"@ {
            ConfigV { theme: v, lang: c.lang }
        } else if key == "lang"@ {
            ConfigV { theme: c.theme, lang: v }
        } else {
            c
        }),
{
    reveal_strlit("=");
    let line = key + "="@ + v;
    assert(line[0] == key[0]);
    assert(trim_start(line) == line);
    if v.len() > 0 {
        assert(line.last() == v.last());
    } else {
        assert(line.last() == '=');
    }
    assert(trim_end(line) == line);
    assert(trim(line) == line);
    assert(occurs_at(line, seq!['='], key.len() as int)) by {
        assert(line.subrange(key.len() as int, key.len() as int + 1) =~= seq!['=']);
    }
    assert forall|j: int| 0 <= j < key.len() implies find_from(line, seq!['='], j) == Some(
        key.len() as int,
    ) by {
        lemma_find_first(line, key.len() as int, j);
    }
    assert(find_from(line, seq!['='], 0) == Some(key.len() as int));
    assert(line.take(key.len() as int) =~= key);
    assert(line.skip(key.len() as int + 1) =~= v);
    assert(trim_start(key) == key);
    assert(trim_end(key) == key);
    if v.len() > 0 {
        assert(trim_start(v) == v);
        assert(trim_end(v) == v);
    }
}

/// With no `=` in `line[j..n]` and one at `n`, the search from `j` stops at `n`.
proof fn lemma_find_first(line: Seq<char>, n: int, j: int)
    requires
        0 <= j <= n < line.len(),
        line[n] == '=',
        forall|i: int| j <= i < n ==> #[trigger] line[i] != '=',
    ensures
        find_from(line, seq!['='], j) == Some(n),
    decreases n - j,
{
    if j < n {
        assert(!occurs_at(line, seq!['='], j)) by {
            if occurs_at(line, seq!['='], j) {
                assert(line.subrange(j, j + 1)[0] == line[j]);
            }
        }
        lemma_find_first(line, n, j + 1);
    } else {
        assert(line.subrange(n, n + 1) =~= seq!['=']);
    }
}

/// Preferences written to text and read back are the same preferences, when
/// each value is a single line without surrounding spaces.
pub proof fn law_config_round_trip(c: ConfigV)
    requires
        clean_value(c.theme),
        clean_value(c.lang),
    ensures
        config_of(config_text(c)) == c,
{
    reveal_strlit("theme=");
    reveal_strlit("lang=");
    reveal_strlit("theme");
    reveal_strlit("lang");
    reveal_strlit("=");
    reveal_strlit("\n");
    let l1 = "theme="@ + c.theme;
    let l2 = "lang="@ + c.lang;
    assert(l1 =~= "theme"@ + "="@ + c.theme);
    assert(l2 =~= "lang"@ + "="@ + c.lang);
    assert forall|i: int| 0 <= i < l1.len() implies #[trigger] l1[i] != '\n' by {
        if i >= 6 {
            assert(l1[i] == c.theme[i - 6]);
        }
    }
    assert forall|i: int| 0 <= i < l2.len() implies #[trigger] l2[i] != '\n' by {
        if i >= 5 {
            assert(l2[i] == c.lang[i - 5]);
        }
    }
    assert(scan(Seq::<char>::empty()).1 == Seq::<char>::empty());
    lemma_scan_full_line(Seq::<char>::empty(), l1);
    assert(Seq::<char>::empty() + l1 + "\n"@ =~= l1 + "\n"@);
    lemma_apply_assignment(default_config(), "theme"@, c.theme);
    let c1 = ConfigV { theme: c.theme, lang: "pt"@ };
    assert(scan(l1 + "\n"@) == (c1, Seq::<char>::empty()));
    lemma_scan_full_line(l1 + "\n"@, l2);
    lemma_apply_assignment(c1, "lang"@, c.lang);
    assert(config_text(c) =~= l1 + "\n"@ + l2 + "\n"@);
    assert(apply_line(c, Seq::<char>::empty()) == c);
}

} // verus!
