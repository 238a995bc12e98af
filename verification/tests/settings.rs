use lexml::config::{chosen_theme, parse, render, scheme_for, Config, Scheme};
use lexml::i18n::{code, en, from_code, pt, tr, Lang};

#[test]
fn config_defaults() {
    let c = Config::default();
    assert_eq!(c.theme, "system");
    assert_eq!(c.lang, "pt");
}

#[test]
fn config_parse_reads_keys() {
    let c = parse("# preferências\n  theme = dark \n\nlang=en\nother=1\n");
    assert_eq!(c.theme, "dark");
    assert_eq!(c.lang, "en");
}

#[test]
fn config_parse_last_wins_and_ignores_junk() {
    let c = parse("theme=light\r\nno equals here\n#theme=dark\ntheme=dark=x");
    assert_eq!(c.theme, "dark=x");
    assert_eq!(c.lang, "pt");
    let e = parse("");
    assert_eq!(e.theme, "system");
}

#[test]
fn config_render_then_parse() {
    let c = Config { theme: "dark".to_string(), lang: "en".to_string() };
    let text = render(&c);
    assert_eq!(text, "theme=dark\nlang=en\n");
    let back = parse(&text);
    assert_eq!(back.theme, "dark");
    assert_eq!(back.lang, "en");
}

#[test]
fn language_codes() {
    assert_eq!(from_code("en"), Lang::En);
    assert_eq!(from_code("en_US.UTF-8"), Lang::En);
    assert_eq!(from_code("pt"), Lang::Pt);
    assert_eq!(from_code("e"), Lang::Pt);
    assert_eq!(from_code(""), Lang::Pt);
    assert_eq!(code(Lang::Pt), "pt");
    assert_eq!(code(Lang::En), "en");
    assert_eq!(from_code(code(Lang::En)), Lang::En);
    assert_eq!(from_code(code(Lang::Pt)), Lang::Pt);
}

#[test]
fn interface_texts() {
    assert_eq!(tr(Lang::Pt, "open_file"), "Abrir arquivo");
    assert_eq!(tr(Lang::En, "open_file"), "Open file");
    assert_eq!(pt("sum_label"), "Σ Somar");
    assert_eq!(en("save_as"), "Save as…");
    assert_eq!(tr(Lang::En, "no_such_key"), "");
    assert_eq!(tr(Lang::Pt, "no_such_key"), "");
}

#[test]
fn both_catalogs_have_the_same_keys() {
    assert_eq!(en("cancel"), "Cancel");
    assert_eq!(en("no_such_key"), "");
    assert_eq!(pt("no_such_key"), "");
    for key in ["open_file", "settings", "rename_column", "save_as", "cancel"] {
        assert!(!en(key).is_empty() && !pt(key).is_empty(), "{key}");
    }
}

#[test]
fn theme_choice() {
    assert_eq!(chosen_theme(Some("dark"), "light"), "dark");
    assert_eq!(chosen_theme(Some("light"), "dark"), "light");
    assert_eq!(chosen_theme(Some("system"), "dark"), "system");
    assert_eq!(chosen_theme(Some("blue"), "dark"), "dark");
    assert_eq!(chosen_theme(None, "system"), "system");
    assert_eq!(scheme_for("dark"), Scheme::Dark);
    assert_eq!(scheme_for("light"), Scheme::Light);
    assert_eq!(scheme_for("system"), Scheme::System);
    assert_eq!(scheme_for("Dark"), Scheme::System);
    assert_eq!(scheme_for(&chosen_theme(Some("system"), "dark")), Scheme::System);
}
