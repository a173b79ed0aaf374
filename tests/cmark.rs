use libnss::cmark::{
    close_link, consume_newlines, write_link_title, escape_special_characters, max_consecutive_chars, padding, padding_of,
    print_text_without_trailing_newline, write_padded_newline, Alignment, CodeBlockKind, Options,
    State,
};

#[test]
fn happens_in_the_entire_string() {
    assert_eq!(
        max_consecutive_chars("``a```b``", '`'),
        3,
        "the highest seen consecutive segment of backticks counts"
    );
    assert_eq!(
        max_consecutive_chars("```a``b`", '`'),
        3,
        "it can't be downgraded later"
    );
}

#[test]
fn max_consecutive_chars_edges() {
    assert_eq!(max_consecutive_chars("", '`'), 0);
    assert_eq!(max_consecutive_chars("abc", '`'), 0);
    assert_eq!(max_consecutive_chars("````", '`'), 4);
    assert_eq!(max_consecutive_chars("~~`~~~", '~'), 3);
}

#[test]
fn special_characters_default_and_custom() {
    let o = Options::new();
    assert_eq!(o.special_characters(), "#\\_*<>`|[]");
    let mut c = Options::new();
    c.list_token = '-';
    c.strong_token = "__".to_string();
    assert_eq!(c.special_characters(), "#\\_*<>`|[]`-*__");
}

#[test]
fn padding_writes_all_prefixes() {
    let mut f = String::from("x");
    padding(&mut f, &["> ".to_string(), "  ".to_string()]);
    assert_eq!(f, "x>   ");
}

#[test]
fn consume_newlines_clears_count() {
    let mut s = State::new();
    s.newlines_before_start = 2;
    s.padding = vec!["> ".to_string()];
    let mut f = String::new();
    consume_newlines(&mut f, &mut s);
    assert_eq!(f, "\n> \n> ");
    assert_eq!(s.newlines_before_start, 0);
}

#[test]
fn padded_newline_and_text() {
    let mut s = State::new();
    s.padding = vec![">".to_string(), " ".to_string()];
    let mut f = String::new();
    write_padded_newline(&mut f, &s);
    assert_eq!(f, "\n> ");
    let mut g = String::new();
    print_text_without_trailing_newline("a\nb", &mut g, &s.padding);
    assert_eq!(g, "a\n> b");
    let mut h = String::new();
    print_text_without_trailing_newline("a\n", &mut h, &s.padding);
    assert_eq!(h, "a\n> ");
}

#[test]
fn padding_of_list_items() {
    assert_eq!(padding_of(None), "  ");
    assert_eq!(padding_of(Some(1)), "   ");
    assert_eq!(padding_of(Some(10)), "    ");
    assert_eq!(padding_of(Some(u64::MAX)).len(), 22);
}

#[test]
fn escape_rules() {
    let o = Options::new();
    let mut s = State::new();
    assert_eq!(escape_special_characters("*a", &s, &o), "\\*a");
    assert_eq!(escape_special_characters("a*", &s, &o), "a*");
    assert_eq!(escape_special_characters("", &s, &o), "");
    s.next_is_link_like = true;
    assert_eq!(escape_special_characters("hi!", &s, &o), "hi\\!");
    s.next_is_link_like = false;
    s.table_alignments = vec![Alignment::Left];
    assert_eq!(escape_special_characters("a|b|c", &s, &o), "a\\|b\\|c");
    s.code_block = Some(CodeBlockKind::Fenced);
    assert!(s.is_in_code_block());
    assert_eq!(escape_special_characters("*a|b", &s, &o), "*a|b");
}

#[test]
fn close_link_forms() {
    let mut f = String::new();
    close_link("http://a.b", "", &mut f, false);
    assert_eq!(f, "](http://a.b)");
    let mut g = String::new();
    close_link("a b", "T\"q", &mut g, true);
    assert_eq!(g, "]: <a b> \"T\\\"q\"");
    let mut h = String::new();
    close_link("x(y", "", &mut h, false);
    assert_eq!(h, "](<x(y>)");
    let mut k = String::new();
    close_link("f(a)", "", &mut k, false);
    assert_eq!(k, "](f(a))");
}

#[test]
fn link_title_escapes_quotes_and_backslashes() {
    let mut f = String::new();
    write_link_title(&mut f, "a\"b\\c");
    assert_eq!(f, "a\\\"b\\\\c");
}

#[test]
fn finalize_writes_each_shortcut_once() {
    let mut s = State::new();
    s.shortcuts = vec![
        ("t".to_string(), "u".to_string(), String::new()),
        ("t".to_string(), "u".to_string(), String::new()),
        ("s".to_string(), "v".to_string(), "w".to_string()),
    ];
    let mut f = String::new();
    let s = s.finalize(&mut f);
    assert_eq!(f, "\n\n[t]: u\n[s]: v \"w\"");
    assert!(s.shortcuts.is_empty());
    let mut g = String::new();
    let _ = State::new().finalize(&mut g);
    assert_eq!(g, "");
}
