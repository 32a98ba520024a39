use hewn::scan::{find_top, split_top_commas, Stop};
use hewn::tokens::{clone_tok, tok_eq, toks_eq, Delim, Tok};

fn id(s: &str) -> Tok {
    Tok::Ident(s.to_string())
}

fn p(c: char) -> Tok {
    Tok::Punct(c, false)
}

#[test]
fn top_level_comma_skips_angle_brackets() {
    // A<B, C>, D
    let v = vec![id("A"), p('<'), id("B"), p(','), id("C"), p('>'), p(','), id("D")];
    assert_eq!(find_top(&v, Stop::Comma), Some(6));
}

#[test]
fn arrow_does_not_close_an_angle_bracket() {
    // F<fn() -> u8>, x
    let v = vec![
        id("F"),
        p('<'),
        id("fn"),
        Tok::Group(Delim::Paren, vec![]),
        Tok::Punct('-', true),
        p('>'),
        id("u8"),
        p('>'),
        p(','),
        id("x"),
    ];
    assert_eq!(find_top(&v, Stop::Comma), Some(8));
    let inner: Vec<Tok> = v[2..].iter().map(clone_tok).collect();
    assert_eq!(find_top(&inner, Stop::CloseAngle), Some(5));
}

#[test]
fn equals_inside_angle_brackets_is_not_a_default() {
    // I: Iterator<Item = u8> = X
    let v = vec![id("I"), p(':'), id("Iterator"), p('<'), id("Item"), p('='), id("u8"), p('>'), p('='), id("X")];
    assert_eq!(find_top(&v, Stop::Eq), Some(8));
}

#[test]
fn no_stop_found() {
    assert_eq!(find_top(&vec![id("a"), id("b")], Stop::Comma), None);
    assert_eq!(find_top(&vec![], Stop::Comma), None);
}

#[test]
fn split_drops_trailing_comma_only() {
    let v = vec![id("a"), p(','), p(','), id("b"), p(',')];
    let segs = split_top_commas(&v);
    assert_eq!(segs.len(), 3);
    assert_eq!(segs[0].len(), 1);
    assert_eq!(segs[1].len(), 0);
    assert_eq!(segs[2].len(), 1);
    assert_eq!(split_top_commas(&vec![]).len(), 0);
}

#[test]
fn equality_is_by_value_up_to_spacing() {
    let g = Tok::Group(Delim::Paren, vec![id("x"), Tok::Punct(':', true)]);
    assert!(tok_eq(&g, &clone_tok(&g)));
    assert!(tok_eq(&g, &Tok::Group(Delim::Paren, vec![id("x"), Tok::Punct(':', false)])));
    assert!(!tok_eq(&g, &Tok::Group(Delim::Paren, vec![id("y"), Tok::Punct(':', false)])));
    assert!(!tok_eq(&g, &Tok::Group(Delim::Bracket, vec![id("x"), Tok::Punct(':', true)])));
    let a = vec![id("x"), id("y"), id("z")];
    let b = vec![id("y"), id("z")];
    assert!(toks_eq(&a, 1, 3, &b, 0, 2));
    assert!(!toks_eq(&a, 0, 2, &b, 0, 2));
}
