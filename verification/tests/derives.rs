use hewn::derive::{derive_context, derive_wire};
use hewn::model::{DeriveError, ParamKind, Shape};
use hewn::parse::read_struct;
use hewn::tokens::{Delim, Tok};

fn is_punct_char(c: char) -> bool {
    "=<>!~+-*/%^&|@.,;:#$?'".contains(c)
}

fn lex_until(chars: &[char], pos: &mut usize, close: Option<char>) -> Vec<Tok> {
    let mut out = Vec::new();
    while *pos < chars.len() {
        let c = chars[*pos];
        if Some(c) == close {
            *pos += 1;
            return out;
        }
        if c.is_whitespace() {
            *pos += 1;
        } else if c.is_alphabetic() || c == '_' {
            let start = *pos;
            while *pos < chars.len() && (chars[*pos].is_alphanumeric() || chars[*pos] == '_') {
                *pos += 1;
            }
            out.push(Tok::Ident(chars[start..*pos].iter().collect()));
        } else if c.is_ascii_digit() {
            let start = *pos;
            while *pos < chars.len() && chars[*pos].is_ascii_alphanumeric() {
                *pos += 1;
            }
            out.push(Tok::Lit(chars[start..*pos].iter().collect()));
        } else if c == '"' {
            let start = *pos;
            *pos += 1;
            while chars[*pos] != '"' {
                *pos += 1;
            }
            *pos += 1;
            out.push(Tok::Lit(chars[start..*pos].iter().collect()));
        } else if c == '(' || c == '[' || c == '{' {
            *pos += 1;
            let (d, cl) = match c {
                '(' => (Delim::Paren, ')'),
                '[' => (Delim::Bracket, ']'),
                _ => (Delim::Brace, '}'),
            };
            let inner = lex_until(chars, pos, Some(cl));
            out.push(Tok::Group(d, inner));
        } else if is_punct_char(c) {
            *pos += 1;
            let joint = *pos < chars.len() && is_punct_char(chars[*pos]);
            out.push(Tok::Punct(c, joint));
        } else {
            panic!("unexpected character {c}");
        }
    }
    out
}

/// Token trees of Rust source text, as a derive would receive them.
fn lex(src: &str) -> Vec<Tok> {
    let chars: Vec<char> = src.chars().collect();
    let mut pos = 0;
    lex_until(&chars, &mut pos, None)
}

/// Token trees as text, one space between tokens.
fn render(toks: &[Tok]) -> String {
    let mut parts: Vec<String> = Vec::new();
    for t in toks {
        parts.push(match t {
            Tok::Ident(s) | Tok::Lit(s) => s.clone(),
            Tok::Punct(c, _) => c.to_string(),
            Tok::Group(d, inner) => {
                let (o, c) = match d {
                    Delim::Paren => ("(", ")"),
                    Delim::Bracket => ("[", "]"),
                    Delim::Brace => ("{", "}"),
                    Delim::Invisible => ("", ""),
                };
                if inner.is_empty() {
                    format!("{o} {c}")
                } else {
                    format!("{o} {} {c}", render(inner))
                }
            }
        });
    }
    parts.join(" ")
}

fn expand(src: &str) -> String {
    match derive_wire(&lex(src)) {
        Ok(out) => render(&out),
        Err(e) => panic!("derive refused: {}", e.message()),
    }
}

fn norm(src: &str) -> String {
    render(&lex(src))
}

fn refusal(src: &str) -> DeriveError {
    match derive_wire(&lex(src)) {
        Ok(out) => panic!("derive accepted: {}", render(&out)),
        Err(e) => e,
    }
}

#[test]
fn wires_a_plain_field() {
    assert_eq!(
        expand("struct PlayerRepo { db: Db }"),
        norm(
            "impl<__Ctx,> hewn::Wire<__Ctx> for PlayerRepo where Db: hewn::Wire<__Ctx>, {
                fn wire(__ctx: &__Ctx) -> Self { Self { db: <Db as hewn::Wire<__Ctx>>::wire(__ctx), } }
            }"
        )
    );
}

#[test]
fn documented_expansion() {
    let src = "struct PlayerService<T> {
        repo: PlayerRepo,
        #[wire(skip)] cache: Cache,
        #[wire(with = make_clock)] clock: Clock,
        extra: T,
    }";
    assert_eq!(
        expand(src),
        norm(
            "impl<__Ctx, T,> hewn::Wire<__Ctx> for PlayerService<T,>
             where PlayerRepo: hewn::Wire<__Ctx>, T: hewn::Wire<__Ctx>,
             {
                fn wire(__ctx: &__Ctx) -> Self {
                    Self {
                        repo: <PlayerRepo as hewn::Wire<__Ctx>>::wire(__ctx),
                        cache: ::core::default::Default::default(),
                        clock: make_clock(__ctx),
                        extra: <T as hewn::Wire<__Ctx>>::wire(__ctx),
                    }
                }
             }"
        )
    );
}

#[test]
fn skip_adds_no_bound() {
    assert_eq!(
        expand("struct Service { #[wire(skip)] cache: Cache }"),
        norm(
            "impl<__Ctx,> hewn::Wire<__Ctx> for Service {
                fn wire(__ctx: &__Ctx) -> Self { Self { cache: ::core::default::Default::default(), } }
            }"
        )
    );
}

#[test]
fn default_expression_is_used_as_written() {
    assert_eq!(
        expand("struct Service { #[wire(default = Cache::with_capacity(128))] cache: Cache }"),
        norm(
            "impl<__Ctx,> hewn::Wire<__Ctx> for Service {
                fn wire(__ctx: &__Ctx) -> Self { Self { cache: Cache::with_capacity(128), } }
            }"
        )
    );
}

#[test]
fn with_calls_the_provider_on_the_context() {
    assert_eq!(
        expand("struct Service { seed: Seed, #[wire(with = make_clock)] clock: Clock }"),
        norm(
            "impl<__Ctx,> hewn::Wire<__Ctx> for Service where Seed: hewn::Wire<__Ctx>, {
                fn wire(__ctx: &__Ctx) -> Self {
                    Self { seed: <Seed as hewn::Wire<__Ctx>>::wire(__ctx), clock: make_clock(__ctx), }
                }
            }"
        )
    );
}

#[test]
fn tuple_struct_wires_positionally() {
    assert_eq!(
        expand("struct Pair(Db, #[wire(skip)] Cache);"),
        norm(
            "impl<__Ctx,> hewn::Wire<__Ctx> for Pair where Db: hewn::Wire<__Ctx>, {
                fn wire(__ctx: &__Ctx) -> Self {
                    Self(<Db as hewn::Wire<__Ctx>>::wire(__ctx), ::core::default::Default::default(),)
                }
            }"
        )
    );
}

#[test]
fn unit_struct_is_built_as_self() {
    assert_eq!(
        expand("pub struct Marker;"),
        norm("impl<__Ctx,> hewn::Wire<__Ctx> for Marker { fn wire(__ctx: &__Ctx) -> Self { Self } }")
    );
}

#[test]
fn array_field_is_wired_as_one_type() {
    assert_eq!(
        expand("struct Pool { workers: [Worker; 3] }"),
        norm(
            "impl<__Ctx,> hewn::Wire<__Ctx> for Pool where [Worker; 3]: hewn::Wire<__Ctx>, {
                fn wire(__ctx: &__Ctx) -> Self { Self { workers: <[Worker; 3] as hewn::Wire<__Ctx>>::wire(__ctx), } }
            }"
        )
    );
}

#[test]
fn generics_and_where_clause_are_kept() {
    let src = "#[doc = \"x\"] pub(crate) struct Wrapper<'a, T: Clone + 'a, const N: usize = 4, U = u8>
        where T: Send { inner: &'a T, extra: Vec<(U, T)> }";
    assert_eq!(
        expand(src),
        norm(
            "impl<'a, __Ctx, T: Clone + 'a, const N: usize, U,> hewn::Wire<__Ctx> for Wrapper<'a, T, N, U,>
             where T: Send, &'a T: hewn::Wire<__Ctx>, Vec<(U, T)>: hewn::Wire<__Ctx>,
             {
                fn wire(__ctx: &__Ctx) -> Self {
                    Self {
                        inner: <&'a T as hewn::Wire<__Ctx>>::wire(__ctx),
                        extra: <Vec<(U, T)> as hewn::Wire<__Ctx>>::wire(__ctx),
                    }
                }
             }"
        )
    );
}

#[test]
fn where_clause_with_trailing_comma_takes_no_extra_comma() {
    assert_eq!(
        expand("struct S<T> where T: Copy, { t: T }"),
        norm(
            "impl<__Ctx, T,> hewn::Wire<__Ctx> for S<T,> where T: Copy, T: hewn::Wire<__Ctx>, {
                fn wire(__ctx: &__Ctx) -> Self { Self { t: <T as hewn::Wire<__Ctx>>::wire(__ctx), } }
            }"
        )
    );
}

#[test]
fn commas_inside_angle_brackets_stay_in_one_field() {
    assert_eq!(
        expand("struct S { m: HashMap<String, Vec<u8>>, f: Box<dyn Fn(u8, u8) -> u8> }"),
        norm(
            "impl<__Ctx,> hewn::Wire<__Ctx> for S
             where HashMap<String, Vec<u8>>: hewn::Wire<__Ctx>, Box<dyn Fn(u8, u8) -> u8>: hewn::Wire<__Ctx>,
             {
                fn wire(__ctx: &__Ctx) -> Self {
                    Self {
                        m: <HashMap<String, Vec<u8>> as hewn::Wire<__Ctx>>::wire(__ctx),
                        f: <Box<dyn Fn(u8, u8) -> u8> as hewn::Wire<__Ctx>>::wire(__ctx),
                    }
                }
             }"
        )
    );
}

#[test]
fn path_separators_and_arrow_are_joined() {
    let out = derive_wire(&lex("struct S { #[wire(skip)] c: C }")).ok().unwrap();
    let body = match &out[out.len() - 1] {
        Tok::Group(Delim::Brace, inner) => inner,
        _ => panic!("no body"),
    };
    // fn wire ( .. ) - > Self { .. }
    assert!(matches!(body[3], Tok::Punct('-', true)));
    assert!(matches!(body[4], Tok::Punct('>', false)));
    // hewn :: Wire
    assert!(matches!(out[6], Tok::Punct(':', true)));
    assert!(matches!(out[7], Tok::Punct(':', false)));
}

#[test]
fn enum_is_refused() {
    assert!(matches!(refusal("enum Bad { A, B }"), DeriveError::NotAStruct));
    assert!(matches!(refusal("pub union U { a: u8 }"), DeriveError::NotAStruct));
}

#[test]
fn malformed_input_is_refused() {
    assert!(matches!(refusal("fn f() {}"), DeriveError::Malformed));
    assert!(matches!(refusal("struct"), DeriveError::Malformed));
    assert!(matches!(refusal("struct S { a }"), DeriveError::Malformed));
    assert!(matches!(refusal("struct S<T { a: T }"), DeriveError::Malformed));
    assert!(matches!(refusal("struct S(A)"), DeriveError::Malformed));
    assert!(matches!(refusal("struct S where { a: A } x"), DeriveError::Malformed));
}

#[test]
fn unknown_wire_option_is_refused() {
    assert!(matches!(refusal("struct S { #[wire(clone)] a: A }"), DeriveError::UnknownOption));
    assert!(matches!(refusal("struct S { #[wire(with =)] a: A }"), DeriveError::UnknownOption));
}

#[test]
fn bad_wire_attribute_is_refused() {
    assert!(matches!(refusal("struct S { #[wire] a: A }"), DeriveError::BadAttribute));
    assert!(matches!(refusal("struct S { #[wire = 1] a: A }"), DeriveError::BadAttribute));
}

#[test]
fn two_wire_attributes_conflict() {
    assert!(matches!(
        refusal("struct S { #[wire(skip)] #[wire(with = f)] a: A }"),
        DeriveError::ConflictingOptions
    ));
}

#[test]
fn other_attributes_are_ignored() {
    assert_eq!(
        expand("struct S { #[allow(dead_code)] #[context(skip)] pub a: A }"),
        expand("struct S { a: A }")
    );
}

#[test]
fn messages() {
    assert_eq!(
        DeriveError::NotAStruct.message(),
        "this derive supports structs only, not enums or unions"
    );
    assert_eq!(
        DeriveError::DuplicateContextType("replica".to_string()).message(),
        "two context fields have the same type; field `replica` repeats it: skip one with #[context(skip)] and wire it by hand"
    );
}

fn expand_context(src: &str) -> String {
    match derive_context(&lex(src)) {
        Ok(out) => render(&out),
        Err(e) => panic!("derive refused: {}", e.message()),
    }
}

fn context_refusal(src: &str) -> DeriveError {
    match derive_context(&lex(src)) {
        Ok(out) => panic!("derive accepted: {}", render(&out)),
        Err(e) => e,
    }
}

#[test]
fn context_writes_one_leaf_impl_per_field() {
    let src = "struct AppCtx { db: Db, clock: Clock, #[context(skip)] name: &'static str }";
    assert_eq!(
        expand_context(src),
        norm(
            "impl hewn::Wire<AppCtx> for Db {
                fn wire(ctx: &AppCtx) -> Self { ::core::clone::Clone::clone(&ctx.db) }
             }
             impl hewn::Wire<AppCtx> for Clock {
                fn wire(ctx: &AppCtx) -> Self { ::core::clone::Clone::clone(&ctx.clock) }
             }"
        )
    );
}

#[test]
fn context_keeps_generics_and_where_clause() {
    let src = "pub struct Ctx<'a, T: Clone = u8> where T: Send { db: Db<'a>, t: T }";
    assert_eq!(
        expand_context(src),
        norm(
            "impl<'a, T: Clone,> hewn::Wire<Ctx<'a, T,>> for Db<'a> where T: Send {
                fn wire(ctx: &Ctx<'a, T,>) -> Self { ::core::clone::Clone::clone(&ctx.db) }
             }
             impl<'a, T: Clone,> hewn::Wire<Ctx<'a, T,>> for T where T: Send {
                fn wire(ctx: &Ctx<'a, T,>) -> Self { ::core::clone::Clone::clone(&ctx.t) }
             }"
        )
    );
}

#[test]
fn context_of_unit_struct_writes_nothing() {
    assert_eq!(expand_context("struct Empty;"), "");
}

#[test]
fn context_refuses_duplicate_types() {
    match context_refusal("struct AppCtx { primary: Db, replica: Db }") {
        DeriveError::DuplicateContextType(name) => assert_eq!(name, "replica"),
        _ => panic!("wrong error"),
    }
}

#[test]
fn context_allows_duplicate_type_when_one_is_skipped() {
    let out = expand_context("struct AppCtx { primary: Db, #[context(skip)] replica: Db }");
    assert_eq!(
        out,
        norm(
            "impl hewn::Wire<AppCtx> for Db {
                fn wire(ctx: &AppCtx) -> Self { ::core::clone::Clone::clone(&ctx.primary) }
             }"
        )
    );
}

#[test]
fn context_refusals() {
    assert!(matches!(context_refusal("struct C(Db);"), DeriveError::ContextNeedsNamedFields));
    assert!(matches!(context_refusal("enum C { A }"), DeriveError::NotAStruct));
    assert!(matches!(context_refusal("struct C { #[context(clone)] a: A }"), DeriveError::UnknownOption));
    assert!(matches!(context_refusal("struct C { #[context] a: A }"), DeriveError::BadAttribute));
    assert!(matches!(
        context_refusal("struct C { #[context(skip)] #[context(skip)] a: A }"),
        DeriveError::ConflictingOptions
    ));
}

/// The derive inputs of the compile cases: those that compile pass the
/// derive, and the two that the derive itself rejects are refused; the missing
/// dependency surfaces as the `Db: Wire` bound that rustc then reports.
#[test]
fn ui() {
    // a two-level graph and a generic service
    assert!(derive_wire(&lex("struct PlayerRepo { db: Db, }")).is_ok());
    assert!(derive_wire(&lex("struct PlayerService { repo: PlayerRepo, }")).is_ok());
    assert!(derive_wire(&lex("struct Wrapper<T: Clone> { inner: T, }")).is_ok());
    // skip
    assert!(derive_wire(&lex("struct Service { #[wire(skip)] cache: Cache, }")).is_ok());
    // default = expr
    assert!(derive_wire(&lex("struct Service { #[wire(default = Cache::with_capacity(128))] cache: Cache, }")).is_ok());
    // with = path
    assert!(derive_wire(&lex("struct Service { seed: Seed, #[wire(with = make_clock)] clock: Clock, }")).is_ok());
    // tuple struct
    assert!(derive_wire(&lex("struct Pair(Db, #[wire(skip)] Cache);")).is_ok());
    // array field
    assert!(derive_wire(&lex("struct Pool { workers: [Worker; 3], }")).is_ok());
    // derived context
    assert!(derive_context(&lex(
        "struct AppCtx { db: Db, clock: Clock, #[context(skip)] name: &'static str, }"
    ))
    .is_ok());
    assert!(derive_wire(&lex("struct PlayerService { repo: PlayerRepo, clock: Clock, }")).is_ok());
    // missing dependency
    let missing = expand("struct PlayerRepo { db: Db, }");
    assert!(missing.contains(&norm("Db: hewn::Wire<__Ctx>")));
    // enum
    assert!(matches!(refusal("enum Bad { A, B, }"), DeriveError::NotAStruct));
    // duplicate context type
    assert!(matches!(
        context_refusal("struct AppCtx { primary: Db, replica: Db, }"),
        DeriveError::DuplicateContextType(_)
    ));
}

#[test]
fn unwired_field_type_does_not_matter() {
    for rule in ["skip", "with = make", "default = Thing::new()"] {
        let a = expand(&format!("struct S {{ a: A, #[wire({rule})] c: Cache<u8> }}"));
        let b = expand(&format!("struct S {{ a: A, #[wire({rule})] c: Other }}"));
        assert_eq!(a, b);
        assert!(!a.contains("Cache"));
    }
}

#[test]
fn every_wired_field_is_bounded_in_order() {
    let out = expand("struct S { a: A, #[wire(skip)] b: B, c: C }");
    let bound_a = norm("A: hewn::Wire<__Ctx>,");
    let bound_c = norm("C: hewn::Wire<__Ctx>,");
    let pa = out.find(&bound_a).unwrap();
    let pc = out.find(&bound_c).unwrap();
    assert!(pa < pc);
    assert!(!out.contains(&norm("B: hewn::Wire")));
}

#[test]
fn skipped_context_field_writes_nothing() {
    assert_eq!(
        expand_context("struct AppCtx { db: Db, #[context(skip)] name: Name, clock: Clock }"),
        expand_context("struct AppCtx { db: Db, clock: Clock }")
    );
}

#[test]
fn context_field_types_must_differ_only_among_wired_fields() {
    assert!(derive_context(&lex("struct C { a: Db, b: Vec<Db>, c: Db2 }")).is_ok());
    assert!(derive_context(&lex("struct C { a: Vec<Db>, b: Vec<Db> }")).is_err());
}

#[test]
fn reads_back_what_is_written() {
    let d = read_struct(&lex(
        "struct S<'a, T: Clone = u8,> where T: Send { #[wire(skip)] pub x: &'a T, y: [u8; 2], }",
    ))
    .ok()
    .unwrap();
    assert_eq!(d.name, "S");
    assert_eq!(d.params.len(), 2);
    assert!(d.params[0].kind == ParamKind::Lifetime);
    assert_eq!(render(&d.params[0].decl), "' a");
    assert!(d.params[1].kind == ParamKind::Type);
    assert_eq!(render(&d.params[1].decl), "T : Clone");
    assert_eq!(render(&d.params[1].arg), "T");
    assert_eq!(render(&d.where_body), "T : Send");
    assert!(d.shape == Shape::Named);
    assert_eq!(d.fields.len(), 2);
    assert_eq!(d.fields[0].name.as_deref(), Some("x"));
    assert_eq!(render(&d.fields[0].ty), "& ' a T");
    assert_eq!(d.fields[0].attrs.len(), 1);
    assert_eq!(render(&d.fields[0].attrs[0]), "wire ( skip )");
    assert_eq!(d.fields[1].name.as_deref(), Some("y"));
    assert_eq!(render(&d.fields[1].ty), "[ u8 ; 2 ]");
}

#[test]
fn tuple_field_visibility() {
    let d = read_struct(&lex("struct P(pub(crate) A, pub (u8, u8));")).ok().unwrap();
    assert_eq!(render(&d.fields[0].ty), "A");
    assert_eq!(render(&d.fields[1].ty), "( u8 , u8 )");
}
