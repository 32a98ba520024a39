//! The `Wire` impl that the derive writes for a struct.
//!
//! For `struct Name<P..> where W { fields }` it is
//!
//! ```text
//! impl<'lifetimes.., __Ctx, other params..> hewn::Wire<__Ctx> for Name<args..>
//! where W, FieldTy: hewn::Wire<__Ctx>, ..
//! {
//!     fn wire(__ctx: &__Ctx) -> Self {
//!         Self { field: <FieldTy as hewn::Wire<__Ctx>>::wire(__ctx), .. }
//!     }
//! }
//! ```
//!
//! where only wired fields get a bound; `skip`, `with` and `default` fields
//! are built by `Default::default()`, `path(__ctx)` and the expression.
use vstd::prelude::*;
use crate::attrs::{FieldInit, SInit};
use crate::emit::{path_sep, push_all, push_group, push_ident, push_path_sep, push_punct, push_tok, sp};
use crate::model::{fields_of, params_of, FieldDef, GenericParam, ParamKind, SField, SParam, Shape, StructDef, SStruct};
use crate::tokens::{is_punct, is_punct_spec, lemma_toks_view, punct, toks_view, Delim, STok, Tok};

verus! {

/// The context type parameter the derive introduces: `__Ctx`.
pub open spec fn ctx_ty() -> Seq<STok> {
    seq![STok::Ident("__Ctx"@)]
}

/// `hewn::Wire<arg>`.
pub open spec fn wire_trait(arg: Seq<STok>) -> Seq<STok> {
    seq![STok::Ident("hewn"@)] + path_sep() + seq![STok::Ident("Wire"@), sp('<')] + arg + seq![sp('>')]
}

/// The bound a wired field of type `ty` adds: `ty: hewn::Wire<__Ctx>,`.
pub open spec fn wire_bound(ty: Seq<STok>) -> Seq<STok> {
    ty + seq![sp(':')] + wire_trait(ctx_ty()) + seq![sp(',')]
}

/// The expression that builds a field of type `ty` by rule `init`.
pub open spec fn init_expr(ty: Seq<STok>, init: SInit) -> Seq<STok> {
    match init {
        SInit::Wired => seq![sp('<')] + ty + seq![STok::Ident("as"@)] + wire_trait(ctx_ty()) + seq![
            sp('>'),
        ] + path_sep() + seq![
            STok::Ident("wire"@),
            STok::Group(Delim::Paren, seq![STok::Ident("__ctx"@)]),
        ],
        SInit::Skip => path_sep() + seq![STok::Ident("core"@)] + path_sep() + seq![
            STok::Ident("default"@),
        ] + path_sep() + seq![STok::Ident("Default"@)] + path_sep() + seq![
            STok::Ident("default"@),
            STok::Group(Delim::Paren, Seq::empty()),
        ],
        SInit::With(p) => p + seq![STok::Group(Delim::Paren, seq![STok::Ident("__ctx"@)])],
        SInit::Default(e) => e,
    }
}

/// The text of an optional name; nothing for none.
pub open spec fn name_text(n: Option<Seq<char>>) -> Seq<char> {
    match n {
        Some(x) => x,
        None => Seq::empty(),
    }
}

/// One entry of the constructor: `name: expr,` for a named field, `expr,` otherwise.
pub open spec fn entry(f: SField, init: SInit, shape: Shape) -> Seq<STok> {
    if shape == Shape::Named {
        seq![STok::Ident(name_text(f.name)), sp(':')] + init_expr(f.ty, init) + seq![sp(',')]
    } else {
        init_expr(f.ty, init) + seq![sp(',')]
    }
}

/// The constructor entries of the first `n` fields.
pub open spec fn entries(fs: Seq<SField>, inits: Seq<SInit>, shape: Shape, n: int) -> Seq<STok>
    decreases n,
{
    if n <= 0 {
        Seq::empty()
    } else {
        entries(fs, inits, shape, n - 1) + entry(fs[n - 1], inits[n - 1], shape)
    }
}

/// The bounds that the first `n` fields add: one for each wired field.
pub open spec fn bounds(fs: Seq<SField>, inits: Seq<SInit>, n: int) -> Seq<STok>
    decreases n,
{
    if n <= 0 {
        Seq::empty()
    } else {
        bounds(fs, inits, n - 1) + if inits[n - 1] is Wired {
            wire_bound(fs[n - 1].ty)
        } else {
            Seq::empty()
        }
    }
}

/// The declarations, each followed by a comma, of the first `n` parameters
/// that are lifetimes (`lifetimes`) or that are not (`!lifetimes`).
pub open spec fn decls(ps: Seq<SParam>, lifetimes: bool, n: int) -> Seq<STok>
    decreases n,
{
    if n <= 0 {
        Seq::empty()
    } else {
        decls(ps, lifetimes, n - 1) + if (ps[n - 1].kind == ParamKind::Lifetime) == lifetimes {
            ps[n - 1].decl + seq![sp(',')]
        } else {
            Seq::empty()
        }
    }
}

/// The arguments, each followed by a comma, of the first `n` parameters.
pub open spec fn args(ps: Seq<SParam>, n: int) -> Seq<STok>
    decreases n,
{
    if n <= 0 {
        Seq::empty()
    } else {
        args(ps, n - 1) + ps[n - 1].arg + seq![sp(',')]
    }
}

/// The impl's parameters: the lifetimes, `__Ctx`, then the other parameters.
pub open spec fn wire_impl_generics(ps: Seq<SParam>) -> Seq<STok> {
    seq![sp('<')] + decls(ps, true, ps.len() as int) + ctx_ty() + seq![sp(',')] + decls(
        ps,
        false,
        ps.len() as int,
    ) + seq![sp('>')]
}

/// The struct's arguments `<args..>`, or nothing for a struct without parameters.
pub open spec fn type_args(ps: Seq<SParam>) -> Seq<STok> {
    if ps.len() == 0 {
        Seq::empty()
    } else {
        seq![sp('<')] + args(ps, ps.len() as int) + seq![sp('>')]
    }
}

/// A `where` clause of the struct's predicates `w` followed by the bounds `b`,
/// with a comma between them where `w` does not end in one; nothing where
/// both are empty.
pub open spec fn where_clause(w: Seq<STok>, b: Seq<STok>) -> Seq<STok> {
    if w.len() == 0 && b.len() == 0 {
        Seq::empty()
    } else {
        seq![STok::Ident("where"@)] + w + if w.len() > 0 && !is_punct_spec(w[w.len() - 1], ',')
            && b.len() > 0 {
            seq![sp(',')]
        } else {
            Seq::empty()
        } + b
    }
}

/// `Self { entries }`, `Self(entries)` or `Self`, by the form of the struct.
pub open spec fn constructor(d: SStruct, inits: Seq<SInit>) -> Seq<STok> {
    let es = entries(d.fields, inits, d.shape, d.fields.len() as int);
    match d.shape {
        Shape::Named => seq![STok::Ident("Self"@), STok::Group(Delim::Brace, es)],
        Shape::Tuple => seq![STok::Ident("Self"@), STok::Group(Delim::Paren, es)],
        Shape::Unit => seq![STok::Ident("Self"@)],
    }
}

/// `fn wire(__ctx: &__Ctx) -> Self { constructor }`.
pub open spec fn wire_fn(d: SStruct, inits: Seq<SInit>) -> Seq<STok> {
    seq![
        STok::Ident("fn"@),
        STok::Ident("wire"@),
        STok::Group(
            Delim::Paren,
            seq![STok::Ident("__ctx"@), sp(':'), sp('&'), STok::Ident("__Ctx"@)],
        ),
        STok::Punct('-', true),
        sp('>'),
        STok::Ident("Self"@),
        STok::Group(Delim::Brace, constructor(d, inits)),
    ]
}

/// The whole `Wire` impl for struct `d` whose fields are built by `inits`.
pub open spec fn wire_impl(d: SStruct, inits: Seq<SInit>) -> Seq<STok> {
    seq![STok::Ident("impl"@)] + wire_impl_generics(d.params) + wire_trait(ctx_ty()) + seq![
        STok::Ident("for"@),
        STok::Ident(d.name),
    ] + type_args(d.params) + where_clause(
        d.where_body,
        bounds(d.fields, inits, d.fields.len() as int),
    ) + seq![STok::Group(Delim::Brace, wire_fn(d, inits))]
}

/// The values of a sequence of field rules.
pub open spec fn inits_of(v: Seq<FieldInit>) -> Seq<SInit> {
    v.map_values(|o: FieldInit| o@)
}

/// Appends `hewn::Wire<arg>`.
pub fn push_wire_trait(out: &mut Vec<Tok>, arg: &Vec<Tok>)
    ensures
        toks_view(final(out)@) == toks_view(old(out)@) + wire_trait(toks_view(arg@)),
{
    let ghost o = toks_view(out@);
    push_ident(out, "hewn");
    push_path_sep(out);
    push_ident(out, "Wire");
    push_punct(out, '<');
    push_all(out, arg);
    push_punct(out, '>');
    proof {
        assert(toks_view(out@) =~= o + wire_trait(toks_view(arg@)));
    }
}

/// The tokens `__Ctx`.
pub fn ctx_toks() -> (r: Vec<Tok>)
    ensures
        toks_view(r@) == ctx_ty(),
{
    let mut r: Vec<Tok> = Vec::new();
    proof {
        assert(toks_view(r@) =~= Seq::<STok>::empty());
    }
    push_ident(&mut r, "__Ctx");
    proof {
        assert(toks_view(r@) =~= ctx_ty());
    }
    r
}

/// The tokens `(__ctx)`.
pub fn ctx_arg_group() -> (r: Tok)
    ensures
        r@ == STok::Group(Delim::Paren, seq![STok::Ident("__ctx"@)]),
{
    let mut inner: Vec<Tok> = Vec::new();
    proof {
        assert(toks_view(inner@) =~= Seq::<STok>::empty());
    }
    push_ident(&mut inner, "__ctx");
    proof {
        assert(toks_view(inner@) =~= seq![STok::Ident("__ctx"@)]);
    }
    crate::tokens::group(Delim::Paren, inner)
}

/// Appends the expression that builds a field of type `ty` by rule `init`.
pub fn push_init(out: &mut Vec<Tok>, ty: &Vec<Tok>, init: &FieldInit)
    ensures
        toks_view(final(out)@) == toks_view(old(out)@) + init_expr(toks_view(ty@), init@),
{
    let ghost o = toks_view(out@);
    match init {
        FieldInit::Wired => {
            push_punct(out, '<');
            push_all(out, ty);
            push_ident(out, "as");
            let c = ctx_toks();
            push_wire_trait(out, &c);
            push_punct(out, '>');
            push_path_sep(out);
            push_ident(out, "wire");
            push_tok(out, ctx_arg_group());
        },
        FieldInit::Skip => {
            push_path_sep(out);
            push_ident(out, "core");
            push_path_sep(out);
            push_ident(out, "default");
            push_path_sep(out);
            push_ident(out, "Default");
            push_path_sep(out);
            push_ident(out, "default");
            let empty: Vec<Tok> = Vec::new();
            proof {
                assert(toks_view(empty@) =~= Seq::<STok>::empty());
            }
            push_group(out, Delim::Paren, empty);
        },
        FieldInit::With(p) => {
            push_all(out, p);
            push_tok(out, ctx_arg_group());
        },
        FieldInit::Default(e) => {
            push_all(out, e);
        },
    }
    proof {
        assert(toks_view(out@) =~= o + init_expr(toks_view(ty@), init@));
    }
}

/// Appends the constructor entries of all fields.
pub fn push_entries(out: &mut Vec<Tok>, fs: &Vec<FieldDef>, inits: &Vec<FieldInit>, shape: Shape)
    requires
        fs.len() == inits.len(),
    ensures
        toks_view(final(out)@) == toks_view(old(out)@) + entries(
            fields_of(fs@),
            inits_of(inits@),
            shape,
            fs.len() as int,
        ),
{
    let ghost o = toks_view(out@);
    let ghost fv = fields_of(fs@);
    let ghost iv = inits_of(inits@);
    let mut i: usize = 0;
    proof {
        assert(o + entries(fv, iv, shape, 0) =~= o);
    }
    while i < fs.len()
        invariant
            i <= fs.len() == inits.len(),
            fv == fields_of(fs@),
            iv == inits_of(inits@),
            toks_view(out@) == o + entries(fv, iv, shape, i as int),
        decreases fs.len() - i,
    {
        let f = &fs[i];
        let ghost before = toks_view(out@);
        if shape == Shape::Named {
            match &f.name {
                Some(n) => push_tok(out, Tok::Ident(n.clone())),
                None => push_tok(out, Tok::Ident(String::new())),
            }
            push_punct(out, ':');
        }
        push_init(out, &f.ty, &inits[i]);
        push_punct(out, ',');
        proof {
            assert(fv[i as int] == f@);
            assert(iv[i as int] == inits[i as int]@);
            assert(toks_view(out@) =~= before + entry(fv[i as int], iv[i as int], shape));
            assert(o + entries(fv, iv, shape, i + 1) =~= o + entries(fv, iv, shape, i as int) + entry(
                fv[i as int],
                iv[i as int],
                shape,
            ));
        }
        i = i + 1;
    }
}

/// Appends the bounds of all wired fields.
pub fn push_bounds(out: &mut Vec<Tok>, fs: &Vec<FieldDef>, inits: &Vec<FieldInit>)
    requires
        fs.len() == inits.len(),
    ensures
        toks_view(final(out)@) == toks_view(old(out)@) + bounds(
            fields_of(fs@),
            inits_of(inits@),
            fs.len() as int,
        ),
{
    let ghost o = toks_view(out@);
    let ghost fv = fields_of(fs@);
    let ghost iv = inits_of(inits@);
    let mut i: usize = 0;
    proof {
        assert(o + bounds(fv, iv, 0) =~= o);
    }
    while i < fs.len()
        invariant
            i <= fs.len() == inits.len(),
            fv == fields_of(fs@),
            iv == inits_of(inits@),
            toks_view(out@) == o + bounds(fv, iv, i as int),
        decreases fs.len() - i,
    {
        let ghost before = toks_view(out@);
        let wired = match &inits[i] {
            FieldInit::Wired => true,
            _ => false,
        };
        proof {
            assert(fv[i as int] == fs[i as int]@);
            assert(iv[i as int] == inits[i as int]@);
        }
        if wired {
            push_all(out, &fs[i].ty);
            push_punct(out, ':');
            let c = ctx_toks();
            push_wire_trait(out, &c);
            push_punct(out, ',');
            proof {
                assert(toks_view(out@) =~= before + wire_bound(fv[i as int].ty));
            }
        } else {
            proof {
                assert(before + Seq::<STok>::empty() =~= before);
            }
        }
        proof {
            assert(o + bounds(fv, iv, i + 1) =~= o + bounds(fv, iv, i as int) + if iv[i as int] is Wired {
                wire_bound(fv[i as int].ty)
            } else {
                Seq::<STok>::empty()
            });
        }
        i = i + 1;
    }
}

/// Appends the declarations of the lifetime parameters (`lifetimes`) or of
/// the other parameters, each followed by a comma.
pub fn push_decls(out: &mut Vec<Tok>, ps: &Vec<GenericParam>, lifetimes: bool)
    ensures
        toks_view(final(out)@) == toks_view(old(out)@) + decls(params_of(ps@), lifetimes, ps.len() as int),
{
    let ghost o = toks_view(out@);
    let ghost pv = params_of(ps@);
    let mut i: usize = 0;
    proof {
        assert(o + decls(pv, lifetimes, 0) =~= o);
    }
    while i < ps.len()
        invariant
            i <= ps.len(),
            pv == params_of(ps@),
            toks_view(out@) == o + decls(pv, lifetimes, i as int),
        decreases ps.len() - i,
    {
        let ghost before = toks_view(out@);
        proof {
            assert(pv[i as int] == ps[i as int]@);
        }
        let is_lt = ps[i].kind == ParamKind::Lifetime;
        if is_lt == lifetimes {
            push_all(out, &ps[i].decl);
            push_punct(out, ',');
        }
        proof {
            assert(o + decls(pv, lifetimes, i + 1) =~= o + decls(pv, lifetimes, i as int) + if (
            pv[i as int].kind == ParamKind::Lifetime) == lifetimes {
                pv[i as int].decl + seq![sp(',')]
            } else {
                Seq::<STok>::empty()
            });
        }
        i = i + 1;
    }
}

/// Appends the arguments of all parameters, each followed by a comma.
pub fn push_args(out: &mut Vec<Tok>, ps: &Vec<GenericParam>)
    ensures
        toks_view(final(out)@) == toks_view(old(out)@) + args(params_of(ps@), ps.len() as int),
{
    let ghost o = toks_view(out@);
    let ghost pv = params_of(ps@);
    let mut i: usize = 0;
    proof {
        assert(o + args(pv, 0) =~= o);
    }
    while i < ps.len()
        invariant
            i <= ps.len(),
            pv == params_of(ps@),
            toks_view(out@) == o + args(pv, i as int),
        decreases ps.len() - i,
    {
        proof {
            assert(pv[i as int] == ps[i as int]@);
        }
        push_all(out, &ps[i].arg);
        push_punct(out, ',');
        proof {
            assert(o + args(pv, i + 1) =~= o + args(pv, i as int) + pv[i as int].arg + seq![sp(',')]);
        }
        i = i + 1;
    }
}

/// Appends `<args..>`, or nothing for no parameters.
pub fn push_type_args(out: &mut Vec<Tok>, ps: &Vec<GenericParam>)
    ensures
        toks_view(final(out)@) == toks_view(old(out)@) + type_args(params_of(ps@)),
{
    let ghost o = toks_view(out@);
    if ps.len() > 0 {
        push_punct(out, '<');
        push_args(out, ps);
        push_punct(out, '>');
        proof {
            assert(toks_view(out@) =~= o + type_args(params_of(ps@)));
        }
    } else {
        proof {
            assert(o + type_args(params_of(ps@)) =~= o);
        }
    }
}

/// Appends the `where` clause of predicates `w` and bounds `b`.
pub fn push_where(out: &mut Vec<Tok>, w: &Vec<Tok>, b: &Vec<Tok>)
    ensures
        toks_view(final(out)@) == toks_view(old(out)@) + where_clause(toks_view(w@), toks_view(b@)),
{
    let ghost o = toks_view(out@);
    proof {
        lemma_toks_view(w@);
        lemma_toks_view(b@);
    }
    if w.len() == 0 && b.len() == 0 {
        proof {
            assert(o + where_clause(toks_view(w@), toks_view(b@)) =~= o);
        }
        return;
    }
    push_ident(out, "where");
    push_all(out, w);
    let ghost mid = toks_view(out@);
    let sep = w.len() > 0 && !is_punct(&w[w.len() - 1], ',') && b.len() > 0;
    if sep {
        push_punct(out, ',');
    }
    push_all(out, b);
    proof {
        let wv = toks_view(w@);
        let bv = toks_view(b@);
        assert(sep == (wv.len() > 0 && !is_punct_spec(wv[wv.len() - 1], ',') && bv.len() > 0));
        assert(toks_view(out@) =~= o + where_clause(wv, bv));
    }
}

/// The `Wire` impl for struct `d` whose fields are built by `inits`.
pub fn expand_wire(d: &StructDef, inits: &Vec<FieldInit>) -> (r: Vec<Tok>)
    requires
        d.fields.len() == inits.len(),
    ensures
        toks_view(r@) == wire_impl(d@, inits_of(inits@)),
{
    let ghost dv = d@;
    let ghost iv = inits_of(inits@);
    let mut out: Vec<Tok> = Vec::new();
    proof {
        assert(toks_view(out@) =~= Seq::<STok>::empty());
    }
    push_ident(&mut out, "impl");
    push_punct(&mut out, '<');
    push_decls(&mut out, &d.params, true);
    let c = ctx_toks();
    push_all(&mut out, &c);
    push_punct(&mut out, ',');
    push_decls(&mut out, &d.params, false);
    push_punct(&mut out, '>');
    let ghost head = toks_view(out@);
    proof {
        assert(head =~= seq![STok::Ident("impl"@)] + wire_impl_generics(dv.params));
    }
    push_wire_trait(&mut out, &c);
    push_ident(&mut out, "for");
    push_tok(&mut out, Tok::Ident(d.name.clone()));
    push_type_args(&mut out, &d.params);
    let mut b: Vec<Tok> = Vec::new();
    proof {
        assert(toks_view(b@) =~= Seq::<STok>::empty());
    }
    push_bounds(&mut b, &d.fields, inits);
    proof {
        assert(Seq::<STok>::empty() + bounds(dv.fields, iv, dv.fields.len() as int) =~= bounds(
            dv.fields,
            iv,
            dv.fields.len() as int,
        ));
    }
    push_where(&mut out, &d.where_body, &b);
    let ghost before_body = toks_view(out@);
    let mut ctor: Vec<Tok> = Vec::new();
    proof {
        assert(toks_view(ctor@) =~= Seq::<STok>::empty());
    }
    push_ident(&mut ctor, "Self");
    match d.shape {
        Shape::Named => {
            let mut es: Vec<Tok> = Vec::new();
            proof {
                assert(toks_view(es@) =~= Seq::<STok>::empty());
            }
            push_entries(&mut es, &d.fields, inits, d.shape);
            proof {
                assert(Seq::<STok>::empty() + entries(dv.fields, iv, dv.shape, dv.fields.len() as int)
                    =~= entries(dv.fields, iv, dv.shape, dv.fields.len() as int));
            }
            push_group(&mut ctor, Delim::Brace, es);
        },
        Shape::Tuple => {
            let mut es: Vec<Tok> = Vec::new();
            proof {
                assert(toks_view(es@) =~= Seq::<STok>::empty());
            }
            push_entries(&mut es, &d.fields, inits, d.shape);
            proof {
                assert(Seq::<STok>::empty() + entries(dv.fields, iv, dv.shape, dv.fields.len() as int)
                    =~= entries(dv.fields, iv, dv.shape, dv.fields.len() as int));
            }
            push_group(&mut ctor, Delim::Paren, es);
        },
        Shape::Unit => {},
    }
    proof {
        assert(toks_view(ctor@) =~= constructor(dv, iv));
    }
    let mut body: Vec<Tok> = Vec::new();
    proof {
        assert(toks_view(body@) =~= Seq::<STok>::empty());
    }
    push_ident(&mut body, "fn");
    push_ident(&mut body, "wire");
    let mut params: Vec<Tok> = Vec::new();
    proof {
        assert(toks_view(params@) =~= Seq::<STok>::empty());
    }
    push_ident(&mut params, "__ctx");
    push_punct(&mut params, ':');
    push_punct(&mut params, '&');
    push_ident(&mut params, "__Ctx");
    proof {
        assert(toks_view(params@) =~= seq![STok::Ident("__ctx"@), sp(':'), sp('&'), STok::Ident("__Ctx"@)]);
    }
    push_group(&mut body, Delim::Paren, params);
    push_tok(&mut body, punct('-', true));
    push_punct(&mut body, '>');
    push_ident(&mut body, "Self");
    push_group(&mut body, Delim::Brace, ctor);
    proof {
        assert(toks_view(body@) =~= wire_fn(dv, iv));
    }
    push_group(&mut out, Delim::Brace, body);
    proof {
        assert(toks_view(out@) =~= wire_impl(dv, iv));
    }
    out
}

} // verus!
