//! The leaf impls that `#[derive(Context)]` writes: one `Wire<Ctx>` impl per
//! field of the context, cloning that field out of it.
//!
//! For `struct AppCtx<P..> where W { db: Db, .. }` each field not marked
//! `#[context(skip)]` gets
//!
//! ```text
//! impl<P..> hewn::Wire<AppCtx<args..>> for Db where W {
//!     fn wire(ctx: &AppCtx<args..>) -> Self { ::core::clone::Clone::clone(&ctx.db) }
//! }
//! ```
use vstd::prelude::*;
use crate::emit::{path_sep, push_all, push_group, push_ident, push_path_sep, push_punct, push_tok, sp};
use crate::expand::{
    decls, name_text, push_decls, push_type_args, push_where, push_wire_trait, type_args, where_clause,
    wire_trait,
};
use crate::model::{fields_of, FieldDef, SField, SParam, SStruct, StructDef};
use crate::tokens::{punct, toks_eq, toks_view, unspaced_seq, Delim, STok, Tok};

verus! {

/// The context's own type: `Name<args..>`.
pub open spec fn self_ty(d: SStruct) -> Seq<STok> {
    seq![STok::Ident(d.name)] + type_args(d.params)
}

/// The context's parameters as written, lifetimes first: `<decls..>`, or
/// nothing for a context without parameters.
pub open spec fn plain_generics(ps: Seq<SParam>) -> Seq<STok> {
    if ps.len() == 0 {
        Seq::empty()
    } else {
        seq![sp('<')] + decls(ps, true, ps.len() as int) + decls(ps, false, ps.len() as int) + seq![
            sp('>'),
        ]
    }
}

/// `::core::clone::Clone::clone(&ctx.name)`.
pub open spec fn clone_field(name: Seq<char>) -> Seq<STok> {
    path_sep() + seq![STok::Ident("core"@)] + path_sep() + seq![STok::Ident("clone"@)] + path_sep()
        + seq![STok::Ident("Clone"@)] + path_sep() + seq![
        STok::Ident("clone"@),
        STok::Group(
            Delim::Paren,
            seq![sp('&'), STok::Ident("ctx"@), sp('.'), STok::Ident(name)],
        ),
    ]
}

/// `fn wire(ctx: &Name<args..>) -> Self { clone of the field }`.
pub open spec fn leaf_fn(d: SStruct, f: SField) -> Seq<STok> {
    seq![
        STok::Ident("fn"@),
        STok::Ident("wire"@),
        STok::Group(Delim::Paren, seq![STok::Ident("ctx"@), sp(':'), sp('&')] + self_ty(d)),
        STok::Punct('-', true),
        sp('>'),
        STok::Ident("Self"@),
        STok::Group(Delim::Brace, clone_field(name_text(f.name))),
    ]
}

/// The leaf impl for field `f` of context `d`.
pub open spec fn leaf_impl(d: SStruct, f: SField) -> Seq<STok> {
    seq![STok::Ident("impl"@)] + plain_generics(d.params) + wire_trait(self_ty(d)) + seq![
        STok::Ident("for"@),
    ] + f.ty + where_clause(d.where_body, Seq::empty()) + seq![
        STok::Group(Delim::Brace, leaf_fn(d, f)),
    ]
}

/// The leaf impls of the first `n` fields that are not skipped.
pub open spec fn leaf_impls(d: SStruct, skips: Seq<bool>, n: int) -> Seq<STok>
    decreases n,
{
    if n <= 0 {
        Seq::empty()
    } else {
        leaf_impls(d, skips, n - 1) + if skips[n - 1] {
            Seq::empty()
        } else {
            leaf_impl(d, d.fields[n - 1])
        }
    }
}

/// Whether two types are written alike, up to the spacing of punctuation.
pub open spec fn same_type(a: Seq<STok>, b: Seq<STok>) -> bool {
    unspaced_seq(a) == unspaced_seq(b)
}

/// Whether a wired field before `j` has the type of field `j`.
pub open spec fn has_earlier_same(fs: Seq<SField>, skips: Seq<bool>, j: int) -> bool {
    exists|i: int| 0 <= i < j && !skips[i] && #[trigger] same_type(fs[i].ty, fs[j].ty)
}

/// The first wired field from `j` on whose type an earlier wired field
/// already has, as an error naming it; none if the wired types are distinct.
pub open spec fn dup_check(fs: Seq<SField>, skips: Seq<bool>, j: int) -> Result<(), Seq<char>>
    decreases fs.len() - j,
{
    if j < 0 || j >= fs.len() {
        Ok(())
    } else if !skips[j] && has_earlier_same(fs, skips, j) {
        Err(name_text(fs[j].name))
    } else {
        dup_check(fs, skips, j + 1)
    }
}

/// Appends `::core::clone::Clone::clone(&ctx.<name>)`.
pub fn push_clone_field(out: &mut Vec<Tok>, name: &String)
    ensures
        toks_view(final(out)@) == toks_view(old(out)@) + clone_field(name@),
{
    let ghost o = toks_view(out@);
    push_path_sep(out);
    push_ident(out, "core");
    push_path_sep(out);
    push_ident(out, "clone");
    push_path_sep(out);
    push_ident(out, "Clone");
    push_path_sep(out);
    push_ident(out, "clone");
    let mut inner: Vec<Tok> = Vec::new();
    proof {
        assert(toks_view(inner@) =~= Seq::<STok>::empty());
    }
    push_punct(&mut inner, '&');
    push_ident(&mut inner, "ctx");
    push_punct(&mut inner, '.');
    push_tok(&mut inner, Tok::Ident(name.clone()));
    proof {
        assert(toks_view(inner@) =~= seq![sp('&'), STok::Ident("ctx"@), sp('.'), STok::Ident(name@)]);
    }
    push_group(out, Delim::Paren, inner);
    proof {
        assert(toks_view(out@) =~= o + clone_field(name@));
    }
}

/// The tokens of the context's own type.
pub fn self_ty_toks(d: &StructDef) -> (r: Vec<Tok>)
    ensures
        toks_view(r@) == self_ty(d@),
{
    let mut r: Vec<Tok> = Vec::new();
    proof {
        assert(toks_view(r@) =~= Seq::<STok>::empty());
    }
    push_tok(&mut r, Tok::Ident(d.name.clone()));
    push_type_args(&mut r, &d.params);
    proof {
        assert(toks_view(r@) =~= self_ty(d@));
    }
    r
}

/// Appends the leaf impl for field `f` of context `d`.
pub fn push_leaf_impl(out: &mut Vec<Tok>, d: &StructDef, f: &FieldDef)
    ensures
        toks_view(final(out)@) == toks_view(old(out)@) + leaf_impl(d@, f@),
{
    let ghost o = toks_view(out@);
    let ghost dv = d@;
    push_ident(out, "impl");
    if d.params.len() > 0 {
        push_punct(out, '<');
        push_decls(out, &d.params, true);
        push_decls(out, &d.params, false);
        push_punct(out, '>');
    }
    let ghost g = toks_view(out@);
    proof {
        assert(g =~= o + seq![STok::Ident("impl"@)] + plain_generics(dv.params));
    }
    let st = self_ty_toks(d);
    push_wire_trait(out, &st);
    push_ident(out, "for");
    push_all(out, &f.ty);
    let empty: Vec<Tok> = Vec::new();
    proof {
        assert(toks_view(empty@) =~= Seq::<STok>::empty());
    }
    push_where(out, &d.where_body, &empty);
    let mut params: Vec<Tok> = Vec::new();
    proof {
        assert(toks_view(params@) =~= Seq::<STok>::empty());
    }
    push_ident(&mut params, "ctx");
    push_punct(&mut params, ':');
    push_punct(&mut params, '&');
    push_all(&mut params, &st);
    proof {
        assert(toks_view(params@) =~= seq![STok::Ident("ctx"@), sp(':'), sp('&')] + self_ty(dv));
    }
    let mut call: Vec<Tok> = Vec::new();
    proof {
        assert(toks_view(call@) =~= Seq::<STok>::empty());
    }
    let name = match &f.name {
        Some(n) => n.clone(),
        None => String::new(),
    };
    push_clone_field(&mut call, &name);
    proof {
        assert(toks_view(call@) =~= clone_field(name_text(f@.name)));
    }
    let mut body: Vec<Tok> = Vec::new();
    proof {
        assert(toks_view(body@) =~= Seq::<STok>::empty());
    }
    push_ident(&mut body, "fn");
    push_ident(&mut body, "wire");
    push_group(&mut body, Delim::Paren, params);
    push_tok(&mut body, punct('-', true));
    push_punct(&mut body, '>');
    push_ident(&mut body, "Self");
    push_group(&mut body, Delim::Brace, call);
    proof {
        assert(toks_view(body@) =~= leaf_fn(dv, f@));
    }
    push_group(out, Delim::Brace, body);
    proof {
        assert(toks_view(out@) =~= o + leaf_impl(dv, f@));
    }
}

/// The leaf impls of all fields of `d` that `skips` does not skip.
pub fn expand_context(d: &StructDef, skips: &Vec<bool>) -> (r: Vec<Tok>)
    requires
        skips.len() == d.fields.len(),
    ensures
        toks_view(r@) == leaf_impls(d@, skips@, d.fields.len() as int),
{
    let ghost dv = d@;
    let mut out: Vec<Tok> = Vec::new();
    proof {
        assert(toks_view(out@) =~= Seq::<STok>::empty());
    }
    let mut i: usize = 0;
    while i < d.fields.len()
        invariant
            i <= d.fields.len() == skips.len(),
            dv == d@,
            toks_view(out@) == leaf_impls(dv, skips@, i as int),
        decreases d.fields.len() - i,
    {
        let ghost before = toks_view(out@);
        proof {
            assert(dv.fields[i as int] == d.fields[i as int]@);
        }
        if !skips[i] {
            push_leaf_impl(&mut out, d, &d.fields[i]);
        } else {
            proof {
                assert(before + Seq::<STok>::empty() =~= before);
            }
        }
        i = i + 1;
    }
    out
}

/// The name of the first wired field whose type an earlier wired field
/// already has, as `dup_check` says.
pub fn find_duplicate(fs: &Vec<FieldDef>, skips: &Vec<bool>) -> (r: Option<usize>)
    requires
        skips.len() == fs.len(),
    ensures
        match r {
            Some(j) => j < fs.len() && dup_check(fields_of(fs@), skips@, 0) == Err::<(), Seq<char>>(
                name_text(fields_of(fs@)[j as int].name),
            ),
            None => dup_check(fields_of(fs@), skips@, 0) == Ok::<(), Seq<char>>(()),
        },
{
    let ghost fv = fields_of(fs@);
    let mut j: usize = 0;
    while j < fs.len()
        invariant
            j <= fs.len() == skips.len(),
            fv == fields_of(fs@),
            fv.len() == fs.len(),
            dup_check(fv, skips@, 0) == dup_check(fv, skips@, j as int),
        decreases fs.len() - j,
    {
        if !skips[j] {
            let mut i: usize = 0;
            while i < j
                invariant
                    i <= j < fs.len() == skips.len(),
                    fv == fields_of(fs@),
                    fv.len() == fs.len(),
                    !skips[j as int],
                    dup_check(fv, skips@, 0) == dup_check(fv, skips@, j as int),
                    forall|k: int| 0 <= k < i ==> !(!skips@[k] && #[trigger] same_type(fv[k].ty, fv[j as int].ty)),
                decreases j - i,
            {
                if !skips[i] && toks_eq(&fs[i].ty, 0, fs[i].ty.len(), &fs[j].ty, 0, fs[j].ty.len()) {
                    proof {
                        crate::tokens::lemma_toks_view(fs[i as int].ty@);
                        crate::tokens::lemma_toks_view(fs[j as int].ty@);
                        assert(fv[i as int].ty =~= toks_view(fs[i as int].ty@).subrange(
                            0,
                            fs[i as int].ty@.len() as int,
                        ));
                        assert(fv[j as int].ty =~= toks_view(fs[j as int].ty@).subrange(
                            0,
                            fs[j as int].ty@.len() as int,
                        ));
                        assert(!skips@[i as int] && same_type(fv[i as int].ty, fv[j as int].ty));
                        assert(has_earlier_same(fv, skips@, j as int));
                        assert(!skips@[j as int]);
                        assert(dup_check(fv, skips@, j as int) == Err::<(), Seq<char>>(
                            name_text(fv[j as int].name),
                        ));
                    }
                    return Some(j);
                }
                proof {
                    crate::tokens::lemma_toks_view(fs[i as int].ty@);
                    crate::tokens::lemma_toks_view(fs[j as int].ty@);
                    assert(fv[i as int].ty =~= toks_view(fs[i as int].ty@).subrange(
                        0,
                        fs[i as int].ty@.len() as int,
                    ));
                    assert(fv[j as int].ty =~= toks_view(fs[j as int].ty@).subrange(
                        0,
                        fs[j as int].ty@.len() as int,
                    ));
                }
                i = i + 1;
            }
            proof {
                assert(!has_earlier_same(fv, skips@, j as int));
            }
        }
        j = j + 1;
    }
    None
}

} // verus!
