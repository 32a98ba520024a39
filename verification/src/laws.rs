//! What holds of every expansion the derives write.
use vstd::prelude::*;
use crate::attrs::{context_skip, field_init, wire_option, attr_args, SInit};
use crate::context::{dup_check, has_earlier_same, leaf_impl, leaf_impls, same_type};
use crate::derive::{context_derivation, context_skips, field_inits, wire_derivation};
use crate::emit::sp;
use crate::expand::{args, bounds, ctx_ty, decls, entries, entry, type_args, wire_bound, wire_impl_generics};
use crate::model::{ParamKind, SError, SField, SParam, SStruct, Shape};
use crate::parse::{keyword_at, parse_struct};
use crate::tokens::STok;

verus! {

/// The bounds of the first `n` fields are those of the first `i`, then the
/// bound of field `i` if it is wired, then those of fields `i+1..n`.
proof fn lemma_bounds_split(fs: Seq<SField>, inits: Seq<SInit>, i: int, n: int) -> (post: Seq<STok>)
    requires
        0 <= i < n <= fs.len(),
        inits.len() == fs.len(),
    ensures
        bounds(fs, inits, n) == bounds(fs, inits, i) + (if inits[i] is Wired {
            wire_bound(fs[i].ty)
        } else {
            Seq::empty()
        }) + post,
    decreases n,
{
    if n == i + 1 {
        let x = if inits[i] is Wired {
            wire_bound(fs[i].ty)
        } else {
            Seq::<STok>::empty()
        };
        assert(bounds(fs, inits, i) + x + Seq::<STok>::empty() =~= bounds(fs, inits, i) + x);
        Seq::empty()
    } else {
        let post0 = lemma_bounds_split(fs, inits, i, n - 1);
        let last = if inits[n - 1] is Wired {
            wire_bound(fs[n - 1].ty)
        } else {
            Seq::<STok>::empty()
        };
        let x = if inits[i] is Wired {
            wire_bound(fs[i].ty)
        } else {
            Seq::<STok>::empty()
        };
        assert(bounds(fs, inits, i) + x + post0 + last =~= bounds(fs, inits, i) + x + (post0 + last));
        post0 + last
    }
}

/// Every wired field is bounded: the bounds the derive adds hold
/// `Ty: hewn::Wire<__Ctx>,` for the type `Ty` of each wired field, so a
/// missing leaf impl is reported at the wiring site.
pub proof fn law_wired_field_is_bounded(fs: Seq<SField>, inits: Seq<SInit>, i: int)
    requires
        0 <= i < fs.len(),
        inits.len() == fs.len(),
        inits[i] is Wired,
    ensures
        exists|pre: Seq<STok>, post: Seq<STok>|
            bounds(fs, inits, fs.len() as int) == pre + wire_bound(fs[i].ty) + post,
{
    let post = lemma_bounds_split(fs, inits, i, fs.len() as int);
    assert(bounds(fs, inits, fs.len() as int) == bounds(fs, inits, i) + wire_bound(fs[i].ty) + post);
}

/// A field built by `skip`, `with` or `default` adds no bound: whatever its
/// type, the bounds are those of the other fields.
pub proof fn law_unwired_field_adds_no_bound(fs: Seq<SField>, inits: Seq<SInit>, i: int, ty: Seq<STok>, n: int)
    requires
        0 <= i < fs.len(),
        0 <= n <= fs.len(),
        inits.len() == fs.len(),
        !(inits[i] is Wired),
    ensures
        bounds(fs.update(i, SField { ty, ..fs[i] }), inits, n) == bounds(fs, inits, n),
    decreases n,
{
    if n > 0 {
        law_unwired_field_adds_no_bound(fs, inits, i, ty, n - 1);
    }
}

/// The constructor entries of the first `n` fields are those of the first
/// `i`, then the entry of field `i`, then those of fields `i+1..n`.
proof fn lemma_entries_split(fs: Seq<SField>, inits: Seq<SInit>, shape: Shape, i: int, n: int) -> (post: Seq<STok>)
    requires
        0 <= i < n <= fs.len(),
        inits.len() == fs.len(),
    ensures
        entries(fs, inits, shape, n) == entries(fs, inits, shape, i) + entry(fs[i], inits[i], shape) + post,
    decreases n,
{
    if n == i + 1 {
        assert(entries(fs, inits, shape, i) + entry(fs[i], inits[i], shape) + Seq::<STok>::empty() =~= entries(
            fs,
            inits,
            shape,
            i,
        ) + entry(fs[i], inits[i], shape));
        Seq::empty()
    } else {
        let post0 = lemma_entries_split(fs, inits, shape, i, n - 1);
        let last = entry(fs[n - 1], inits[n - 1], shape);
        let x = entry(fs[i], inits[i], shape);
        assert(entries(fs, inits, shape, i) + x + post0 + last =~= entries(fs, inits, shape, i) + x + (
        post0 + last));
        post0 + last
    }
}

/// Every field is built by its own rule, in declaration order: the
/// constructor holds the entry of field `i` right after those of the fields
/// before it.
pub proof fn law_each_field_built_by_its_rule(fs: Seq<SField>, inits: Seq<SInit>, shape: Shape, i: int)
    requires
        0 <= i < fs.len(),
        inits.len() == fs.len(),
    ensures
        exists|post: Seq<STok>|
            entries(fs, inits, shape, fs.len() as int) == entries(fs, inits, shape, i) + entry(
                fs[i],
                inits[i],
                shape,
            ) + post,
{
    let post = lemma_entries_split(fs, inits, shape, i, fs.len() as int);
}

/// The attribute rules of a field never report an item kind.
proof fn lemma_field_init_errors(attrs: Seq<Seq<STok>>, i: int, found: Option<SInit>)
    ensures
        field_init(attrs, i, found) matches Err(e) ==> e is BadAttribute || e is UnknownOption
            || e is ConflictingOptions,
    decreases attrs.len() - i,
{
    if 0 <= i < attrs.len() {
        match attr_args(attrs[i], "wire"@) {
            None => lemma_field_init_errors(attrs, i + 1, found),
            Some(Err(_)) => {},
            Some(Ok(c)) => match wire_option(c) {
                Err(_) => {},
                Ok(o) => if found is None {
                    lemma_field_init_errors(attrs, i + 1, Some(o));
                },
            },
        }
    }
}

/// The rules of all fields never report an item kind.
proof fn lemma_field_inits_errors(fs: Seq<SField>, i: int)
    ensures
        field_inits(fs, i) matches Err(e) ==> e is BadAttribute || e is UnknownOption
            || e is ConflictingOptions,
    decreases fs.len() - i,
{
    if 0 <= i < fs.len() {
        lemma_field_init_errors(fs[i].attrs, 0, None);
        lemma_field_inits_errors(fs, i + 1);
    }
}

/// The context attributes of a field never report an item kind.
proof fn lemma_context_skip_errors(attrs: Seq<Seq<STok>>, i: int, found: bool)
    ensures
        context_skip(attrs, i, found) matches Err(e) ==> e is BadAttribute || e is UnknownOption
            || e is ConflictingOptions,
    decreases attrs.len() - i,
{
    if 0 <= i < attrs.len() {
        match attr_args(attrs[i], "context"@) {
            None => lemma_context_skip_errors(attrs, i + 1, found),
            Some(Err(_)) => {},
            Some(Ok(_)) => lemma_context_skip_errors(attrs, i + 1, true),
        }
    }
}

/// The context attributes of all fields never report an item kind.
proof fn lemma_context_skips_errors(fs: Seq<SField>, i: int)
    ensures
        context_skips(fs, i) matches Err(e) ==> e is BadAttribute || e is UnknownOption
            || e is ConflictingOptions,
    decreases fs.len() - i,
{
    if 0 <= i < fs.len() {
        lemma_context_skip_errors(fs[i].attrs, 0, false);
        lemma_context_skips_errors(fs, i + 1);
    }
}

/// Whether the item keyword of derive input `s` is `enum` or `union`.
pub open spec fn declares_enum_or_union(s: Seq<STok>) -> bool {
    let i = keyword_at(s);
    0 <= i < s.len() && (s[i] == STok::Ident("enum"@) || s[i] == STok::Ident("union"@))
}

/// The derives are struct-only: both refuse an enum or a union as not a
/// struct, and refuse nothing else for that reason.
pub proof fn law_struct_only(s: Seq<STok>)
    ensures
        (wire_derivation(s) == Err::<Seq<STok>, SError>(SError::NotAStruct)) <==> declares_enum_or_union(s),
        (context_derivation(s) == Err::<Seq<STok>, SError>(SError::NotAStruct)) <==> declares_enum_or_union(s),
{
    let i = keyword_at(s);
    if i < 0 {
        // attributes and visibility only move forward from 0
        assert(false) by {
            lemma_keyword_at_nonneg(s);
        }
    }
    match parse_struct(s) {
        Ok(d) => {
            lemma_field_inits_errors(d.fields, 0);
            lemma_context_skips_errors(d.fields, 0);
        },
        Err(_) => {},
    }
}

/// Attributes end at or after where they start.
proof fn lemma_attrs_end_ge(s: Seq<STok>, i: int)
    ensures
        crate::parse::attrs_end(s, i) >= i,
    decreases s.len() - i,
{
    if crate::parse::is_attr_at(s, i) {
        lemma_attrs_end_ge(s, i + 2);
    }
}

/// The item keyword's index is not negative.
proof fn lemma_keyword_at_nonneg(s: Seq<STok>)
    ensures
        keyword_at(s) >= 0,
{
    lemma_attrs_end_ge(s, 0);
}

/// `dup_check` from `j` succeeds exactly when no wired field at or after `j`
/// has the type of an earlier wired field.
proof fn lemma_dup_check(fs: Seq<SField>, skips: Seq<bool>, j: int)
    requires
        0 <= j <= fs.len(),
        skips.len() == fs.len(),
    ensures
        (dup_check(fs, skips, j) is Ok) <==> (forall|a: int, b: int|
            0 <= a < b && j <= b < fs.len() && !skips[a] && !skips[b] ==> !same_type(
                #[trigger] fs[a].ty,
                #[trigger] fs[b].ty,
            )),
    decreases fs.len() - j,
{
    if j < fs.len() {
        lemma_dup_check(fs, skips, j + 1);
        if !skips[j] && has_earlier_same(fs, skips, j) {
            let a = choose|a: int| 0 <= a < j && !skips[a] && #[trigger] same_type(fs[a].ty, fs[j].ty);
            assert(same_type(fs[a].ty, fs[j].ty));
        } else if dup_check(fs, skips, j + 1) is Ok {
            assert forall|a: int, b: int|
                0 <= a < b && j <= b < fs.len() && !skips[a] && !skips[b] implies !same_type(
                #[trigger] fs[a].ty,
                #[trigger] fs[b].ty,
            ) by {
                if b == j {
                    if same_type(fs[a].ty, fs[j].ty) {
                        assert(has_earlier_same(fs, skips, j));
                    }
                }
            }
        }
    }
}

/// A context whose declaration and attributes are accepted gets its leaf
/// impls exactly when no two of its wired fields have the same type
/// (written alike, up to the spacing of punctuation).
pub proof fn law_context_types_distinct(s: Seq<STok>, d: SStruct, skips: Seq<bool>)
    requires
        parse_struct(s) == Ok::<SStruct, SError>(d),
        d.shape != Shape::Tuple,
        context_skips(d.fields, 0) == Ok::<Seq<bool>, SError>(skips),
    ensures
        (context_derivation(s) is Ok) <==> (forall|a: int, b: int|
            0 <= a < b < d.fields.len() && !skips[a] && !skips[b] ==> !same_type(
                #[trigger] d.fields[a].ty,
                #[trigger] d.fields[b].ty,
            )),
{
    crate::derive::lemma_context_skips_len(d.fields, 0);
    lemma_dup_check(d.fields, skips, 0);
}

/// The leaf impls of the first `n` fields are those of the first `i`, then
/// that of field `i` unless it is skipped, then those of fields `i+1..n`.
proof fn lemma_leaf_impls_split(d: SStruct, skips: Seq<bool>, i: int, n: int) -> (post: Seq<STok>)
    requires
        0 <= i < n <= d.fields.len(),
        skips.len() == d.fields.len(),
    ensures
        leaf_impls(d, skips, n) == leaf_impls(d, skips, i) + (if skips[i] {
            Seq::empty()
        } else {
            leaf_impl(d, d.fields[i])
        }) + post,
    decreases n,
{
    let x = if skips[i] {
        Seq::<STok>::empty()
    } else {
        leaf_impl(d, d.fields[i])
    };
    if n == i + 1 {
        assert(leaf_impls(d, skips, i) + x + Seq::<STok>::empty() =~= leaf_impls(d, skips, i) + x);
        Seq::empty()
    } else {
        let post0 = lemma_leaf_impls_split(d, skips, i, n - 1);
        let last = if skips[n - 1] {
            Seq::<STok>::empty()
        } else {
            leaf_impl(d, d.fields[n - 1])
        };
        assert(leaf_impls(d, skips, i) + x + post0 + last =~= leaf_impls(d, skips, i) + x + (post0
            + last));
        post0 + last
    }
}

/// Every wired field of a context gets its leaf impl.
pub proof fn law_context_field_gets_leaf_impl(d: SStruct, skips: Seq<bool>, i: int)
    requires
        0 <= i < d.fields.len(),
        skips.len() == d.fields.len(),
        !skips[i],
    ensures
        exists|pre: Seq<STok>, post: Seq<STok>|
            leaf_impls(d, skips, d.fields.len() as int) == pre + leaf_impl(d, d.fields[i]) + post,
{
    let post = lemma_leaf_impls_split(d, skips, i, d.fields.len() as int);
    assert(leaf_impls(d, skips, d.fields.len() as int) == leaf_impls(d, skips, i) + leaf_impl(
        d,
        d.fields[i],
    ) + post);
}

/// `#[context(skip)]` keeps a field out of the wiring: the leaf impls are
/// those of the same context without that field.
pub proof fn law_skipped_context_field_writes_nothing(d: SStruct, skips: Seq<bool>, i: int, n: int)
    requires
        0 <= i < n <= d.fields.len(),
        skips.len() == d.fields.len(),
        skips[i],
    ensures
        leaf_impls(d, skips, n) == leaf_impls(
            SStruct { fields: d.fields.remove(i), ..d },
            skips.remove(i),
            n - 1,
        ),
    decreases n,
{
    let d2 = SStruct { fields: d.fields.remove(i), ..d };
    if n == i + 1 {
        lemma_prefix_same(d, skips, i, i);
    } else {
        law_skipped_context_field_writes_nothing(d, skips, i, n - 1);
        assert(d2.fields[n - 2] == d.fields[n - 1]);
        assert(skips.remove(i)[n - 2] == skips[n - 1]);
    }
}

/// Before the removed field, the leaf impls of a context and of the same
/// context without field `i` agree.
proof fn lemma_prefix_same(d: SStruct, skips: Seq<bool>, i: int, m: int)
    requires
        0 <= m <= i < d.fields.len(),
        skips.len() == d.fields.len(),
    ensures
        leaf_impls(d, skips, m) == leaf_impls(
            SStruct { fields: d.fields.remove(i), ..d },
            skips.remove(i),
            m,
        ),
    decreases m,
{
    let d2 = SStruct { fields: d.fields.remove(i), ..d };
    if m > 0 {
        lemma_prefix_same(d, skips, i, m - 1);
        assert(d2.fields[m - 1] == d.fields[m - 1]);
        assert(skips.remove(i)[m - 1] == skips[m - 1]);
        assert(leaf_impl(d2, d2.fields[m - 1]) == leaf_impl(d, d.fields[m - 1]));
    }
}

/// The declarations of the first `n` parameters of one group are those of
/// the first `i`, then that of parameter `i` if it is in the group, then the rest.
proof fn lemma_decls_split(ps: Seq<SParam>, lifetimes: bool, i: int, n: int) -> (post: Seq<STok>)
    requires
        0 <= i < n <= ps.len(),
    ensures
        decls(ps, lifetimes, n) == decls(ps, lifetimes, i) + (if (ps[i].kind == ParamKind::Lifetime)
            == lifetimes {
            ps[i].decl + seq![sp(',')]
        } else {
            Seq::empty()
        }) + post,
    decreases n,
{
    let x = if (ps[i].kind == ParamKind::Lifetime) == lifetimes {
        ps[i].decl + seq![sp(',')]
    } else {
        Seq::<STok>::empty()
    };
    if n == i + 1 {
        assert(decls(ps, lifetimes, i) + x + Seq::<STok>::empty() =~= decls(ps, lifetimes, i) + x);
        Seq::empty()
    } else {
        let post0 = lemma_decls_split(ps, lifetimes, i, n - 1);
        let last = if (ps[n - 1].kind == ParamKind::Lifetime) == lifetimes {
            ps[n - 1].decl + seq![sp(',')]
        } else {
            Seq::<STok>::empty()
        };
        assert(decls(ps, lifetimes, i) + x + post0 + last =~= decls(ps, lifetimes, i) + x + (post0
            + last));
        post0 + last
    }
}

/// The arguments of the first `n` parameters are those of the first `i`,
/// then that of parameter `i`, then the rest.
proof fn lemma_args_split(ps: Seq<SParam>, i: int, n: int) -> (post: Seq<STok>)
    requires
        0 <= i < n <= ps.len(),
    ensures
        args(ps, n) == args(ps, i) + ps[i].arg + seq![sp(',')] + post,
    decreases n,
{
    if n == i + 1 {
        assert(args(ps, i) + ps[i].arg + seq![sp(',')] + Seq::<STok>::empty() =~= args(ps, i) + ps[i].arg
            + seq![sp(',')]);
        Seq::empty()
    } else {
        let post0 = lemma_args_split(ps, i, n - 1);
        let last = ps[n - 1].arg + seq![sp(',')];
        assert(args(ps, i) + ps[i].arg + seq![sp(',')] + post0 + last =~= args(ps, i) + ps[i].arg + seq![
            sp(','),
        ] + (post0 + last));
        post0 + last
    }
}

/// The struct's own generics are kept: the impl declares every parameter as
/// the struct does (without its default), and names the struct with every
/// parameter's argument.
pub proof fn law_generics_kept(ps: Seq<SParam>, i: int)
    requires
        0 <= i < ps.len(),
    ensures
        exists|pre: Seq<STok>, post: Seq<STok>|
            wire_impl_generics(ps) == pre + ps[i].decl + seq![sp(',')] + post,
        exists|pre: Seq<STok>, post: Seq<STok>| type_args(ps) == pre + ps[i].arg + seq![sp(',')] + post,
{
    let n = ps.len() as int;
    let lt = ps[i].kind == ParamKind::Lifetime;
    let p = lemma_decls_split(ps, lt, i, n);
    let mine = ps[i].decl + seq![sp(',')];
    if lt {
        let pre = seq![sp('<')] + decls(ps, true, i);
        let post = p + ctx_ty() + seq![sp(',')] + decls(ps, false, n) + seq![sp('>')];
        assert(wire_impl_generics(ps) =~= pre + ps[i].decl + seq![sp(',')] + post);
    } else {
        let pre = seq![sp('<')] + decls(ps, true, n) + ctx_ty() + seq![sp(',')] + decls(ps, false, i);
        let post = p + seq![sp('>')];
        assert(wire_impl_generics(ps) =~= pre + ps[i].decl + seq![sp(',')] + post);
    }
    let q = lemma_args_split(ps, i, n);
    let pre2 = seq![sp('<')] + args(ps, i);
    let post2 = q + seq![sp('>')];
    assert(type_args(ps) =~= pre2 + ps[i].arg + seq![sp(',')] + post2);
}

} // verus!
