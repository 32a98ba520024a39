//! The two derives, from input token trees to output token trees.
use vstd::prelude::*;
use vstd::string::StringExecFns;
use crate::attrs::{context_skip, field_init, read_context_skip, read_field_init, FieldInit, SInit};
use crate::context::{dup_check, expand_context, find_duplicate, leaf_impls};
use crate::expand::{expand_wire, inits_of, wire_impl};
use crate::model::{fields_of, segs_of, DeriveError, SError, SField, SStruct, Shape};
use crate::parse::{parse_struct, read_struct};
use crate::tokens::{toks_view, STok, Tok};

verus! {

/// The construction rules of fields `fs[i..]`, or the first error among their attributes.
pub open spec fn field_inits(fs: Seq<SField>, i: int) -> Result<Seq<SInit>, SError>
    decreases fs.len() - i,
{
    if i < 0 || i >= fs.len() {
        Ok(Seq::empty())
    } else {
        match field_init(fs[i].attrs, 0, None) {
            Err(e) => Err(e),
            Ok(o) => match field_inits(fs, i + 1) {
                Err(e) => Err(e),
                Ok(rest) => Ok(seq![o] + rest),
            },
        }
    }
}

/// Which of the context fields `fs[i..]` are skipped, or the first error among
/// their attributes.
pub open spec fn context_skips(fs: Seq<SField>, i: int) -> Result<Seq<bool>, SError>
    decreases fs.len() - i,
{
    if i < 0 || i >= fs.len() {
        Ok(Seq::empty())
    } else {
        match context_skip(fs[i].attrs, 0, false) {
            Err(e) => Err(e),
            Ok(b) => match context_skips(fs, i + 1) {
                Err(e) => Err(e),
                Ok(rest) => Ok(seq![b] + rest),
            },
        }
    }
}

/// What `#[derive(Wire)]` makes of input `s`: the `Wire` impl of the struct
/// it declares, or why it refuses it.
pub open spec fn wire_derivation(s: Seq<STok>) -> Result<Seq<STok>, SError> {
    match parse_struct(s) {
        Err(e) => Err(e),
        Ok(d) => match field_inits(d.fields, 0) {
            Err(e) => Err(e),
            Ok(inits) => Ok(wire_impl(d, inits)),
        },
    }
}

/// What `#[derive(Context)]` makes of input `s`: the leaf impls of the
/// context it declares, or why it refuses it.
pub open spec fn context_derivation(s: Seq<STok>) -> Result<Seq<STok>, SError> {
    match parse_struct(s) {
        Err(e) => Err(e),
        Ok(d) => if d.shape == Shape::Tuple {
            Err(SError::ContextNeedsNamedFields)
        } else {
            match context_skips(d.fields, 0) {
                Err(e) => Err(e),
                Ok(skips) => match dup_check(d.fields, skips, 0) {
                    Err(n) => Err(SError::DuplicateContextType(n)),
                    Ok(_) => Ok(leaf_impls(d, skips, d.fields.len() as int)),
                },
            }
        },
    }
}

/// The value of a derive's result.
pub open spec fn output_result(r: Result<Vec<Tok>, DeriveError>) -> Result<Seq<STok>, SError> {
    match r {
        Ok(v) => Ok(toks_view(v@)),
        Err(e) => Err(e@),
    }
}

/// `Ok` results of `context_skips` have one flag per field.
pub proof fn lemma_context_skips_len(fs: Seq<SField>, i: int)
    requires
        0 <= i <= fs.len(),
    ensures
        context_skips(fs, i) matches Ok(v) ==> v.len() == fs.len() - i,
    decreases fs.len() - i,
{
    if i < fs.len() {
        lemma_context_skips_len(fs, i + 1);
    }
}

/// `#[derive(Wire)]`: the `Wire` impl of the struct that `input` declares.
///
/// Each field is built by its rule: wired fields by their own `Wire` impl
/// (and only they add a bound), `#[wire(skip)]` by `Default::default()`,
/// `#[wire(with = path)]` by `path(ctx)`, `#[wire(default = expr)]` by `expr`.
/// An enum or union, a malformed declaration and a bad `wire` attribute are
/// refused, each with its own error.
pub fn derive_wire(input: &Vec<Tok>) -> (r: Result<Vec<Tok>, DeriveError>)
    ensures
        output_result(r) == wire_derivation(toks_view(input@)),
{
    let d = match read_struct(input) {
        Ok(d) => d,
        Err(e) => {
            return Err(e);
        },
    };
    let ghost fv = fields_of(d.fields@);
    let mut inits: Vec<FieldInit> = Vec::new();
    let mut i: usize = 0;
    proof {
        assert(inits_of(inits@) =~= Seq::<SInit>::empty());
    }
    while i < d.fields.len()
        invariant
            i <= d.fields.len(),
            fv == fields_of(d.fields@),
            fv.len() == d.fields.len(),
            parse_struct(toks_view(input@)) == Ok::<SStruct, SError>(d@),
            inits.len() == i,
            field_inits(fv, 0) == match field_inits(fv, i as int) {
                Err(e) => Err(e),
                Ok(rest) => Ok(inits_of(inits@) + rest),
            },
        decreases d.fields.len() - i,
    {
        let r = read_field_init(&d.fields[i].attrs);
        proof {
            assert(fv[i as int].attrs == segs_of(d.fields[i as int].attrs@));
        }
        match r {
            Err(e) => {
                return Err(e);
            },
            Ok(o) => {
                let ghost before = inits@;
                inits.push(o);
                proof {
                    assert(inits_of(inits@) =~= inits_of(before).push(o@));
                    match field_inits(fv, i + 1) {
                        Err(_) => {},
                        Ok(rest) => {
                            assert(inits_of(before) + (seq![o@] + rest) =~= inits_of(inits@) + rest);
                        },
                    }
                }
            },
        }
        i = i + 1;
    }
    proof {
        assert(inits_of(inits@) + Seq::<SInit>::empty() =~= inits_of(inits@));
    }
    Ok(expand_wire(&d, &inits))
}

/// `#[derive(Context)]`: a leaf `Wire` impl for each field of the context
/// that `input` declares, except those marked `#[context(skip)]`.
///
/// Two wired fields of one type would give two conflicting impls: that is
/// refused with an error naming the second field. Tuple structs, enums,
/// unions, malformed declarations and bad `context` attributes are refused too.
pub fn derive_context(input: &Vec<Tok>) -> (r: Result<Vec<Tok>, DeriveError>)
    ensures
        output_result(r) == context_derivation(toks_view(input@)),
{
    let d = match read_struct(input) {
        Ok(d) => d,
        Err(e) => {
            return Err(e);
        },
    };
    if d.shape == Shape::Tuple {
        return Err(DeriveError::ContextNeedsNamedFields);
    }
    let ghost fv = fields_of(d.fields@);
    let mut skips: Vec<bool> = Vec::new();
    let mut i: usize = 0;
    proof {
        assert(skips@ =~= Seq::<bool>::empty());
    }
    while i < d.fields.len()
        invariant
            i <= d.fields.len(),
            fv == fields_of(d.fields@),
            fv.len() == d.fields.len(),
            parse_struct(toks_view(input@)) == Ok::<SStruct, SError>(d@),
            d.shape != Shape::Tuple,
            skips.len() == i,
            context_skips(fv, 0) == match context_skips(fv, i as int) {
                Err(e) => Err(e),
                Ok(rest) => Ok(skips@ + rest),
            },
        decreases d.fields.len() - i,
    {
        let r = read_context_skip(&d.fields[i].attrs);
        proof {
            assert(fv[i as int].attrs == segs_of(d.fields[i as int].attrs@));
        }
        match r {
            Err(e) => {
                return Err(e);
            },
            Ok(b) => {
                let ghost before = skips@;
                skips.push(b);
                proof {
                    match context_skips(fv, i + 1) {
                        Err(_) => {},
                        Ok(rest) => {
                            assert(before + (seq![b] + rest) =~= skips@ + rest);
                        },
                    }
                }
            },
        }
        i = i + 1;
    }
    proof {
        assert(skips@ + Seq::<bool>::empty() =~= skips@);
    }
    match find_duplicate(&d.fields, &skips) {
        Some(j) => {
            let name = match &d.fields[j].name {
                Some(n) => n.clone(),
                None => String::new(),
            };
            proof {
                assert(fv[j as int] == d.fields[j as int]@);
            }
            Err(DeriveError::DuplicateContextType(name))
        },
        None => Ok(expand_context(&d, &skips)),
    }
}

/// The text of the message a derive reports for error `e`.
pub open spec fn message_text(e: SError) -> Seq<char> {
    match e {
        SError::NotAStruct => "this derive supports structs only, not enums or unions"@,
        SError::Malformed => "expected a struct declaration"@,
        SError::BadAttribute => "expected an attribute of the form `wire(..)` or `context(..)`"@,
        SError::UnknownOption => "unknown option: `wire(..)` takes `skip`, `with = path` or `default = expr`, and `context(..)` takes `skip`"@,
        SError::ConflictingOptions => "a field takes at most one `wire` or `context` attribute"@,
        SError::ContextNeedsNamedFields => "Context can only be derived for structs with named fields"@,
        SError::DuplicateContextType(n) => "two context fields have the same type; field `"@ + n
            + "` repeats it: skip one with #[context(skip)] and wire it by hand"@,
    }
}

impl DeriveError {
    /// The message to report for this error.
    pub fn message(&self) -> (r: String)
        ensures
            r@ == message_text(self@),
    {
        match self {
            DeriveError::NotAStruct => String::from_str(
                "this derive supports structs only, not enums or unions",
            ),
            DeriveError::Malformed => String::from_str("expected a struct declaration"),
            DeriveError::BadAttribute => String::from_str(
                "expected an attribute of the form `wire(..)` or `context(..)`",
            ),
            DeriveError::UnknownOption => String::from_str(
                "unknown option: `wire(..)` takes `skip`, `with = path` or `default = expr`, and `context(..)` takes `skip`",
            ),
            DeriveError::ConflictingOptions => String::from_str(
                "a field takes at most one `wire` or `context` attribute",
            ),
            DeriveError::ContextNeedsNamedFields => String::from_str(
                "Context can only be derived for structs with named fields",
            ),
            DeriveError::DuplicateContextType(n) => {
                let head = String::from_str("two context fields have the same type; field `");
                let with_name = head.concat(n.as_str());
                with_name.concat("` repeats it: skip one with #[context(skip)] and wire it by hand")
            },
        }
    }
}

} // verus!
