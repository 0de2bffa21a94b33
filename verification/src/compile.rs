//! The declaration compiler: turns a declared shape plus its resolved
//! attributes into the inline form, the flattened form, and the standalone
//! declaration, applying generics substitution and the enum tagging
//! strategy.
//!
//! Inlining a type expands declared types in place, so a cycle of types
//! marked for inlining has no finite expansion; the compiler carries a
//! fuel bound and reports the type as not inlinable when the bound is
//! exhausted.

use vstd::prelude::*;

use crate::attr::ContainerAttrV;
use crate::error::Error;
use crate::inflection::{apply_spec, Inflection};
use crate::naming::ts_field_spec;
use crate::ty::{
    def_view, field_view, fields_view, generics_view, lemma_fields_view, lemma_subst_wf,
    lemma_substs_spec, lemma_substs_wf, lemma_tys_view, lemma_variants_view, lemma_wf_tys,
    name_spec, names_join, payload_view, repeat_join, shape_view, subst_spec, subst_ty, subst_tys,
    tys_view, ty_view, variant_view, variants_view, wf_def, wf_fields, wf_payload, wf_ty,
    wf_tys, DefV, Field, FieldV, Generic, GenericV, Payload, PayloadV, Registry, Shape, ShapeV,
    TyV, TypeDef, TypeRef, Variant, VariantV, ARRAY_TUPLE_LIMIT,
};

verus! {

/// A failed compilation, as the contracts model it: the shape cannot
/// support the requested operation, or an attribute does not fit the shape.
pub enum CompFail {
    /// The type has no standalone declaration; holds its display name.
    Declare { name: Seq<char> },
    /// The type cannot appear inline; holds its display name.
    Inline { name: Seq<char> },
    /// The type cannot be flattened; holds its display name.
    Flatten { name: Seq<char> },
    /// An attribute conflicts with the shape; holds the description.
    Attr { msg: Seq<char> },
    /// The type cannot be exported on its own; holds its display name.
    Export { name: Seq<char> },
    /// An output path escapes the base directory; holds the path.
    Path { path: Seq<char> },
}

/// Whether the error value renders the modeled failure.
pub open spec fn comp_fail_matches(f: CompFail, e: Error) -> bool {
    match f {
        CompFail::Declare { name } => match e {
            Error::CannotBeDeclared(n) => n@ == name,
            _ => false,
        },
        CompFail::Inline { name } => match e {
            Error::CannotBeInlined(n) => n@ == name,
            _ => false,
        },
        CompFail::Flatten { name } => match e {
            Error::CannotBeFlattened(n) => n@ == name,
            _ => false,
        },
        CompFail::Attr { msg } => match e {
            Error::InvalidAttribute(m) => m@ == msg,
            _ => false,
        },
        CompFail::Export { name } => match e {
            Error::CannotBeExported(n) => n@ == name,
            _ => false,
        },
        CompFail::Path { path } => match e {
            Error::InvalidPath(p) => p@ == path,
            _ => false,
        },
    }
}

/// The enum tagging strategy, resolved once from the container attributes.
pub enum Tagging {
    External,
    Internal { tag: Seq<char> },
    Adjacent { tag: Seq<char>, content: Seq<char> },
    Untagged,
}

/// Resolves the tagging strategy from the container attributes.
pub open spec fn tagging_spec(a: ContainerAttrV) -> Tagging {
    if a.untagged {
        Tagging::Untagged
    } else {
        match a.tag {
            Some(tag) => match a.content {
                Some(content) => Tagging::Adjacent { tag, content },
                None => Tagging::Internal { tag },
            },
            None => Tagging::External,
        }
    }
}

/// The display key of a field or variant: the rename when given, otherwise
/// the naming convention applied to the declared name, otherwise the
/// declared name itself.
pub open spec fn display_name(
    declared: Seq<char>,
    rename: Option<Seq<char>>,
    rename_all: Option<Inflection>,
) -> Seq<char> {
    match rename {
        Some(n) => n,
        None => match rename_all {
            Some(v) => apply_spec(v, declared),
            None => declared,
        },
    }
}

/// Entries joined with `, `; empty entries (a flattened type with nothing
/// to contribute) are passed over without a separator.
pub open spec fn entries_join(es: Seq<Seq<char>>) -> Seq<char>
    decreases es,
{
    if es.len() == 0 {
        Seq::empty()
    } else {
        let rest = entries_join(es.drop_first());
        if es[0].len() == 0 {
            rest
        } else if rest.len() == 0 {
            es[0]
        } else {
            es[0] + ", "@ + rest
        }
    }
}

/// The object form around joined entries: an explicit empty-object marker
/// for no entries, the braced entry list otherwise.
pub open spec fn braced(entries: Seq<char>) -> Seq<char> {
    if entries.len() == 0 {
        "Record<string, never>"@
    } else {
        "{ "@ + entries + " }"@
    }
}

/// The complaint for an `optional` attribute on a field whose type is not
/// optional.
pub open spec fn msg_optional_shape() -> Seq<char> {
    "attribute \"optional\" is only valid on a field of optional type"@
}

/// The complaint for an internally tagged variant whose payload is not
/// struct-shaped.
pub open spec fn msg_internal_payload(vname: Seq<char>) -> Seq<char> {
    "variant \""@ + vname
        + "\" of an internally tagged enum must have a struct-shaped payload or none"@
}

/// A termination measure over type references.
pub open spec fn ty_size_v(t: TyV) -> nat
    decreases t,
{
    match t {
        TyV::Prim { .. } => 1,
        TyV::Optional { inner } => 1 + ty_size_v(*inner),
        TyV::List { inner } => 1 + ty_size_v(*inner),
        TyV::FixedList { inner, .. } => 1 + ty_size_v(*inner),
        TyV::Tuple { items } => 1 + tys_size_v(items),
        TyV::Record { key, value } => 1 + ty_size_v(*key) + ty_size_v(*value),
        TyV::Wrapper { inner } => 1 + ty_size_v(*inner),
        TyV::Named { id, args } => 1 + tys_size_v(args),
        TyV::Param { .. } => 1,
    }
}

/// A termination measure over lists of type references.
pub open spec fn tys_size_v(ts: Seq<TyV>) -> nat
    decreases ts,
{
    if ts.len() == 0 {
        0
    } else {
        ty_size_v(ts[0]) + tys_size_v(ts.drop_first())
    }
}

/// A termination measure over field lists.
pub open spec fn fields_size(fs: Seq<FieldV>) -> nat
    decreases fs,
{
    if fs.len() == 0 {
        1
    } else {
        2 + fields_size(fs.drop_first())
    }
}

/// A termination measure over variant payloads.
pub open spec fn payload_size(p: PayloadV) -> nat {
    match p {
        PayloadV::Struct { fields } => 2 + fields_size(fields),
        _ => 1,
    }
}

/// A termination measure over variants.
pub open spec fn variant_size(v: VariantV) -> nat {
    1 + payload_size(v.payload)
}

/// A termination measure over variant lists.
pub open spec fn variants_size(vs: Seq<VariantV>) -> nat
    decreases vs,
{
    if vs.len() == 0 {
        1
    } else {
        1 + variant_size(vs[0]) + variants_size(vs.drop_first())
    }
}

/// Each variant's measure is below the list's.
pub proof fn lemma_variants_size_index(vs: Seq<VariantV>, i: int)
    requires
        0 <= i < vs.len(),
    ensures
        variant_size(vs[i]) < variants_size(vs),
    decreases vs,
{
    if i > 0 {
        lemma_variants_size_index(vs.drop_first(), i - 1);
        assert(vs.drop_first()[i - 1] == vs[i]);
    }
}

/// A termination measure over shapes.
pub open spec fn shape_size(s: ShapeV) -> nat {
    match s {
        ShapeV::Struct { fields } => 1 + fields_size(fields),
        ShapeV::Enum { variants } => 2 + variants_size(variants),
    }
}

/// The names of the generic parameters, in declaration order.
pub open spec fn generic_names(gs: Seq<GenericV>) -> Seq<Seq<char>> {
    gs.map_values(|g: GenericV| g.name)
}

/// The inline form of a type: the structural expression usable wherever a
/// type reference appears. Fuel bounds the expansion of declared types.
pub open spec fn inline_spec(defs: Seq<DefV>, t: TyV, fuel: nat) -> Result<Seq<char>, CompFail>
    decreases fuel, ty_size_v(t),
{
    match t {
        TyV::Prim { name } => Ok(name),
        TyV::Optional { inner } => match inline_spec(defs, *inner, fuel) {
            Ok(s) => Ok(s + " | null"@),
            Err(f) => Err(f),
        },
        TyV::List { inner } => match inline_spec(defs, *inner, fuel) {
            Ok(s) => Ok("Array<"@ + s + ">"@),
            Err(f) => Err(f),
        },
        TyV::FixedList { inner, len } => match inline_spec(defs, *inner, fuel) {
            Ok(s) => if len > ARRAY_TUPLE_LIMIT {
                Ok("Array<"@ + s + ">"@)
            } else {
                Ok("["@ + repeat_join(s, len) + "]"@)
            },
            Err(f) => Err(f),
        },
        TyV::Tuple { .. } => Err(CompFail::Inline { name: name_spec(defs, t) }),
        TyV::Record { key, value } => match inline_spec(defs, *key, fuel) {
            Ok(k) => match inline_spec(defs, *value, fuel) {
                Ok(v) => Ok("{ [key: "@ + k + "]: "@ + v + " }"@),
                Err(f) => Err(f),
            },
            Err(f) => Err(f),
        },
        TyV::Wrapper { inner } => inline_spec(defs, *inner, fuel),
        TyV::Named { id, args } => if fuel > 0 && id < defs.len() {
            def_inline_spec(defs, defs[id as int], args, (fuel - 1) as nat)
        } else {
            Err(CompFail::Inline { name: name_spec(defs, t) })
        },
        TyV::Param { name } => Ok(name),
    }
}

/// The flattened form of a type: its entries without braces, usable when
/// its keys are merged into a parent object. Only declared struct shapes
/// (possibly behind wrappers) can be flattened.
pub open spec fn inline_flattened_spec(defs: Seq<DefV>, t: TyV, fuel: nat) -> Result<
    Seq<char>,
    CompFail,
>
    decreases fuel, ty_size_v(t),
{
    match t {
        TyV::Wrapper { inner } => inline_flattened_spec(defs, *inner, fuel),
        TyV::Named { id, args } => if fuel > 0 && id < defs.len() {
            let d = defs[id as int];
            if d.attrs.type_override is Some || d.attrs.as_override is Some {
                Err(CompFail::Flatten { name: name_spec(defs, t) })
            } else {
                match d.shape {
                    ShapeV::Struct { fields } => match struct_entries_spec(
                        defs,
                        fields,
                        generic_names(d.generics),
                        args,
                        d.attrs.rename_all,
                        (fuel - 1) as nat,
                    ) {
                        Ok(es) => Ok(entries_join(es)),
                        Err(f) => Err(f),
                    },
                    ShapeV::Enum { .. } => Err(CompFail::Flatten { name: name_spec(defs, t) }),
                }
            }
        } else {
            Err(CompFail::Flatten { name: name_spec(defs, t) })
        },
        _ => Err(CompFail::Flatten { name: name_spec(defs, t) }),
    }
}

/// The `k: T` entry of one field, or its flattened replacement; `None`
/// stands for a skipped field.
pub open spec fn field_entry_spec(defs: Seq<DefV>, f: FieldV, names: Seq<Seq<char>>, args: Seq<
    TyV,
>, rename_all: Option<Inflection>, fuel: nat) -> Result<Option<Seq<char>>, CompFail>
    decreases fuel, 0nat,
{
    if f.attrs.skip {
        Ok(None)
    } else if f.attrs.flatten {
        let ty = subst_spec(f.ty, names, args);
        if fuel > 0 {
            match inline_flattened_spec(defs, ty, (fuel - 1) as nat) {
                Ok(s) => Ok(Some(s)),
                Err(fl) => Err(fl),
            }
        } else {
            Err(CompFail::Flatten { name: name_spec(defs, ty) })
        }
    } else {
        let key = ts_field_spec(display_name(f.name, f.attrs.rename, rename_all));
        let ty = subst_spec(f.ty, names, args);
        if f.attrs.optional {
            match f.attrs.type_override {
                Some(text) => Ok(Some(key + "?: "@ + text)),
                None => match ty {
                    TyV::Optional { inner } => {
                        let base: Result<Seq<char>, CompFail> = match f.attrs.as_override {
                            Some(text) => Ok(text),
                            None => if f.attrs.inline {
                                if fuel > 0 {
                                    inline_spec(defs, *inner, (fuel - 1) as nat)
                                } else {
                                    Err(CompFail::Inline { name: name_spec(defs, *inner) })
                                }
                            } else {
                                Ok(name_spec(defs, *inner))
                            },
                        };
                        match base {
                            Ok(s) => if f.attrs.nullable {
                                Ok(Some(key + "?: "@ + s + " | null"@))
                            } else {
                                Ok(Some(key + "?: "@ + s))
                            },
                            Err(fl) => Err(fl),
                        }
                    },
                    _ => Err(CompFail::Attr { msg: msg_optional_shape() }),
                },
            }
        } else {
            let base: Result<Seq<char>, CompFail> = match f.attrs.type_override {
                Some(text) => Ok(text),
                None => match f.attrs.as_override {
                    Some(text) => Ok(text),
                    None => if f.attrs.inline {
                        if fuel > 0 {
                            inline_spec(defs, ty, (fuel - 1) as nat)
                        } else {
                            Err(CompFail::Inline { name: name_spec(defs, ty) })
                        }
                    } else {
                        Ok(name_spec(defs, ty))
                    },
                },
            };
            match base {
                Ok(s) => Ok(Some(key + ": "@ + s)),
                Err(fl) => Err(fl),
            }
        }
    }
}

/// The entries of a struct shape, in field order, skipped fields omitted.
pub open spec fn struct_entries_spec(defs: Seq<DefV>, fields: Seq<FieldV>, names: Seq<Seq<char>>, args: Seq<
    TyV,
>, rename_all: Option<Inflection>, fuel: nat) -> Result<Seq<Seq<char>>, CompFail>
    decreases fuel, fields_size(fields),
{
    if fields.len() == 0 {
        Ok(Seq::empty())
    } else {
        match field_entry_spec(defs, fields[0], names, args, rename_all, fuel) {
            Ok(e) => match struct_entries_spec(
                defs,
                fields.drop_first(),
                names,
                args,
                rename_all,
                fuel,
            ) {
                Ok(rest) => match e {
                    Some(s) => Ok(seq![s] + rest),
                    None => Ok(rest),
                },
                Err(fl) => Err(fl),
            },
            Err(fl) => Err(fl),
        }
    }
}

/// The inline form of a declared type applied to the given generic
/// arguments: the type override when present, the substitute type's name
/// when present, otherwise the compiled shape.
pub open spec fn def_inline_spec(defs: Seq<DefV>, d: DefV, args: Seq<TyV>, fuel: nat) -> Result<
    Seq<char>,
    CompFail,
>
    decreases fuel, 3 + shape_size(d.shape),
{
    match d.attrs.type_override {
        Some(text) => Ok(text),
        None => match d.attrs.as_override {
            Some(text) => Ok(text),
            None => {
                let names = generic_names(d.generics);
                match d.shape {
                    ShapeV::Struct { fields } => match struct_entries_spec(
                        defs,
                        fields,
                        names,
                        args,
                        d.attrs.rename_all,
                        fuel,
                    ) {
                        Ok(es) => {
                            let all = match d.attrs.tag {
                                Some(tag) => seq![
                                    ts_field_spec(tag) + ": \""@ + d.ts_name + "\""@,
                                ] + es,
                                None => es,
                            };
                            Ok(braced(entries_join(all)))
                        },
                        Err(fl) => Err(fl),
                    },
                    ShapeV::Enum { variants } => enum_inline_spec(defs, d, variants, args, fuel),
                }
            },
        },
    }
}

/// The inline form of an enum: the `|`-joined variants in declaration
/// order, or `never` when nothing remains.
pub open spec fn enum_inline_spec(defs: Seq<DefV>, d: DefV, variants: Seq<VariantV>, args: Seq<
    TyV,
>, fuel: nat) -> Result<Seq<char>, CompFail>
    decreases fuel, 1 + variants_size(variants),
{
    match variants_texts_spec(defs, d, variants, args, fuel) {
        Ok(vs) => if vs.len() == 0 {
            Ok("never"@)
        } else {
            Ok(union_join(vs))
        },
        Err(fl) => Err(fl),
    }
}

/// The compiled variants in order, skipped ones omitted.
pub open spec fn variants_texts_spec(defs: Seq<DefV>, d: DefV, variants: Seq<VariantV>, args: Seq<
    TyV,
>, fuel: nat) -> Result<Seq<Seq<char>>, CompFail>
    decreases fuel, variants_size(variants),
{
    if variants.len() == 0 {
        Ok(Seq::empty())
    } else {
        match variant_text_spec(defs, d, variants[0], args, fuel) {
            Ok(e) => match variants_texts_spec(defs, d, variants.drop_first(), args, fuel) {
                Ok(rest) => match e {
                    Some(s) => Ok(seq![s] + rest),
                    None => Ok(rest),
                },
                Err(fl) => Err(fl),
            },
            Err(fl) => Err(fl),
        }
    }
}

/// The compiled form of one enum variant under the container's tagging
/// strategy; `None` stands for a skipped variant.
pub open spec fn variant_text_spec(defs: Seq<DefV>, d: DefV, v: VariantV, args: Seq<TyV>, fuel: nat) -> Result<
    Option<Seq<char>>,
    CompFail,
>
    decreases fuel, variant_size(v),
{
    if v.attrs.skip {
        Ok(None)
    } else {
        let vname = display_name(v.name, v.attrs.rename, d.attrs.rename_all);
        let names = generic_names(d.generics);
        let field_conv: Option<Inflection> = match v.attrs.rename_all {
            Some(c) => Some(c),
            None => d.attrs.rename_all_fields,
        };
        let strategy = if v.attrs.untagged {
            Tagging::Untagged
        } else {
            tagging_spec(d.attrs)
        };
        match strategy {
            Tagging::External => match v.payload {
                PayloadV::Unit => Ok(Some("\""@ + vname + "\""@)),
                _ => match payload_text_spec(defs, v.payload, names, args, field_conv, fuel) {
                    Ok(p) => Ok(Some("{ \""@ + vname + "\": "@ + p + " }"@)),
                    Err(fl) => Err(fl),
                },
            },
            Tagging::Internal { tag } => {
                let tag_entry = ts_field_spec(tag) + ": \""@ + vname + "\""@;
                match v.payload {
                    PayloadV::Unit => Ok(Some("{ "@ + tag_entry + " }"@)),
                    PayloadV::Struct { fields } => match struct_entries_spec(
                        defs,
                        fields,
                        names,
                        args,
                        field_conv,
                        fuel,
                    ) {
                        Ok(es) => Ok(Some("{ "@ + entries_join(seq![tag_entry] + es) + " }"@)),
                        Err(fl) => Err(fl),
                    },
                    _ => Err(CompFail::Attr { msg: msg_internal_payload(vname) }),
                }
            },
            Tagging::Adjacent { tag, content } => {
                let tag_entry = ts_field_spec(tag) + ": \""@ + vname + "\""@;
                match v.payload {
                    PayloadV::Unit => Ok(Some("{ "@ + tag_entry + " }"@)),
                    _ => match payload_text_spec(defs, v.payload, names, args, field_conv, fuel) {
                        Ok(p) => Ok(
                            Some(
                                "{ "@ + tag_entry + ", "@ + ts_field_spec(content) + ": "@ + p
                                    + " }"@,
                            ),
                        ),
                        Err(fl) => Err(fl),
                    },
                }
            },
            Tagging::Untagged => match v.payload {
                PayloadV::Unit => Ok(Some("null"@)),
                _ => match payload_text_spec(defs, v.payload, names, args, field_conv, fuel) {
                    Ok(p) => Ok(Some(p)),
                    Err(fl) => Err(fl),
                },
            },
        }
    }
}

/// The type expression of a non-unit variant payload: the single field's
/// type name, a positional tuple, or a braced struct body.
pub open spec fn payload_text_spec(defs: Seq<DefV>, p: PayloadV, names: Seq<Seq<char>>, args: Seq<
    TyV,
>, field_conv: Option<Inflection>, fuel: nat) -> Result<Seq<char>, CompFail>
    decreases fuel, payload_size(p),
{
    match p {
        PayloadV::Unit => Ok("null"@),
        PayloadV::Newtype { ty } => Ok(name_spec(defs, subst_spec(ty, names, args))),
        PayloadV::Tuple { items } => Ok(
            "["@ + names_join(defs, items.map_values(|t: TyV| subst_spec(t, names, args))) + "]"@,
        ),
        PayloadV::Struct { fields } => match struct_entries_spec(
            defs,
            fields,
            names,
            args,
            field_conv,
            fuel,
        ) {
            Ok(es) => Ok(braced(entries_join(es))),
            Err(fl) => Err(fl),
        },
    }
}

/// Variant forms joined with ` | `.
pub open spec fn union_join(vs: Seq<Seq<char>>) -> Seq<char>
    decreases vs,
{
    if vs.len() == 0 {
        Seq::empty()
    } else if vs.len() == 1 {
        vs[0]
    } else {
        vs[0] + " | "@ + union_join(vs.drop_first())
    }
}

/// One more entry extends the joined entries by a separator and the entry,
/// except that empty parts join silently.
pub proof fn lemma_entries_join_push(es: Seq<Seq<char>>, e: Seq<char>)
    ensures
        entries_join(es.push(e)) == (if e.len() == 0 {
            entries_join(es)
        } else if entries_join(es).len() == 0 {
            e
        } else {
            entries_join(es) + ", "@ + e
        }),
    decreases es,
{
    if es.len() == 0 {
        assert(es.push(e)[0] == e);
        assert(es.push(e).drop_first() =~= Seq::<Seq<char>>::empty());
        assert(entries_join(Seq::<Seq<char>>::empty()) == Seq::<char>::empty());
        assert(entries_join(es) == Seq::<char>::empty());
        assert(entries_join(es.push(e)) == (if e.len() == 0 {
            entries_join(es)
        } else if entries_join(es).len() == 0 {
            e
        } else {
            entries_join(es) + ", "@ + e
        }));
    } else {
        lemma_entries_join_push(es.drop_first(), e);
        assert(es.push(e)[0] == es[0]);
        assert(es.push(e).drop_first() =~= es.drop_first().push(e));
        let r = entries_join(es.drop_first());
        let rest = entries_join(es.drop_first().push(e));
        assert(entries_join(es.push(e)) == (if es[0].len() == 0 {
            rest
        } else if rest.len() == 0 {
            es[0]
        } else {
            es[0] + ", "@ + rest
        }));
        if e.len() == 0 {
            assert(rest == r);
        } else if r.len() == 0 {
            assert(rest == e);
            assert(rest.len() > 0);
            if es[0].len() == 0 {
                assert(entries_join(es) == r);
            } else {
                assert(entries_join(es) == es[0]);
            }
        } else {
            assert(rest == r + ", "@ + e);
            assert(rest.len() > 0);
            if es[0].len() == 0 {
                assert(entries_join(es) == r);
            } else {
                assert(entries_join(es) == es[0] + ", "@ + r);
                assert(es[0] + ", "@ + (r + ", "@ + e) =~= (es[0] + ", "@ + r) + ", "@ + e);
            }
        }
    }
}

/// One more variant extends the joined union by a separator and the
/// variant.
pub proof fn lemma_union_join_push(vs: Seq<Seq<char>>, v: Seq<char>)
    ensures
        vs.len() == 0 ==> union_join(vs.push(v)) == v,
        vs.len() > 0 ==> union_join(vs.push(v)) == union_join(vs) + " | "@ + v,
    decreases vs,
{
    if vs.len() == 0 {
        assert(vs.push(v)[0] == v);
    } else if vs.len() == 1 {
        assert(vs.push(v)[0] == vs[0]);
        assert(vs.push(v).drop_first() =~= seq![v]);
        assert(union_join(seq![v]) == v);
    } else {
        lemma_union_join_push(vs.drop_first(), v);
        assert(vs.push(v)[0] == vs[0]);
        assert(vs.push(v).drop_first() =~= vs.drop_first().push(v));
        assert(vs[0] + " | "@ + (union_join(vs.drop_first()) + " | "@ + v) =~= (vs[0] + " | "@
            + union_join(vs.drop_first())) + " | "@ + v);
    }
}

/// Whether the error value renders the modeled string outcome.
pub open spec fn str_res_matches(sr: Result<Seq<char>, CompFail>, r: Result<String, Error>) -> bool {
    match sr {
        Ok(s) => match r {
            Ok(x) => x@ == s,
            Err(_) => false,
        },
        Err(f) => match r {
            Ok(_) => false,
            Err(e) => comp_fail_matches(f, e),
        },
    }
}

/// Whether the result renders the modeled entry outcome.
pub open spec fn entry_res_matches(
    sr: Result<Option<Seq<char>>, CompFail>,
    r: Result<Option<String>, Error>,
) -> bool {
    match sr {
        Ok(Some(s)) => match r {
            Ok(Some(x)) => x@ == s,
            _ => false,
        },
        Ok(None) => r matches Ok(None),
        Err(f) => match r {
            Ok(_) => false,
            Err(e) => comp_fail_matches(f, e),
        },
    }
}

/// Whether the result renders the modeled entry-list outcome.
pub open spec fn entries_res_matches(
    sr: Result<Seq<Seq<char>>, CompFail>,
    r: Result<Vec<String>, Error>,
) -> bool {
    match sr {
        Ok(es) => match r {
            Ok(v) => v@.map_values(|x: String| x@) == es,
            Err(_) => false,
        },
        Err(f) => match r {
            Ok(_) => false,
            Err(e) => comp_fail_matches(f, e),
        },
    }
}

/// Joins entries with `, `, passing over empty ones.
#[verifier::loop_isolation(false)]
pub fn join_entries(entries: &Vec<String>) -> (r: String)
    ensures
        r@ == entries_join(entries@.map_values(|x: String| x@)),
{
    let ghost ges = entries@.map_values(|x: String| x@);
    let mut r = String::new();
    let mut i: usize = 0;
    while i < entries.len()
        invariant
            i <= entries@.len(),
            r@ == entries_join(ges.take(i as int)),
        decreases entries@.len() - i,
    {
        if !entries[i].as_str().is_empty() {
            if !r.as_str().is_empty() {
                r.append(", ");
            }
            r.append(entries[i].as_str());
        }
        proof {
            assert(ges.take(i + 1) =~= ges.take(i as int).push(ges[i as int]));
            lemma_entries_join_push(ges.take(i as int), ges[i as int]);
        }
        i = i + 1;
    }
    proof {
        assert(ges.take(entries@.len() as int) =~= ges);
    }
    r
}

/// Wraps joined entries in braces, or produces the empty-object marker.
pub fn braced_text(entries: String) -> (r: String)
    ensures
        r@ == braced(entries@),
{
    if entries.as_str().is_empty() {
        "Record<string, never>".to_owned()
    } else {
        let mut r = String::new();
        r.append("{ ");
        r.append(entries.as_str());
        r.append(" }");
        r
    }
}

/// The generic parameters of a declaration referenced as opaque
/// placeholders, one per parameter.
pub open spec fn param_args(gs: Seq<GenericV>) -> Seq<TyV> {
    gs.map_values(|g: GenericV| TyV::Param { name: g.name })
}

/// The names of the generic parameters, as strings.
#[verifier::loop_isolation(false)]
pub fn generic_name_vec(gs: &Vec<crate::ty::Generic>) -> (r: Vec<String>)
    ensures
        r@.map_values(|s: String| s@) == generic_names(crate::ty::generics_view(gs@)),
        r@.len() == gs@.len(),
{
    let mut r: Vec<String> = Vec::new();
    let mut i: usize = 0;
    while i < gs.len()
        invariant
            i <= gs@.len(),
            r@.len() == i,
            forall|j: int| 0 <= j < i ==> (#[trigger] r@[j])@ == gs@[j].name@,
        decreases gs@.len() - i,
    {
        r.push(gs[i].name.clone());
        i = i + 1;
    }
    proof {
        assert(r@.map_values(|s: String| s@) =~= generic_names(crate::ty::generics_view(gs@)));
    }
    r
}

/// The generic parameters referenced as opaque placeholder types.
#[verifier::loop_isolation(false)]
pub fn param_args_vec(gs: &Vec<crate::ty::Generic>) -> (r: Vec<TypeRef>)
    ensures
        crate::ty::tys_view(r@) == param_args(crate::ty::generics_view(gs@)),
        r@.len() == gs@.len(),
{
    let mut r: Vec<TypeRef> = Vec::new();
    let mut i: usize = 0;
    while i < gs.len()
        invariant
            i <= gs@.len(),
            r@.len() == i,
            forall|j: int|
                0 <= j < i ==> crate::ty::ty_view(#[trigger] r@[j]) == (TyV::Param {
                    name: gs@[j].name@,
                }),
        decreases gs@.len() - i,
    {
        r.push(TypeRef::Param { name: gs[i].name.clone() });
        i = i + 1;
    }
    proof {
        crate::ty::lemma_tys_view(r@);
        assert forall|j: int| 0 <= j < gs@.len() implies crate::ty::tys_view(r@)[j] == param_args(
            crate::ty::generics_view(gs@),
        )[j] by {
            assert(crate::ty::tys_view(r@)[j] == crate::ty::ty_view(r@[j]));
        }
        assert(crate::ty::tys_view(r@) =~= param_args(crate::ty::generics_view(gs@)));
    }
    r
}

/// The display key of a field: rename, else the convention applied to the
/// declared name, else the declared name; quoted when not a bare key.
pub fn display_key(
    declared: &String,
    rename: &Option<String>,
    rename_all: &Option<Inflection>,
) -> (r: String)
    ensures
        r@ == ts_field_spec(
            display_name(declared@, crate::attr::opt_view(*rename), *rename_all),
        ),
{
    let base = match rename {
        Some(n) => n.clone(),
        None => match rename_all {
            Some(v) => v.apply(declared.as_str()),
            None => declared.clone(),
        },
    };
    crate::naming::raw_name_to_ts_field(base)
}

impl Registry {
    /// The inline form of the type, within the given expansion fuel.
    #[verifier::loop_isolation(false)]
    pub fn inline_fuel(&self, t: &TypeRef, fuel: usize) -> (r: Result<String, Error>)
        requires
            self.wf(),
            wf_ty(self@, t@),
        ensures
            str_res_matches(inline_spec(self@, t@, fuel as nat), r),
        decreases fuel as nat, ty_size_v(t@),
    {
        match t {
            TypeRef::Prim { name } => Ok(name.clone()),
            TypeRef::Param { name } => Ok(name.clone()),
            TypeRef::Optional { inner } => {
                let s = self.inline_fuel(inner, fuel)?;
                let mut x = s;
                x.append(" | null");
                Ok(x)
            },
            TypeRef::List { inner } => {
                let s = self.inline_fuel(inner, fuel)?;
                let mut x = String::new();
                x.append("Array<");
                x.append(s.as_str());
                x.append(">");
                Ok(x)
            },
            TypeRef::FixedList { inner, len } => {
                let s = self.inline_fuel(inner, fuel)?;
                if *len > ARRAY_TUPLE_LIMIT {
                    let mut x = String::new();
                    x.append("Array<");
                    x.append(s.as_str());
                    x.append(">");
                    Ok(x)
                } else {
                    let mut x = String::new();
                    x.append("[");
                    let mut i: usize = 0;
                    while i < *len
                        invariant
                            i <= *len,
                            x@ == "["@ + repeat_join(s@, i as nat),
                        decreases *len - i,
                    {
                        if i > 0 {
                            x.append(", ");
                        }
                        x.append(s.as_str());
                        proof {
                            crate::ty::lemma_repeat_join_push(s@, i as nat);
                        }
                        i = i + 1;
                    }
                    x.append("]");
                    Ok(x)
                }
            },
            TypeRef::Tuple { .. } => Err(Error::CannotBeInlined(self.name_of(t))),
            TypeRef::Record { key, value } => {
                let k = self.inline_fuel(key, fuel)?;
                let v = self.inline_fuel(value, fuel)?;
                let mut x = String::new();
                x.append("{ [key: ");
                x.append(k.as_str());
                x.append("]: ");
                x.append(v.as_str());
                x.append(" }");
                Ok(x)
            },
            TypeRef::Wrapper { inner } => self.inline_fuel(inner, fuel),
            TypeRef::Named { id, args } => {
                if fuel == 0 {
                    Err(Error::CannotBeInlined(self.name_of(t)))
                } else {
                    proof {
                        assert(self@[*id as int] == def_view(self.defs@[*id as int]));
                        assert(wf_def(self@, self@[*id as int]));
                        lemma_tys_view(args@);
                    }
                    self.def_inline_fuel(&self.defs[*id], args, fuel - 1)
                }
            },
        }
    }

    /// The inline form of a declared type applied to the given generic
    /// arguments, within the given expansion fuel.
    #[verifier::loop_isolation(false)]
    pub fn def_inline_fuel(&self, d: &TypeDef, args: &Vec<TypeRef>, fuel: usize) -> (r: Result<
        String,
        Error,
    >)
        requires
            self.wf(),
            wf_def(self@, def_view(*d)),
            wf_tys(self@, tys_view(args@)),
            tys_view(args@).len() == def_view(*d).generics.len(),
        ensures
            str_res_matches(
                def_inline_spec(self@, def_view(*d), tys_view(args@), fuel as nat),
                r,
            ),
        decreases fuel as nat, 3 + shape_size(def_view(*d).shape),
    {
        match &d.attrs.type_override {
            Some(text) => {
                return Ok(text.clone());
            },
            None => {},
        }
        match &d.attrs.as_override {
            Some(text) => {
                return Ok(text.clone());
            },
            None => {},
        }
        let names = generic_name_vec(&d.generics);
        match &d.shape {
            Shape::Struct { fields } => {
                proof {
                    lemma_tys_view(args@);
                    assert(def_view(*d).shape == shape_view(d.shape));
                }
                let es = self.struct_entries_fuel(fields, &names, args, d.attrs.rename_all, fuel)?;
                let mut all: Vec<String> = Vec::new();
                match &d.attrs.tag {
                    Some(tag) => {
                        let mut entry = crate::naming::raw_name_to_ts_field(tag.clone());
                        entry.append(": \"");
                        entry.append(d.ts_name.as_str());
                        entry.append("\"");
                        proof {
                            assert(entry@ == ts_field_spec(tag@) + ": \""@ + d.ts_name@ + "\""@);
                        }
                        all.push(entry);
                    },
                    None => {},
                }
                let ghost prefix = all@.map_values(|x: String| x@);
                proof {
                    match def_view(*d).attrs.tag {
                        Some(gt) => {
                            assert(prefix =~= seq![ts_field_spec(gt) + ": \""@ + def_view(*d).ts_name + "\""@]);
                        },
                        None => {
                            assert(prefix =~= Seq::<Seq<char>>::empty());
                        },
                    }
                }
                let mut i: usize = 0;
                while i < es.len()
                    invariant
                        i <= es@.len(),
                        all@.map_values(|x: String| x@) == prefix + es@.map_values(
                            |x: String| x@,
                        ).take(i as int),
                    decreases es@.len() - i,
                {
                    all.push(es[i].clone());
                    proof {
                        let esv = es@.map_values(|x: String| x@);
                        assert(esv.take(i + 1) =~= esv.take(i as int).push(esv[i as int]));
                        assert(all@.map_values(|x: String| x@) =~= (prefix + esv.take(
                            i as int,
                        )).push(esv[i as int]));
                        assert((prefix + esv.take(i as int)).push(esv[i as int]) =~= prefix
                            + esv.take(i as int).push(esv[i as int]));
                    }
                    i = i + 1;
                }
                proof {
                    let esv = es@.map_values(|x: String| x@);
                    assert(esv.take(es@.len() as int) =~= esv);
                    if !(d.attrs@.tag is Some) {
                        assert(prefix =~= Seq::<Seq<char>>::empty());
                        assert(prefix + esv =~= esv);
                    }
                }
                let joined = join_entries(&all);
                Ok(braced_text(joined))
            },
            Shape::Enum { variants } => {
                proof {
                    lemma_tys_view(args@);
                    assert(def_view(*d).shape == shape_view(d.shape));
                    assert(def_view(*d).shape == (ShapeV::Enum { variants: variants_view(variants@) }));
                }
                self.enum_inline_fuel(d, variants, args, fuel)
            },
        }
    }

    /// The inline form of an enum, within the given expansion fuel.
    #[verifier::loop_isolation(false)]
    pub fn enum_inline_fuel(
        &self,
        d: &TypeDef,
        variants: &Vec<Variant>,
        args: &Vec<TypeRef>,
        fuel: usize,
    ) -> (r: Result<String, Error>)
        requires
            self.wf(),
            forall|i: int|
                0 <= i < variants_view(variants@).len() ==> wf_payload(
                    self@,
                    (#[trigger] variants_view(variants@)[i]).payload,
                ),
            wf_tys(self@, tys_view(args@)),
            def_view(*d).generics.len() == args@.len(),
        ensures
            str_res_matches(
                enum_inline_spec(self@, def_view(*d), variants_view(variants@), tys_view(args@), fuel as nat),
                r,
            ),
        decreases fuel as nat, 1 + variants_size(variants_view(variants@)),
    {
        let texts = self.variants_texts_fuel(d, variants, args, fuel)?;
        if texts.len() == 0 {
            Ok("never".to_owned())
        } else {
            Ok(union_text(&texts))
        }
    }

    /// The compiled variants in order, skipped ones omitted.
    #[verifier::loop_isolation(false)]
    pub fn variants_texts_fuel(
        &self,
        d: &TypeDef,
        variants: &Vec<Variant>,
        args: &Vec<TypeRef>,
        fuel: usize,
    ) -> (r: Result<Vec<String>, Error>)
        requires
            self.wf(),
            forall|i: int|
                0 <= i < variants_view(variants@).len() ==> wf_payload(
                    self@,
                    (#[trigger] variants_view(variants@)[i]).payload,
                ),
            wf_tys(self@, tys_view(args@)),
            def_view(*d).generics.len() == args@.len(),
        ensures
            entries_res_matches(
                variants_texts_spec(self@, def_view(*d), variants_view(variants@), tys_view(args@), fuel as nat),
                r,
            ),
        decreases fuel as nat, variants_size(variants_view(variants@)),
    {
        let ghost gargs = tys_view(args@);
        let ghost vv = variants_view(variants@);
        proof {
            lemma_variants_view(variants@);
        }
        let mut acc: Vec<String> = Vec::new();
        let mut i: usize = 0;
        proof {
            assert(vv.skip(0) =~= vv);
            assert(acc@.map_values(|x: String| x@) =~= Seq::<Seq<char>>::empty());
            match variants_texts_spec(self@, def_view(*d), vv, gargs, fuel as nat) {
                Ok(rest) => {
                    assert(Seq::<Seq<char>>::empty() + rest =~= rest);
                },
                Err(_) => {},
            }
        }
        while i < variants.len()
            invariant
                i <= variants@.len(),
                variants_texts_spec(self@, def_view(*d), vv, gargs, fuel as nat) == (
                match variants_texts_spec(
                    self@,
                    def_view(*d),
                    vv.skip(i as int),
                    gargs,
                    fuel as nat,
                ) {
                    Ok(rest) => Ok::<Seq<Seq<char>>, CompFail>(
                        acc@.map_values(|x: String| x@) + rest,
                    ),
                    Err(f) => Err(f),
                }),
            decreases variants@.len() - i,
        {
            let ghost accv = acc@.map_values(|x: String| x@);
            proof {
                assert(vv.skip(i as int)[0] == variant_view(variants@[i as int]));
                assert(vv.skip(i as int).drop_first() =~= vv.skip(i + 1));
                lemma_variants_size_index(vv, i as int);
            }
            let e = self.variant_text_fuel(d, &variants[i], args, fuel)?;
            match e {
                Some(s) => {
                    let ghost sv = s@;
                    acc.push(s);
                    proof {
                        assert(acc@.map_values(|x: String| x@) =~= accv.push(sv));
                        match variants_texts_spec(
                            self@,
                            def_view(*d),
                            vv.skip(i + 1),
                            gargs,
                            fuel as nat,
                        ) {
                            Ok(rest2) => {
                                assert(accv.push(sv) + rest2 =~= accv + (seq![sv] + rest2));
                            },
                            Err(_) => {},
                        }
                    }
                },
                None => {},
            }
            i = i + 1;
        }
        proof {
            assert(vv.skip(variants@.len() as int) =~= Seq::<VariantV>::empty());
            assert(acc@.map_values(|x: String| x@) + Seq::<Seq<char>>::empty() =~= acc@.map_values(
                |x: String| x@,
            ));
        }
        Ok(acc)
    }

    /// The compiled form of one variant under the container's tagging
    /// strategy, or nothing for a skipped variant.
    #[verifier::loop_isolation(false)]
    #[verifier::rlimit(100)]
    pub fn variant_text_fuel(
        &self,
        d: &TypeDef,
        v: &Variant,
        args: &Vec<TypeRef>,
        fuel: usize,
    ) -> (r: Result<Option<String>, Error>)
        requires
            self.wf(),
            wf_payload(self@, payload_view(v.payload)),
            wf_tys(self@, tys_view(args@)),
            def_view(*d).generics.len() == args@.len(),
        ensures
            entry_res_matches(
                variant_text_spec(self@, def_view(*d), variant_view(*v), tys_view(args@), fuel as nat),
                r,
            ),
        decreases fuel as nat, variant_size(variant_view(*v)),
    {
        if v.attrs.skip {
            return Ok(None);
        }
        let vname = match &v.attrs.rename {
            Some(n) => n.clone(),
            None => match &d.attrs.rename_all {
                Some(c) => c.apply(v.name.as_str()),
                None => v.name.clone(),
            },
        };
        let names = generic_name_vec(&d.generics);
        let field_conv = match v.attrs.rename_all {
            Some(c) => Some(c),
            None => d.attrs.rename_all_fields,
        };
        let untagged = v.attrs.untagged || d.attrs.untagged;
        if untagged {
            match &v.payload {
                Payload::Unit => Ok(Some("null".to_owned())),
                _ => {
                    let p = self.payload_text_fuel(&v.payload, &names, args, field_conv, fuel)?;
                    Ok(Some(p))
                },
            }
        } else {
            match &d.attrs.tag {
                None => {
                    match &v.payload {
                        Payload::Unit => {
                            let mut x = String::new();
                            x.append("\"");
                            x.append(vname.as_str());
                            x.append("\"");
                            Ok(Some(x))
                        },
                        _ => {
                            let p = self.payload_text_fuel(
                                &v.payload,
                                &names,
                                args,
                                field_conv,
                                fuel,
                            )?;
                            let mut x = String::new();
                            x.append("{ \"");
                            x.append(vname.as_str());
                            x.append("\": ");
                            x.append(p.as_str());
                            x.append(" }");
                            Ok(Some(x))
                        },
                    }
                },
                Some(tag) => {
                    let mut tag_entry = crate::naming::raw_name_to_ts_field(tag.clone());
                    tag_entry.append(": \"");
                    tag_entry.append(vname.as_str());
                    tag_entry.append("\"");
                    match &d.attrs.content {
                        None => {
                            // internally tagged
                            match &v.payload {
                                Payload::Unit => {
                                    let mut x = String::new();
                                    x.append("{ ");
                                    x.append(tag_entry.as_str());
                                    x.append(" }");
                                    Ok(Some(x))
                                },
                                Payload::Struct { fields } => {
                                    let es = self.struct_entries_fuel(
                                        fields,
                                        &names,
                                        args,
                                        field_conv,
                                        fuel,
                                    )?;
                                    Ok(Some(object_with_entries(tag_entry, &es)))
                                },
                                _ => {
                                    let mut m = String::new();
                                    m.append("variant \"");
                                    m.append(vname.as_str());
                                    m.append(
                                        "\" of an internally tagged enum must have a struct-shaped payload or none",
                                    );
                                    Err(Error::InvalidAttribute(m))
                                },
                            }
                        },
                        Some(content) => {
                            // adjacently tagged
                            match &v.payload {
                                Payload::Unit => {
                                    let mut x = String::new();
                                    x.append("{ ");
                                    x.append(tag_entry.as_str());
                                    x.append(" }");
                                    Ok(Some(x))
                                },
                                _ => {
                                    let p = self.payload_text_fuel(
                                        &v.payload,
                                        &names,
                                        args,
                                        field_conv,
                                        fuel,
                                    )?;
                                    let ckey = crate::naming::raw_name_to_ts_field(
                                        content.clone(),
                                    );
                                    let mut x = String::new();
                                    x.append("{ ");
                                    x.append(tag_entry.as_str());
                                    x.append(", ");
                                    x.append(ckey.as_str());
                                    x.append(": ");
                                    x.append(p.as_str());
                                    x.append(" }");
                                    Ok(Some(x))
                                },
                            }
                        },
                    }
                },
            }
        }
    }

    /// The type expression of a variant payload.
    #[verifier::loop_isolation(false)]
    pub fn payload_text_fuel(
        &self,
        p: &Payload,
        names: &Vec<String>,
        args: &Vec<TypeRef>,
        field_conv: Option<Inflection>,
        fuel: usize,
    ) -> (r: Result<String, Error>)
        requires
            self.wf(),
            wf_payload(self@, payload_view(*p)),
            wf_tys(self@, tys_view(args@)),
            names@.len() == args@.len(),
        ensures
            str_res_matches(
                payload_text_spec(
                    self@,
                    payload_view(*p),
                    names@.map_values(|s: String| s@),
                    tys_view(args@),
                    field_conv,
                    fuel as nat,
                ),
                r,
            ),
        decreases fuel as nat, payload_size(payload_view(*p)),
    {
        let ghost gnames = names@.map_values(|s: String| s@);
        let ghost gargs = tys_view(args@);
        match p {
            Payload::Unit => Ok("null".to_owned()),
            Payload::Newtype { ty } => {
                let st = subst_ty(ty, names, args);
                proof {
                    lemma_subst_wf(self@, ty_view(*ty), gnames, gargs);
                }
                Ok(self.name_of(&st))
            },
            Payload::Tuple { items } => {
                let subbed = subst_tys(items, names, args);
                proof {
                    lemma_tys_view(items@);
                    lemma_wf_tys(self@, tys_view(items@));
                    lemma_substs_wf(self@, tys_view(items@), gnames, gargs);
                    lemma_substs_spec(tys_view(items@), gnames, gargs);
                    assert(tys_view(subbed@) =~= tys_view(items@).map_values(
                        |t: TyV| subst_spec(t, gnames, gargs),
                    ));
                }
                let joined = self.names_of(&subbed);
                let mut x = String::new();
                x.append("[");
                x.append(joined.as_str());
                x.append("]");
                Ok(x)
            },
            Payload::Struct { fields } => {
                let es = self.struct_entries_fuel(fields, names, args, field_conv, fuel)?;
                let joined = join_entries(&es);
                Ok(braced_text(joined))
            },
        }
    }
}

/// Variant forms joined with ` | `.
#[verifier::loop_isolation(false)]
pub fn union_text(parts: &Vec<String>) -> (r: String)
    ensures
        r@ == union_join(parts@.map_values(|x: String| x@)),
{
    let ghost pv = parts@.map_values(|x: String| x@);
    let mut r = String::new();
    let mut i: usize = 0;
    while i < parts.len()
        invariant
            i <= parts@.len(),
            r@ == union_join(pv.take(i as int)),
        decreases parts@.len() - i,
    {
        if i > 0 {
            r.append(" | ");
        }
        r.append(parts[i].as_str());
        proof {
            assert(pv.take(i + 1) =~= pv.take(i as int).push(pv[i as int]));
            lemma_union_join_push(pv.take(i as int), pv[i as int]);
        }
        i = i + 1;
    }
    proof {
        assert(pv.take(parts@.len() as int) =~= pv);
    }
    r
}

/// The braced object form whose first entry is the given one, followed by
/// the other entries.
#[verifier::loop_isolation(false)]
pub fn object_with_entries(tag_entry: String, es: &Vec<String>) -> (r: String)
    ensures
        r@ == "{ "@ + entries_join(seq![tag_entry@] + es@.map_values(|x: String| x@)) + " }"@,
{
    let ghost tev = tag_entry@;
    let mut all: Vec<String> = Vec::new();
    all.push(tag_entry);
    let ghost prefix = all@.map_values(|x: String| x@);
    let mut i: usize = 0;
    proof {
        assert(prefix =~= seq![tev]);
    }
    while i < es.len()
        invariant
            i <= es@.len(),
            all@.map_values(|x: String| x@) == prefix + es@.map_values(|x: String| x@).take(
                i as int,
            ),
        decreases es@.len() - i,
    {
        all.push(es[i].clone());
        proof {
            let esv = es@.map_values(|x: String| x@);
            assert(esv.take(i + 1) =~= esv.take(i as int).push(esv[i as int]));
            assert(all@.map_values(|x: String| x@) =~= (prefix + esv.take(i as int)).push(
                esv[i as int],
            ));
            assert((prefix + esv.take(i as int)).push(esv[i as int]) =~= prefix + esv.take(
                i as int,
            ).push(esv[i as int]));
        }
        i = i + 1;
    }
    proof {
        let esv = es@.map_values(|x: String| x@);
        assert(esv.take(es@.len() as int) =~= esv);
    }
    let joined = join_entries(&all);
    let mut x = String::new();
    x.append("{ ");
    x.append(joined.as_str());
    x.append(" }");
    x
}

impl Registry {
    /// The flattened form of the type, within the given expansion fuel.
    #[verifier::loop_isolation(false)]
    pub fn inline_flattened_fuel(&self, t: &TypeRef, fuel: usize) -> (r: Result<String, Error>)
        requires
            self.wf(),
            wf_ty(self@, t@),
        ensures
            str_res_matches(inline_flattened_spec(self@, t@, fuel as nat), r),
        decreases fuel as nat, ty_size_v(t@),
    {
        match t {
            TypeRef::Wrapper { inner } => self.inline_flattened_fuel(inner, fuel),
            TypeRef::Named { id, args } => {
                if fuel == 0 {
                    return Err(Error::CannotBeFlattened(self.name_of(t)));
                }
                let d = &self.defs[*id];
                proof {
                    assert(self@[*id as int] == def_view(self.defs@[*id as int]));
                    assert(wf_def(self@, self@[*id as int]));
                    lemma_tys_view(args@);
                }
                if d.attrs.type_override.is_some() || d.attrs.as_override.is_some() {
                    return Err(Error::CannotBeFlattened(self.name_of(t)));
                }
                match &d.shape {
                    Shape::Struct { fields } => {
                        let names = generic_name_vec(&d.generics);
                        let es = self.struct_entries_fuel(
                            fields,
                            &names,
                            args,
                            d.attrs.rename_all,
                            fuel - 1,
                        )?;
                        Ok(join_entries(&es))
                    },
                    Shape::Enum { .. } => Err(Error::CannotBeFlattened(self.name_of(t))),
                }
            },
            _ => Err(Error::CannotBeFlattened(self.name_of(t))),
        }
    }

    /// The entries of a struct shape, in field order, skipped fields
    /// omitted.
    #[verifier::loop_isolation(false)]
    pub fn struct_entries_fuel(
        &self,
        fields: &Vec<Field>,
        names: &Vec<String>,
        args: &Vec<TypeRef>,
        rename_all: Option<Inflection>,
        fuel: usize,
    ) -> (r: Result<Vec<String>, Error>)
        requires
            self.wf(),
            wf_fields(self@, fields_view(fields@)),
            wf_tys(self@, tys_view(args@)),
            names@.len() == args@.len(),
        ensures
            entries_res_matches(
                struct_entries_spec(
                    self@,
                    fields_view(fields@),
                    names@.map_values(|s: String| s@),
                    tys_view(args@),
                    rename_all,
                    fuel as nat,
                ),
                r,
            ),
        decreases fuel as nat, fields_size(fields_view(fields@)),
    {
        let ghost gnames = names@.map_values(|s: String| s@);
        let ghost gargs = tys_view(args@);
        let ghost fv = fields_view(fields@);
        proof {
            lemma_fields_view(fields@);
        }
        let mut acc: Vec<String> = Vec::new();
        let mut i: usize = 0;
        proof {
            assert(fv.skip(0) =~= fv);
            assert(acc@.map_values(|x: String| x@) =~= Seq::<Seq<char>>::empty());
            match struct_entries_spec(self@, fv, gnames, gargs, rename_all, fuel as nat) {
                Ok(rest) => {
                    assert(Seq::<Seq<char>>::empty() + rest =~= rest);
                },
                Err(_) => {},
            }
        }
        while i < fields.len()
            invariant
                i <= fields@.len(),
                struct_entries_spec(self@, fv, gnames, gargs, rename_all, fuel as nat) == (
                match struct_entries_spec(
                    self@,
                    fv.skip(i as int),
                    gnames,
                    gargs,
                    rename_all,
                    fuel as nat,
                ) {
                    Ok(rest) => Ok::<Seq<Seq<char>>, CompFail>(
                        acc@.map_values(|x: String| x@) + rest,
                    ),
                    Err(f) => Err(f),
                }),
            decreases fields@.len() - i,
        {
            let ghost accv = acc@.map_values(|x: String| x@);
            proof {
                assert(fv.skip(i as int)[0] == field_view(fields@[i as int]));
                assert(fv.skip(i as int).drop_first() =~= fv.skip(i + 1));
                assert(fields_size(fv.skip(i as int)) >= 2);
            }
            let e = self.field_entry_fuel(&fields[i], names, args, rename_all, fuel)?;
            match e {
                Some(s) => {
                    let ghost sv = s@;
                    acc.push(s);
                    proof {
                        assert(acc@.map_values(|x: String| x@) =~= accv.push(sv));
                        match struct_entries_spec(
                            self@,
                            fv.skip(i + 1),
                            gnames,
                            gargs,
                            rename_all,
                            fuel as nat,
                        ) {
                            Ok(rest2) => {
                                assert(accv.push(sv) + rest2 =~= accv + (seq![sv] + rest2));
                            },
                            Err(_) => {},
                        }
                    }
                },
                None => {},
            }
            i = i + 1;
        }
        proof {
            assert(fv.skip(fields@.len() as int) =~= Seq::<FieldV>::empty());
            assert(acc@.map_values(|x: String| x@) + Seq::<Seq<char>>::empty() =~= acc@.map_values(
                |x: String| x@,
            ));
        }
        Ok(acc)
    }

    /// The entry of one field: its key and type text, its flattened
    /// replacement, or nothing for a skipped field.
    #[verifier::loop_isolation(false)]
    pub fn field_entry_fuel(
        &self,
        f: &Field,
        names: &Vec<String>,
        args: &Vec<TypeRef>,
        rename_all: Option<Inflection>,
        fuel: usize,
    ) -> (r: Result<Option<String>, Error>)
        requires
            self.wf(),
            wf_ty(self@, ty_view(f.ty)),
            wf_tys(self@, tys_view(args@)),
            names@.len() == args@.len(),
        ensures
            entry_res_matches(
                field_entry_spec(
                    self@,
                    field_view(*f),
                    names@.map_values(|s: String| s@),
                    tys_view(args@),
                    rename_all,
                    fuel as nat,
                ),
                r,
            ),
        decreases fuel as nat, 0nat,
    {
        let ghost gnames = names@.map_values(|s: String| s@);
        let ghost gargs = tys_view(args@);
        if f.attrs.skip {
            return Ok(None);
        }
        let ty = subst_ty(&f.ty, names, args);
        proof {
            lemma_subst_wf(self@, ty_view(f.ty), gnames, gargs);
        }
        if f.attrs.flatten {
            if fuel == 0 {
                return Err(Error::CannotBeFlattened(self.name_of(&ty)));
            }
            let s = self.inline_flattened_fuel(&ty, fuel - 1)?;
            return Ok(Some(s));
        }
        let key = display_key(&f.name, &f.attrs.rename, &rename_all);
        if f.attrs.optional {
            match &f.attrs.type_override {
                Some(text) => {
                    let mut x = key;
                    x.append("?: ");
                    x.append(text.as_str());
                    Ok(Some(x))
                },
                None => {
                    match ty {
                        TypeRef::Optional { inner } => {
                            let base = match &f.attrs.as_override {
                                Some(text) => text.clone(),
                                None => {
                                    if f.attrs.inline {
                                        if fuel == 0 {
                                            return Err(
                                                Error::CannotBeInlined(self.name_of(&inner)),
                                            );
                                        }
                                        self.inline_fuel(&inner, fuel - 1)?
                                    } else {
                                        self.name_of(&inner)
                                    }
                                },
                            };
                            let mut x = key;
                            x.append("?: ");
                            x.append(base.as_str());
                            if f.attrs.nullable {
                                x.append(" | null");
                            }
                            Ok(Some(x))
                        },
                        _ => Err(
                            Error::InvalidAttribute(
                                "attribute \"optional\" is only valid on a field of optional type".to_owned(),
                            ),
                        ),
                    }
                },
            }
        } else {
            let base = match &f.attrs.type_override {
                Some(text) => text.clone(),
                None => match &f.attrs.as_override {
                    Some(text) => text.clone(),
                    None => {
                        if f.attrs.inline {
                            if fuel == 0 {
                                return Err(Error::CannotBeInlined(self.name_of(&ty)));
                            }
                            self.inline_fuel(&ty, fuel - 1)?
                        } else {
                            self.name_of(&ty)
                        }
                    },
                },
            };
            let mut x = key;
            x.append(": ");
            x.append(base.as_str());
            Ok(Some(x))
        }
    }
}

/// The generic parameter list of a declaration header: empty for no
/// parameters, otherwise `<A, B = Default, ...>`.
pub open spec fn gen_text(defs: Seq<DefV>, gs: Seq<GenericV>) -> Seq<char> {
    if gs.len() == 0 {
        Seq::empty()
    } else {
        "<"@ + gen_join(defs, gs) + ">"@
    }
}

/// The generic parameters joined with `, `, each with its default type's
/// name when one is declared.
pub open spec fn gen_join(defs: Seq<DefV>, gs: Seq<GenericV>) -> Seq<char>
    decreases gs,
{
    if gs.len() == 0 {
        Seq::empty()
    } else {
        let head = match gs[0].default {
            Some(t) => gs[0].name + " = "@ + name_spec(defs, t),
            None => gs[0].name,
        };
        if gs.len() == 1 {
            head
        } else {
            head + ", "@ + gen_join(defs, gs.drop_first())
        }
    }
}

/// One more parameter extends the joined list by a separator and its text.
pub proof fn lemma_gen_join_push(defs: Seq<DefV>, gs: Seq<GenericV>, g: GenericV)
    ensures
        ({
            let head = match g.default {
                Some(t) => g.name + " = "@ + name_spec(defs, t),
                None => g.name,
            };
            &&& gs.len() == 0 ==> gen_join(defs, gs.push(g)) == head
            &&& gs.len() > 0 ==> gen_join(defs, gs.push(g)) == gen_join(defs, gs) + ", "@ + head
        }),
    decreases gs,
{
    if gs.len() == 0 {
        assert(gs.push(g)[0] == g);
        assert(gs.push(g).drop_first() =~= Seq::<GenericV>::empty());
    } else if gs.len() == 1 {
        assert(gs.push(g)[0] == gs[0]);
        assert(gs.push(g).drop_first() =~= seq![g]);
        assert(seq![g][0] == g);
        let headg = match g.default {
            Some(t) => g.name + " = "@ + name_spec(defs, t),
            None => g.name,
        };
        let head0 = match gs[0].default {
            Some(t) => gs[0].name + " = "@ + name_spec(defs, t),
            None => gs[0].name,
        };
        assert(gen_join(defs, seq![g]) == headg);
        assert(gen_join(defs, gs.push(g)) == head0 + ", "@ + headg);
        assert(gen_join(defs, gs) == head0);
    } else {
        lemma_gen_join_push(defs, gs.drop_first(), g);
        assert(gs.push(g)[0] == gs[0]);
        assert(gs.push(g).drop_first() =~= gs.drop_first().push(g));
        let head0 = match gs[0].default {
            Some(t) => gs[0].name + " = "@ + name_spec(defs, t),
            None => gs[0].name,
        };
        let headg = match g.default {
            Some(t) => g.name + " = "@ + name_spec(defs, t),
            None => g.name,
        };
        assert(head0 + ", "@ + (gen_join(defs, gs.drop_first()) + ", "@ + headg) =~= (head0 + ", "@
            + gen_join(defs, gs.drop_first())) + ", "@ + headg);
    }
}

/// The standalone declaration of a type: its name, generic parameter
/// placeholders, and the inline form compiled with those placeholders.
/// Only a declared type has a declaration.
pub open spec fn decl_spec(defs: Seq<DefV>, t: TyV, fuel: nat) -> Result<Seq<char>, CompFail> {
    match t {
        TyV::Named { id, .. } => if id < defs.len() {
            let d = defs[id as int];
            match def_inline_spec(defs, d, param_args(d.generics), fuel) {
                Ok(inl) => Ok(
                    "type "@ + d.ts_name + gen_text(defs, d.generics) + " = "@ + inl + ";"@,
                ),
                Err(f) => Err(f),
            }
        } else {
            Err(CompFail::Declare { name: name_spec(defs, t) })
        },
        _ => Err(CompFail::Declare { name: name_spec(defs, t) }),
    }
}

/// The standalone declaration of a type using the concrete generic
/// arguments it was referenced with.
pub open spec fn decl_concrete_spec(defs: Seq<DefV>, t: TyV, fuel: nat) -> Result<
    Seq<char>,
    CompFail,
> {
    match t {
        TyV::Named { id, args } => if id < defs.len() {
            let d = defs[id as int];
            match def_inline_spec(defs, d, args, fuel) {
                Ok(inl) => Ok("type "@ + d.ts_name + " = "@ + inl + ";"@),
                Err(f) => Err(f),
            }
        } else {
            Err(CompFail::Declare { name: name_spec(defs, t) })
        },
        _ => Err(CompFail::Declare { name: name_spec(defs, t) }),
    }
}

/// The expansion fuel the public operations use: enough for a chain of
/// inline expansions through every declaration of the registry.
pub open spec fn default_fuel(defs: Seq<DefV>) -> nat {
    if defs.len() <= (usize::MAX - 2) / 2 {
        (2 * defs.len() + 2) as nat
    } else {
        usize::MAX as nat
    }
}

impl Registry {
    /// The expansion fuel the public operations use.
    fn fuel(&self) -> (r: usize)
        ensures
            r as nat == default_fuel(self@),
    {
        let n = self.defs.len();
        if n <= (usize::MAX - 2) / 2 {
            2 * n + 2
        } else {
            usize::MAX
        }
    }

    /// The generic parameter list of a declaration header.
    #[verifier::loop_isolation(false)]
    pub fn generics_text(&self, gs: &Vec<Generic>) -> (r: String)
        requires
            self.wf(),
            forall|i: int|
                0 <= i < generics_view(gs@).len() ==> match (#[trigger] generics_view(
                    gs@,
                )[i]).default {
                    Some(t) => wf_ty(self@, t),
                    None => true,
                },
        ensures
            r@ == gen_text(self@, generics_view(gs@)),
    {
        if gs.len() == 0 {
            return String::new();
        }
        let ghost gv = generics_view(gs@);
        let mut r = String::new();
        r.append("<");
        let mut i: usize = 0;
        while i < gs.len()
            invariant
                i <= gs@.len(),
                r@ == "<"@ + gen_join(self@, gv.take(i as int)),
            decreases gs@.len() - i,
        {
            if i > 0 {
                r.append(", ");
            }
            r.append(gs[i].name.as_str());
            match &gs[i].default {
                Some(t) => {
                    proof {
                        assert(gv[i as int] == crate::ty::generic_view(gs@[i as int]));
                    }
                    r.append(" = ");
                    let n = self.name_of(t);
                    r.append(n.as_str());
                },
                None => {},
            }
            proof {
                assert(gv.take(i + 1) =~= gv.take(i as int).push(gv[i as int]));
                lemma_gen_join_push(self@, gv.take(i as int), gv[i as int]);
                assert(gv[i as int] == crate::ty::generic_view(gs@[i as int]));
            }
            i = i + 1;
        }
        r.append(">");
        proof {
            assert(gv.take(gs@.len() as int) =~= gv);
        }
        r
    }

    /// The inline form of the type: the structural definition usable
    /// wherever a type reference appears.
    pub fn inline(&self, t: &TypeRef) -> (r: Result<String, Error>)
        requires
            self.wf(),
            wf_ty(self@, t@),
        ensures
            str_res_matches(inline_spec(self@, t@, default_fuel(self@)), r),
    {
        let fuel = self.fuel();
        self.inline_fuel(t, fuel)
    }

    /// The flattened form of the type: its entries without braces, for
    /// merging into a parent object.
    pub fn inline_flattened(&self, t: &TypeRef) -> (r: Result<String, Error>)
        requires
            self.wf(),
            wf_ty(self@, t@),
        ensures
            str_res_matches(inline_flattened_spec(self@, t@, default_fuel(self@)), r),
    {
        let fuel = self.fuel();
        self.inline_flattened_fuel(t, fuel)
    }

    /// The standalone declaration of the type, with generic placeholders:
    /// the same text whatever arguments the type was referenced with.
    /// Fails, naming the type, for every shape that has no declaration.
    pub fn decl(&self, t: &TypeRef) -> (r: Result<String, Error>)
        requires
            self.wf(),
            wf_ty(self@, t@),
        ensures
            str_res_matches(decl_spec(self@, t@, default_fuel(self@)), r),
    {
        let fuel = self.fuel();
        match t {
            TypeRef::Named { id, .. } => {
                let d = &self.defs[*id];
                proof {
                    assert(self@[*id as int] == def_view(self.defs@[*id as int]));
                    assert(wf_def(self@, self@[*id as int]));
                }
                let params = param_args_vec(&d.generics);
                proof {
                    lemma_tys_view(params@);
                    lemma_wf_tys(self@, tys_view(params@));
                    assert forall|i: int| 0 <= i < tys_view(params@).len() implies wf_ty(
                        self@,
                        #[trigger] tys_view(params@)[i],
                    ) by {
                        assert(tys_view(params@)[i] == ty_view(params@[i]));
                    }
                }
                let inl = self.def_inline_fuel(d, &params, fuel)?;
                let gtext = self.generics_text(&d.generics);
                let mut x = String::new();
                x.append("type ");
                x.append(d.ts_name.as_str());
                x.append(gtext.as_str());
                x.append(" = ");
                x.append(inl.as_str());
                x.append(";");
                Ok(x)
            },
            _ => Err(Error::CannotBeDeclared(self.name_of(t))),
        }
    }

    /// The standalone declaration of the type using the concrete generic
    /// arguments it was referenced with. Fails, naming the type, for every
    /// shape that has no declaration.
    pub fn decl_concrete(&self, t: &TypeRef) -> (r: Result<String, Error>)
        requires
            self.wf(),
            wf_ty(self@, t@),
        ensures
            str_res_matches(decl_concrete_spec(self@, t@, default_fuel(self@)), r),
    {
        let fuel = self.fuel();
        match t {
            TypeRef::Named { id, args } => {
                let d = &self.defs[*id];
                proof {
                    assert(self@[*id as int] == def_view(self.defs@[*id as int]));
                    assert(wf_def(self@, self@[*id as int]));
                    lemma_tys_view(args@);
                }
                let inl = self.def_inline_fuel(d, args, fuel)?;
                let mut x = String::new();
                x.append("type ");
                x.append(d.ts_name.as_str());
                x.append(" = ");
                x.append(inl.as_str());
                x.append(";");
                Ok(x)
            },
            _ => Err(Error::CannotBeDeclared(self.name_of(t))),
        }
    }
}

} // verus!
