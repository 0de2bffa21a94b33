//! The dependency graph and export pipeline: starting from a root type,
//! discovers every declaration reachable through dependency types, assigns
//! each one an output location, and assembles per-location file texts with
//! correctly resolved cross-file import statements. Everything here is
//! in-memory; writing the files is the host's business.

use vstd::prelude::*;

use crate::error::Error;
use crate::ty::{
    def_view, field_view, fields_view, lemma_fields_view, lemma_tys_view, lemma_variants_view,
    name_spec, payload_view, ty_view, tys_view, variant_view, variants_view, wf_def, wf_fields,
    wf_payload, wf_ty, wf_tys, DefV, FieldV, GenericV, Payload, PayloadV, Registry, Shape, ShapeV,
    TyV, TypeDef, TypeRef, VariantV,
};

verus! {

/// The identities of the declared types a reference mentions, in order of
/// appearance.
pub open spec fn ty_ids(t: TyV) -> Seq<nat>
    decreases t,
{
    match t {
        TyV::Prim { .. } => Seq::empty(),
        TyV::Param { .. } => Seq::empty(),
        TyV::Optional { inner } => ty_ids(*inner),
        TyV::List { inner } => ty_ids(*inner),
        TyV::FixedList { inner, .. } => ty_ids(*inner),
        TyV::Tuple { items } => tys_ids(items),
        TyV::Record { key, value } => ty_ids(*key) + ty_ids(*value),
        TyV::Wrapper { inner } => ty_ids(*inner),
        TyV::Named { id, args } => seq![id] + tys_ids(args),
    }
}

/// The identities mentioned across a list of references.
pub open spec fn tys_ids(ts: Seq<TyV>) -> Seq<nat>
    decreases ts,
{
    if ts.len() == 0 {
        Seq::empty()
    } else {
        ty_ids(ts[0]) + tys_ids(ts.drop_first())
    }
}

/// The identities a field depends on: none when the field is skipped or its
/// type is overridden, otherwise those of its declared type.
pub open spec fn field_ids(f: FieldV) -> Seq<nat> {
    if f.attrs.skip || f.attrs.type_override is Some || f.attrs.as_override is Some {
        Seq::empty()
    } else {
        ty_ids(f.ty)
    }
}

/// The identities a field list depends on.
pub open spec fn fields_ids(fs: Seq<FieldV>) -> Seq<nat>
    decreases fs,
{
    if fs.len() == 0 {
        Seq::empty()
    } else {
        field_ids(fs[0]) + fields_ids(fs.drop_first())
    }
}

/// The identities a variant payload depends on.
pub open spec fn payload_ids(p: PayloadV) -> Seq<nat> {
    match p {
        PayloadV::Unit => Seq::empty(),
        PayloadV::Newtype { ty } => ty_ids(ty),
        PayloadV::Tuple { items } => tys_ids(items),
        PayloadV::Struct { fields } => fields_ids(fields),
    }
}

/// The identities a variant list depends on; skipped variants contribute
/// nothing.
pub open spec fn variants_ids(vs: Seq<VariantV>) -> Seq<nat>
    decreases vs,
{
    if vs.len() == 0 {
        Seq::empty()
    } else {
        (if vs[0].attrs.skip {
            Seq::empty()
        } else {
            payload_ids(vs[0].payload)
        }) + variants_ids(vs.drop_first())
    }
}

/// The identities the generic defaults depend on.
pub open spec fn generics_ids(gs: Seq<GenericV>) -> Seq<nat>
    decreases gs,
{
    if gs.len() == 0 {
        Seq::empty()
    } else {
        (match gs[0].default {
            Some(t) => ty_ids(t),
            None => Seq::empty(),
        }) + generics_ids(gs.drop_first())
    }
}

/// The identities a declaration depends on, in order of appearance: its
/// shape's dependency types, then its generic defaults. A declaration whose
/// definition is overridden depends on nothing.
pub open spec fn def_ids(d: DefV) -> Seq<nat> {
    if d.attrs.type_override is Some || d.attrs.as_override is Some {
        Seq::empty()
    } else {
        (match d.shape {
            ShapeV::Struct { fields } => fields_ids(fields),
            ShapeV::Enum { variants } => variants_ids(variants),
        }) + generics_ids(d.generics)
    }
}

/// The identity `i` is reachable from the root in at most `k` dependency
/// steps.
pub open spec fn reaches(defs: Seq<DefV>, root: nat, i: nat, k: nat) -> bool
    decreases k,
{
    i == root || (k > 0 && exists|j: nat|
        #![trigger def_ids(defs[j as int])]
        j < defs.len() && reaches(defs, root, j, (k - 1) as nat) && def_ids(
            defs[j as int],
        ).contains(i))
}

/// The identity `i` is reachable from the root through dependency types.
pub open spec fn reachable(defs: Seq<DefV>, root: nat, i: nat) -> bool {
    exists|k: nat| reaches(defs, root, i, k)
}

/// A dependency step away from a reachable identity is reachable.
pub proof fn lemma_reach_step(defs: Seq<DefV>, root: nat, j: nat, i: nat)
    requires
        reachable(defs, root, j),
        j < defs.len(),
        def_ids(defs[j as int]).contains(i),
    ensures
        reachable(defs, root, i),
{
    let k = choose|k: nat| reaches(defs, root, j, k);
    assert(reaches(defs, root, i, k + 1));
}

/// The marked set of a registry, as a vector of flags.
pub open spec fn marks_sound(defs: Seq<DefV>, root: nat, m: Seq<bool>) -> bool {
    forall|i: int| 0 <= i < m.len() ==> (#[trigger] m[i] ==> reachable(defs, root, i as nat))
}

/// The marked set is closed under dependency steps.
pub open spec fn marks_closed(defs: Seq<DefV>, m: Seq<bool>) -> bool {
    forall|j: int, i: nat|
        0 <= j < defs.len() && m[j] && #[trigger] def_ids(defs[j]).contains(i) && i < m.len()
            ==> m[i as int]
}

/// A closed marked set that holds the root holds everything reachable.
pub proof fn lemma_closed_complete(defs: Seq<DefV>, root: nat, m: Seq<bool>, i: nat, k: nat)
    requires
        m.len() == defs.len(),
        root < defs.len(),
        m[root as int],
        marks_closed(defs, m),
        reaches(defs, root, i, k),
        i < defs.len(),
    ensures
        m[i as int],
    decreases k,
{
    if i != root {
        let j = choose|j: nat|
            #![trigger def_ids(defs[j as int])]
            j < defs.len() && reaches(defs, root, j, (k - 1) as nat) && def_ids(
                defs[j as int],
            ).contains(i);
        lemma_closed_complete(defs, root, m, j, (k - 1) as nat);
    }
}

/// How many flags of the vector are set.
pub open spec fn count_trues(m: Seq<bool>) -> nat
    decreases m,
{
    if m.len() == 0 {
        0
    } else {
        (if m[0] {
            1nat
        } else {
            0nat
        }) + count_trues(m.drop_first())
    }
}

/// No more flags are set than there are flags.
pub proof fn lemma_count_le_len(m: Seq<bool>)
    ensures
        count_trues(m) <= m.len(),
    decreases m,
{
    if m.len() > 0 {
        lemma_count_le_len(m.drop_first());
    }
}

/// Setting an unset flag raises the count by one.
pub proof fn lemma_count_update(m: Seq<bool>, i: int)
    requires
        0 <= i < m.len(),
        !m[i],
    ensures
        count_trues(m.update(i, true)) == count_trues(m) + 1,
    decreases m,
{
    if i == 0 {
        assert(m.update(0, true).drop_first() =~= m.drop_first());
    } else {
        lemma_count_update(m.drop_first(), i - 1);
        assert(m.update(i, true).drop_first() =~= m.drop_first().update(i - 1, true));
        assert(m.update(i, true)[0] == m[0]);
    }
}

/// Every element of the sequence is below the bound.
pub open spec fn all_lt(s: Seq<nat>, n: int) -> bool {
    forall|x: int| 0 <= x < s.len() ==> #[trigger] s[x] < n
}

/// A concatenation is bounded when both parts are.
pub proof fn lemma_all_lt_concat(a: Seq<nat>, b: Seq<nat>, n: int)
    requires
        all_lt(a, n),
        all_lt(b, n),
    ensures
        all_lt(a + b, n),
{
    assert forall|x: int| 0 <= x < (a + b).len() implies #[trigger] (a + b)[x] < n by {
        if x < a.len() {
            assert((a + b)[x] == a[x]);
        } else {
            assert((a + b)[x] == b[x - a.len()]);
        }
    }
}

/// Well-formedness bounds every identity a reference mentions.
pub proof fn lemma_ty_ids_bound(defs: Seq<DefV>, t: TyV)
    requires
        wf_ty(defs, t),
    ensures
        all_lt(ty_ids(t), defs.len() as int),
    decreases t,
{
    match t {
        TyV::Tuple { items } => {
            lemma_tys_ids_bound(defs, items);
        },
        TyV::Record { key, value } => {
            lemma_ty_ids_bound(defs, *key);
            lemma_ty_ids_bound(defs, *value);
            lemma_all_lt_concat(ty_ids(*key), ty_ids(*value), defs.len() as int);
        },
        TyV::Named { id, args } => {
            lemma_tys_ids_bound(defs, args);
            assert(all_lt(seq![id], defs.len() as int));
            lemma_all_lt_concat(seq![id], tys_ids(args), defs.len() as int);
        },
        TyV::Optional { inner } => lemma_ty_ids_bound(defs, *inner),
        TyV::List { inner } => lemma_ty_ids_bound(defs, *inner),
        TyV::FixedList { inner, .. } => lemma_ty_ids_bound(defs, *inner),
        TyV::Wrapper { inner } => lemma_ty_ids_bound(defs, *inner),
        _ => {},
    }
}

/// Well-formedness bounds every identity a reference list mentions.
pub proof fn lemma_tys_ids_bound(defs: Seq<DefV>, ts: Seq<TyV>)
    requires
        wf_tys(defs, ts),
    ensures
        all_lt(tys_ids(ts), defs.len() as int),
    decreases ts,
{
    if ts.len() > 0 {
        lemma_ty_ids_bound(defs, ts[0]);
        lemma_tys_ids_bound(defs, ts.drop_first());
        lemma_all_lt_concat(ty_ids(ts[0]), tys_ids(ts.drop_first()), defs.len() as int);
    }
}

/// Well-formedness bounds every identity a field list mentions.
pub proof fn lemma_fields_ids_bound(defs: Seq<DefV>, fs: Seq<FieldV>)
    requires
        wf_fields(defs, fs),
    ensures
        all_lt(fields_ids(fs), defs.len() as int),
    decreases fs,
{
    if fs.len() > 0 {
        lemma_ty_ids_bound(defs, fs[0].ty);
        assert(forall|i: int|
            0 <= i < fs.drop_first().len() ==> fs.drop_first()[i] == #[trigger] fs[i + 1]);
        lemma_fields_ids_bound(defs, fs.drop_first());
        lemma_all_lt_concat(field_ids(fs[0]), fields_ids(fs.drop_first()), defs.len() as int);
    }
}

/// Well-formedness bounds every identity a declaration mentions.
pub proof fn lemma_def_ids_bound(defs: Seq<DefV>, d: DefV)
    requires
        wf_def(defs, d),
    ensures
        all_lt(def_ids(d), defs.len() as int),
{
    if !(d.attrs.type_override is Some || d.attrs.as_override is Some) {
        let shape_part = match d.shape {
            ShapeV::Struct { fields } => fields_ids(fields),
            ShapeV::Enum { variants } => variants_ids(variants),
        };
        match d.shape {
            ShapeV::Struct { fields } => {
                lemma_fields_ids_bound(defs, fields);
            },
            ShapeV::Enum { variants } => {
                lemma_variants_ids_bound(defs, variants);
            },
        }
        lemma_generics_ids_bound(defs, d.generics);
        lemma_all_lt_concat(shape_part, generics_ids(d.generics), defs.len() as int);
    }
}

/// Well-formedness bounds every identity a variant list mentions.
pub proof fn lemma_variants_ids_bound(defs: Seq<DefV>, vs: Seq<VariantV>)
    requires
        forall|i: int| 0 <= i < vs.len() ==> wf_payload(defs, (#[trigger] vs[i]).payload),
    ensures
        all_lt(variants_ids(vs), defs.len() as int),
    decreases vs,
{
    if vs.len() > 0 {
        let head = if vs[0].attrs.skip {
            Seq::empty()
        } else {
            payload_ids(vs[0].payload)
        };
        if !vs[0].attrs.skip {
            match vs[0].payload {
                PayloadV::Newtype { ty } => lemma_ty_ids_bound(defs, ty),
                PayloadV::Tuple { items } => lemma_tys_ids_bound(defs, items),
                PayloadV::Struct { fields } => lemma_fields_ids_bound(defs, fields),
                PayloadV::Unit => {},
            }
        }
        assert(forall|i: int|
            0 <= i < vs.drop_first().len() ==> vs.drop_first()[i] == #[trigger] vs[i + 1]);
        lemma_variants_ids_bound(defs, vs.drop_first());
        lemma_all_lt_concat(head, variants_ids(vs.drop_first()), defs.len() as int);
    }
}

/// Well-formedness bounds every identity the generic defaults mention.
pub proof fn lemma_generics_ids_bound(defs: Seq<DefV>, gs: Seq<GenericV>)
    requires
        forall|i: int|
            0 <= i < gs.len() ==> match (#[trigger] gs[i]).default {
                Some(t) => wf_ty(defs, t),
                None => true,
            },
    ensures
        all_lt(generics_ids(gs), defs.len() as int),
    decreases gs,
{
    if gs.len() > 0 {
        let head = match gs[0].default {
            Some(t) => ty_ids(t),
            None => Seq::empty(),
        };
        match gs[0].default {
            Some(t) => lemma_ty_ids_bound(defs, t),
            None => {},
        }
        assert(forall|i: int|
            0 <= i < gs.drop_first().len() ==> gs.drop_first()[i] == #[trigger] gs[i + 1]);
        lemma_generics_ids_bound(defs, gs.drop_first());
        lemma_all_lt_concat(head, generics_ids(gs.drop_first()), defs.len() as int);
    }
}

/// One more flag contributes its own weight to the count.
pub proof fn lemma_count_push(m: Seq<bool>, b: bool)
    ensures
        count_trues(m.push(b)) == count_trues(m) + (if b {
            1nat
        } else {
            0nat
        }),
    decreases m,
{
    if m.len() == 0 {
        assert(m.push(b)[0] == b);
        assert(m.push(b).drop_first() =~= Seq::<bool>::empty());
        assert(count_trues(Seq::<bool>::empty()) == 0);
    } else {
        lemma_count_push(m.drop_first(), b);
        assert(m.push(b)[0] == m[0]);
        assert(m.push(b).drop_first() =~= m.drop_first().push(b));
    }
}

/// Appends the identities the reference mentions.
#[verifier::loop_isolation(false)]
fn push_ty_ids(t: &TypeRef, out: &mut Vec<usize>)
    ensures
        final(out)@.map_values(|u: usize| u as nat) == old(out)@.map_values(|u: usize| u as nat)
            + ty_ids(t@),
    decreases *t,
{
    let ghost base = out@.map_values(|u: usize| u as nat);
    match t {
        TypeRef::Prim { .. } => {
            proof {
                assert(base + ty_ids(t@) =~= base);
            }
        },
        TypeRef::Param { .. } => {
            proof {
                assert(base + ty_ids(t@) =~= base);
            }
        },
        TypeRef::Optional { inner } => push_ty_ids(inner, out),
        TypeRef::List { inner } => push_ty_ids(inner, out),
        TypeRef::FixedList { inner, .. } => push_ty_ids(inner, out),
        TypeRef::Tuple { items } => push_tys_ids(items, out),
        TypeRef::Record { key, value } => {
            push_ty_ids(key, out);
            push_ty_ids(value, out);
            proof {
                let kids = ty_ids(ty_view(**key));
                let vids = ty_ids(ty_view(**value));
                assert(base + (kids + vids) =~= base + kids + vids);
            }
        },
        TypeRef::Wrapper { inner } => push_ty_ids(inner, out),
        TypeRef::Named { id, args } => {
            out.push(*id);
            proof {
                assert(out@.map_values(|u: usize| u as nat) =~= base + seq![*id as nat]);
            }
            push_tys_ids(args, out);
            proof {
                lemma_tys_view(args@);
                assert(base + seq![*id as nat] + tys_ids(tys_view(args@)) =~= base + (seq![
                    *id as nat,
                ] + tys_ids(tys_view(args@))));
            }
        },
    }
}

/// Appends the identities the reference list mentions.
#[verifier::loop_isolation(false)]
fn push_tys_ids(ts: &Vec<TypeRef>, out: &mut Vec<usize>)
    ensures
        final(out)@.map_values(|u: usize| u as nat) == old(out)@.map_values(|u: usize| u as nat)
            + tys_ids(tys_view(ts@)),
    decreases *ts,
{
    let ghost base = out@.map_values(|u: usize| u as nat);
    let ghost tsv = tys_view(ts@);
    proof {
        lemma_tys_view(ts@);
    }
    let mut i: usize = 0;
    proof {
        assert(tsv.skip(0) =~= tsv);
        assert(base + tys_ids(tsv) =~= base + tys_ids(tsv.skip(0)));
    }
    while i < ts.len()
        invariant
            i <= ts@.len(),
            base + tys_ids(tsv) == out@.map_values(|u: usize| u as nat) + tys_ids(
                tsv.skip(i as int),
            ),
        decreases ts@.len() - i,
    {
        let ghost cur = out@.map_values(|u: usize| u as nat);
        proof {
            assert(tsv.skip(i as int)[0] == ty_view(ts@[i as int]));
            assert(tsv.skip(i as int).drop_first() =~= tsv.skip(i + 1));
        }
        push_ty_ids(&ts[i], out);
        proof {
            assert(cur + ty_ids(tsv[i as int]) + tys_ids(tsv.skip(i + 1)) =~= cur + (ty_ids(
                tsv[i as int],
            ) + tys_ids(tsv.skip(i + 1))));
        }
        i = i + 1;
    }
    proof {
        assert(tsv.skip(ts@.len() as int) =~= Seq::<TyV>::empty());
        assert(tys_ids(tsv.skip(ts@.len() as int)) =~= Seq::<nat>::empty());
        assert(out@.map_values(|u: usize| u as nat) + Seq::<nat>::empty() =~= out@.map_values(
            |u: usize| u as nat,
        ));
    }
}

/// The identities the declaration depends on, in order of appearance.
#[verifier::loop_isolation(false)]
pub fn def_dep_ids(d: &TypeDef) -> (r: Vec<usize>)
    ensures
        r@.map_values(|u: usize| u as nat) == def_ids(def_view(*d)),
{
    let mut out: Vec<usize> = Vec::new();
    proof {
        assert(out@.map_values(|u: usize| u as nat) =~= Seq::<nat>::empty());
    }
    if d.attrs.type_override.is_some() || d.attrs.as_override.is_some() {
        proof {
            assert(def_ids(def_view(*d)) =~= Seq::<nat>::empty());
        }
        return out;
    }
    let ghost shape_part = match def_view(*d).shape {
        ShapeV::Struct { fields } => fields_ids(fields),
        ShapeV::Enum { variants } => variants_ids(variants),
    };
    match &d.shape {
        Shape::Struct { fields } => {
            let ghost fv = fields_view(fields@);
            proof {
                lemma_fields_view(fields@);
                assert(fv.skip(0) =~= fv);
                assert(Seq::<nat>::empty() + fields_ids(fv) =~= fields_ids(fv));
            }
            let mut i: usize = 0;
            while i < fields.len()
                invariant
                    i <= fields@.len(),
                    fields_ids(fv) == out@.map_values(|u: usize| u as nat) + fields_ids(
                        fv.skip(i as int),
                    ),
                decreases fields@.len() - i,
            {
                let ghost cur = out@.map_values(|u: usize| u as nat);
                proof {
                    assert(fv.skip(i as int)[0] == field_view(fields@[i as int]));
                    assert(fv.skip(i as int).drop_first() =~= fv.skip(i + 1));
                }
                let f = &fields[i];
                if !f.attrs.skip && f.attrs.type_override.is_none() && f.attrs.as_override.is_none() {
                    push_ty_ids(&f.ty, &mut out);
                } else {
                    proof {
                        assert(field_ids(fv.skip(i as int)[0]) =~= Seq::<nat>::empty());
                        assert(cur + Seq::<nat>::empty() =~= cur);
                    }
                }
                proof {
                    assert(cur + field_ids(fv[i as int]) + fields_ids(fv.skip(i + 1)) =~= cur + (
                    field_ids(fv[i as int]) + fields_ids(fv.skip(i + 1))));
                }
                i = i + 1;
            }
            proof {
                assert(fields_ids(fv.skip(fields@.len() as int)) =~= Seq::<nat>::empty());
                assert(out@.map_values(|u: usize| u as nat) + Seq::<nat>::empty() =~= out@
                    .map_values(|u: usize| u as nat));
            }
        },
        Shape::Enum { variants } => {
            let ghost vv = variants_view(variants@);
            proof {
                lemma_variants_view(variants@);
                assert(vv.skip(0) =~= vv);
                assert(Seq::<nat>::empty() + variants_ids(vv) =~= variants_ids(vv));
            }
            let mut i: usize = 0;
            while i < variants.len()
                invariant
                    i <= variants@.len(),
                    variants_ids(vv) == out@.map_values(|u: usize| u as nat) + variants_ids(
                        vv.skip(i as int),
                    ),
                decreases variants@.len() - i,
            {
                let ghost cur = out@.map_values(|u: usize| u as nat);
                proof {
                    assert(vv.skip(i as int)[0] == variant_view(variants@[i as int]));
                    assert(vv.skip(i as int).drop_first() =~= vv.skip(i + 1));
                }
                let v = &variants[i];
                let ghost head = if vv[i as int].attrs.skip {
                    Seq::<nat>::empty()
                } else {
                    payload_ids(vv[i as int].payload)
                };
                if !v.attrs.skip {
                    match &v.payload {
                        Payload::Unit => {
                            proof {
                                assert(cur + Seq::<nat>::empty() =~= cur);
                            }
                        },
                        Payload::Newtype { ty } => push_ty_ids(ty, &mut out),
                        Payload::Tuple { items } => push_tys_ids(items, &mut out),
                        Payload::Struct { fields } => {
                            let ghost fv = fields_view(fields@);
                            proof {
                                lemma_fields_view(fields@);
                                assert(fv.skip(0) =~= fv);
                                assert(cur + fields_ids(fv) =~= cur + fields_ids(fv.skip(0)));
                            }
                            let mut x: usize = 0;
                            while x < fields.len()
                                invariant
                                    x <= fields@.len(),
                                    cur + fields_ids(fv) == out@.map_values(|u: usize| u as nat)
                                        + fields_ids(fv.skip(x as int)),
                                decreases fields@.len() - x,
                            {
                                let ghost cur2 = out@.map_values(|u: usize| u as nat);
                                proof {
                                    assert(fv.skip(x as int)[0] == field_view(fields@[x as int]));
                                    assert(fv.skip(x as int).drop_first() =~= fv.skip(x + 1));
                                }
                                let f = &fields[x];
                                if !f.attrs.skip && f.attrs.type_override.is_none()
                                    && f.attrs.as_override.is_none() {
                                    push_ty_ids(&f.ty, &mut out);
                                } else {
                                    proof {
                                        assert(field_ids(fv.skip(x as int)[0]) =~= Seq::<
                                            nat,
                                        >::empty());
                                        assert(cur2 + Seq::<nat>::empty() =~= cur2);
                                    }
                                }
                                proof {
                                    assert(cur2 + field_ids(fv[x as int]) + fields_ids(
                                        fv.skip(x + 1),
                                    ) =~= cur2 + (field_ids(fv[x as int]) + fields_ids(
                                        fv.skip(x + 1),
                                    )));
                                }
                                x = x + 1;
                            }
                            proof {
                                assert(fields_ids(fv.skip(fields@.len() as int)) =~= Seq::<
                                    nat,
                                >::empty());
                                assert(out@.map_values(|u: usize| u as nat) + Seq::<nat>::empty()
                                    =~= out@.map_values(|u: usize| u as nat));
                            }
                        },
                    }
                } else {
                    proof {
                        assert(cur + Seq::<nat>::empty() =~= cur);
                    }
                }
                proof {
                    assert(cur + head + variants_ids(vv.skip(i + 1)) =~= cur + (head
                        + variants_ids(vv.skip(i + 1))));
                }
                i = i + 1;
            }
            proof {
                assert(variants_ids(vv.skip(variants@.len() as int)) =~= Seq::<nat>::empty());
                assert(out@.map_values(|u: usize| u as nat) + Seq::<nat>::empty() =~= out@
                    .map_values(|u: usize| u as nat));
            }
        },
    }
    let ghost gv = def_view(*d).generics;
    proof {
        assert(out@.map_values(|u: usize| u as nat) =~= shape_part);
        assert(gv.skip(0) =~= gv);
        assert(shape_part + generics_ids(gv) =~= shape_part + generics_ids(gv.skip(0)));
    }
    let mut i: usize = 0;
    while i < d.generics.len()
        invariant
            i <= d.generics@.len(),
            shape_part + generics_ids(gv) == out@.map_values(|u: usize| u as nat) + generics_ids(
                gv.skip(i as int),
            ),
        decreases d.generics@.len() - i,
    {
        let ghost cur = out@.map_values(|u: usize| u as nat);
        proof {
            assert(gv.skip(i as int)[0] == crate::ty::generic_view(d.generics@[i as int]));
            assert(gv.skip(i as int).drop_first() =~= gv.skip(i + 1));
        }
        let ghost head = match gv[i as int].default {
            Some(t) => ty_ids(t),
            None => Seq::<nat>::empty(),
        };
        match &d.generics[i].default {
            Some(t) => push_ty_ids(t, &mut out),
            None => {
                proof {
                    assert(cur + Seq::<nat>::empty() =~= cur);
                }
            },
        }
        proof {
            assert(cur + head + generics_ids(gv.skip(i + 1)) =~= cur + (head + generics_ids(
                gv.skip(i + 1),
            )));
        }
        i = i + 1;
    }
    proof {
        assert(generics_ids(gv.skip(d.generics@.len() as int)) =~= Seq::<nat>::empty());
        assert(out@.map_values(|u: usize| u as nat) + Seq::<nat>::empty() =~= out@.map_values(
            |u: usize| u as nat,
        ));
        assert(def_ids(def_view(*d)) == shape_part + generics_ids(gv));
    }
    out
}

impl Registry {
    /// One marking pass: for every marked declaration, marks all of its
    /// dependencies. Reports whether anything new was marked; a pass that
    /// changes nothing proves the set closed.
    #[verifier::loop_isolation(false)]
    fn mark_pass(&self, reach: &mut Vec<bool>, Ghost(root): Ghost<nat>) -> (changed: bool)
        requires
            self.wf(),
            old(reach)@.len() == self@.len(),
            marks_sound(self@, root, old(reach)@),
        ensures
            final(reach)@.len() == self@.len(),
            forall|i: int| 0 <= i < self@.len() ==> (old(reach)@[i] ==> final(reach)@[i]),
            marks_sound(self@, root, final(reach)@),
            !changed ==> final(reach)@ == old(reach)@ && marks_closed(self@, final(reach)@),
            changed ==> count_trues(final(reach)@) > count_trues(old(reach)@),
    {
        let n = self.defs.len();
        let mut changed = false;
        let mut j: usize = 0;
        while j < n
            invariant
                j <= n,
                reach@.len() == self@.len(),
                forall|i: int| 0 <= i < self@.len() ==> (old(reach)@[i] ==> reach@[i]),
                marks_sound(self@, root, reach@),
                !changed ==> reach@ == old(reach)@,
                !changed ==> forall|j2: int, i: nat|
                    0 <= j2 < j && reach@[j2] && #[trigger] def_ids(self@[j2]).contains(i) && i
                        < reach@.len() ==> reach@[i as int],
                changed ==> count_trues(reach@) > count_trues(old(reach)@),
            decreases n - j,
        {
            if reach[j] {
                proof {
                    assert(self@[j as int] == def_view(self.defs@[j as int]));
                    assert(wf_def(self@, self@[j as int]));
                    lemma_def_ids_bound(self@, self@[j as int]);
                }
                let ids = def_dep_ids(&self.defs[j]);
                let ghost gids = def_ids(self@[j as int]);
                let mut x: usize = 0;
                while x < ids.len()
                    invariant
                        x <= ids@.len(),
                        reach@.len() == self@.len(),
                        reach@[j as int],
                        forall|i: int| 0 <= i < self@.len() ==> (old(reach)@[i] ==> reach@[i]),
                        marks_sound(self@, root, reach@),
                        !changed ==> reach@ == old(reach)@,
                        !changed ==> forall|j2: int, i: nat|
                            0 <= j2 < j && reach@[j2] && #[trigger] def_ids(
                                self@[j2],
                            ).contains(i) && i < reach@.len() ==> reach@[i as int],
                        !changed ==> forall|y: int| 0 <= y < x ==> reach@[gids[y] as int],
                        changed ==> count_trues(reach@) > count_trues(old(reach)@),
                    decreases ids@.len() - x,
                {
                    let d = ids[x];
                    proof {
                        assert(gids[x as int] == ids@[x as int] as nat);
                        assert(gids[x as int] < self@.len());
                    }
                    if !reach[d] {
                        proof {
                            let ghost before = reach@;
                            lemma_count_update(before, d as int);
                            if !changed {
                                lemma_count_le_len(before);
                            }
                        }
                        let ghost before = reach@;
                        let ghost oldcount = count_trues(reach@);
                        reach[d] = true;
                        proof {
                            lemma_count_update(before, d as int);
                            assert(count_trues(reach@) == oldcount + 1);
                            if changed {
                                // the count only grows
                            } else {
                                assert(count_trues(before) == count_trues(old(reach)@));
                            }
                            assert(marks_sound(self@, root, reach@)) by {
                                assert(reachable(self@, root, j as nat));
                                assert(gids.contains(gids[x as int]));
                                lemma_reach_step(self@, root, j as nat, gids[x as int]);
                                assert forall|i: int|
                                    0 <= i < reach@.len() && #[trigger] reach@[i] implies reachable(
                                    self@,
                                    root,
                                    i as nat,
                                ) by {
                                    if i != d as int {
                                        assert(before[i]);
                                    }
                                }
                            }
                        }
                        changed = true;
                    }
                    x = x + 1;
                }
                proof {
                    if !changed {
                        assert forall|j2: int, i: nat|
                            0 <= j2 < j + 1 && reach@[j2] && #[trigger] def_ids(
                                self@[j2],
                            ).contains(i) && i < reach@.len() implies reach@[i as int] by {
                            if j2 == j as int {
                                let y = choose|y: int|
                                    0 <= y < gids.len() && gids[y] == i;
                                assert(reach@[gids[y] as int]);
                            }
                        }
                    }
                }
            } else {
                proof {
                    if !changed {
                        assert forall|j2: int, i: nat|
                            0 <= j2 < j + 1 && reach@[j2] && #[trigger] def_ids(
                                self@[j2],
                            ).contains(i) && i < reach@.len() implies reach@[i as int] by {}
                    }
                }
            }
            j = j + 1;
        }
        changed
    }

    /// The set of declarations reachable from the root through dependency
    /// types, the root itself included: computed to a fixpoint, with the
    /// visited marks preventing any repetition, so the walk always
    /// terminates, cycles included.
    #[verifier::loop_isolation(false)]
    pub fn reachable_set(&self, root: usize) -> (r: Vec<bool>)
        requires
            self.wf(),
            root < self.defs@.len(),
        ensures
            r@.len() == self@.len(),
            forall|i: int|
                0 <= i < r@.len() ==> ((#[trigger] r@[i]) <==> reachable(
                    self@,
                    root as nat,
                    i as nat,
                )),
    {
        let n = self.defs.len();
        let mut reach: Vec<bool> = Vec::new();
        let mut i: usize = 0;
        while i < n
            invariant
                i <= n,
                reach@.len() == i,
                count_trues(reach@) == 0,
                forall|x: int| 0 <= x < i ==> !(#[trigger] reach@[x]),
            decreases n - i,
        {
            proof {
                lemma_count_push(reach@, false);
            }
            reach.push(false);
            i = i + 1;
        }
        let ghost before = reach@;
        proof {
            lemma_count_update(before, root as int);
        }
        reach[root] = true;
        proof {
            assert(count_trues(reach@) == 1);
            assert(reaches(self@, root as nat, root as nat, 0));
            assert(reachable(self@, root as nat, root as nat));
        }
        let mut round: usize = 0;
        let mut done = false;
        while !done
            invariant
                reach@.len() == self@.len(),
                reach@[root as int],
                marks_sound(self@, root as nat, reach@),
                round <= self@.len() + 1,
                done ==> marks_closed(self@, reach@),
                !done ==> count_trues(reach@) >= round + 1,
            decreases self@.len() + 2 - round,
        {
            let changed = self.mark_pass(&mut reach, Ghost(root as nat));
            proof {
                assert(reach@[root as int]);
                lemma_count_le_len(reach@);
            }
            if !changed {
                done = true;
            }
            round = round + 1;
        }
        proof {
            assert forall|i: int|
                0 <= i < reach@.len() && #[trigger] reachable(
                    self@,
                    root as nat,
                    i as nat,
                ) implies reach@[i] by {
                let k = choose|k: nat| #[trigger] reaches(self@, root as nat, i as nat, k);
                lemma_closed_complete(self@, root as nat, reach@, i as nat, k);
            }
        }
        reach
    }
}

/// The index of the first `/` in the string, or its length.
pub open spec fn first_slash(s: Seq<char>) -> int
    decreases s.len(),
{
    if s.len() == 0 {
        0
    } else if s[0] == '/' {
        0
    } else {
        1 + first_slash(s.drop_first())
    }
}

/// Where the first `/` stands.
pub proof fn lemma_first_slash(s: Seq<char>)
    ensures
        0 <= first_slash(s) <= s.len(),
        forall|j: int| 0 <= j < first_slash(s) ==> s[j] != '/',
        first_slash(s) < s.len() ==> s[first_slash(s)] == '/',
    decreases s.len(),
{
    if s.len() > 0 && s[0] != '/' {
        lemma_first_slash(s.drop_first());
        assert(forall|j: int| 1 <= j < s.len() ==> s[j] == s.drop_first()[j - 1]);
    }
}

/// The path split at `/` separators, separators dropped.
pub open spec fn split_slash(s: Seq<char>) -> Seq<Seq<char>>
    decreases s.len(),
{
    let k = first_slash(s);
    if 0 <= k < s.len() {
        seq![s.take(k)] + split_slash(s.skip(k + 1))
    } else {
        seq![s]
    }
}

/// The components normalized: empty and `.` components are dropped, `..`
/// removes the preceding component, and a `..` with nothing before it makes
/// the whole path invalid.
pub open spec fn norm_rec(parts: Seq<Seq<char>>, acc: Seq<Seq<char>>) -> Option<Seq<Seq<char>>>
    decreases parts.len(),
{
    if parts.len() == 0 {
        Some(acc)
    } else {
        let p = parts[0];
        if p.len() == 0 || p == "."@ {
            norm_rec(parts.drop_first(), acc)
        } else if p == ".."@ {
            if acc.len() == 0 {
                None
            } else {
                norm_rec(parts.drop_first(), acc.drop_last())
            }
        } else {
            norm_rec(parts.drop_first(), acc.push(p))
        }
    }
}

/// The normalized components of a relative path, or nothing when the path
/// escapes its base directory.
pub open spec fn norm_path(s: Seq<char>) -> Option<Seq<Seq<char>>> {
    norm_rec(split_slash(s), Seq::empty())
}

/// The components joined with `/`.
pub open spec fn join_slash(parts: Seq<Seq<char>>) -> Seq<char>
    decreases parts.len(),
{
    if parts.len() == 0 {
        Seq::empty()
    } else if parts.len() == 1 {
        parts[0]
    } else {
        parts[0] + "/"@ + join_slash(parts.drop_first())
    }
}

/// One more component extends the joined path by a separator and itself.
pub proof fn lemma_join_slash_push(parts: Seq<Seq<char>>, p: Seq<char>)
    ensures
        parts.len() == 0 ==> join_slash(parts.push(p)) == p,
        parts.len() > 0 ==> join_slash(parts.push(p)) == join_slash(parts) + "/"@ + p,
    decreases parts.len(),
{
    if parts.len() == 0 {
        assert(parts.push(p)[0] == p);
    } else if parts.len() == 1 {
        assert(parts.push(p)[0] == parts[0]);
        assert(parts.push(p).drop_first() =~= seq![p]);
        assert(join_slash(seq![p]) == p);
    } else {
        lemma_join_slash_push(parts.drop_first(), p);
        assert(parts.push(p)[0] == parts[0]);
        assert(parts.push(p).drop_first() =~= parts.drop_first().push(p));
        assert(parts[0] + "/"@ + (join_slash(parts.drop_first()) + "/"@ + p) =~= (parts[0] + "/"@
            + join_slash(parts.drop_first())) + "/"@ + p);
    }
}

/// Splits a path at `/` separators.
#[verifier::loop_isolation(false)]
pub fn split_path(s: &str) -> (r: Vec<String>)
    ensures
        r@.map_values(|x: String| x@) == split_slash(s@),
    decreases s@.len(),
{
    let n = s.unicode_len();
    let mut k: usize = 0;
    while k < n && s.get_char(k) != '/'
        invariant
            k <= n,
            forall|j: int| 0 <= j < k ==> s@[j] != '/',
        decreases n - k,
    {
        k = k + 1;
    }
    proof {
        lemma_first_slash(s@);
        assert(first_slash(s@) == k as int);
    }
    if k == n {
        let mut r: Vec<String> = Vec::new();
        r.push(s.to_owned());
        proof {
            assert(r@.map_values(|x: String| x@) =~= seq![s@]);
        }
        r
    } else {
        let head = s.substring_char(0, k);
        let tail = s.substring_char(k + 1, n);
        let rest = split_path(tail);
        let mut r: Vec<String> = Vec::new();
        r.push(head.to_owned());
        let mut i: usize = 0;
        let ghost restv = rest@.map_values(|x: String| x@);
        while i < rest.len()
            invariant
                i <= rest@.len(),
                r@.len() == i + 1,
                r@.map_values(|x: String| x@) == seq![s@.subrange(0, first_slash(s@))]
                    + restv.take(i as int),
            decreases rest@.len() - i,
        {
            r.push(rest[i].clone());
            proof {
                assert(restv.take(i + 1) =~= restv.take(i as int).push(restv[i as int]));
                assert(r@.map_values(|x: String| x@) =~= (seq![s@.subrange(0, first_slash(s@))]
                    + restv.take(i as int)).push(restv[i as int]));
                assert((seq![s@.subrange(0, first_slash(s@))] + restv.take(i as int)).push(
                    restv[i as int],
                ) =~= seq![s@.subrange(0, first_slash(s@))] + restv.take(i as int).push(
                    restv[i as int],
                ));
            }
            i = i + 1;
        }
        proof {
            assert(restv.take(rest@.len() as int) =~= restv);
            assert(s@.subrange(0, first_slash(s@)) =~= s@.take(first_slash(s@)));
            assert(tail@ =~= s@.skip(first_slash(s@) + 1));
        }
        r
    }
}

/// Normalizes a relative path into its components; fails when the path
/// escapes its base directory through parent segments.
#[verifier::loop_isolation(false)]
pub fn normalize_path(s: &str) -> (r: Result<Vec<String>, Error>)
    ensures
        match norm_path(s@) {
            Some(parts) => match r {
                Ok(v) => v@.map_values(|x: String| x@) == parts,
                Err(_) => false,
            },
            None => match r {
                Ok(_) => false,
                Err(e) => match e {
                    Error::InvalidPath(p) => p@ == s@,
                    _ => false,
                },
            },
        },
{
    let parts = split_path(s);
    let ghost all = parts@.map_values(|x: String| x@);
    let mut acc: Vec<String> = Vec::new();
    let mut i: usize = 0;
    proof {
        assert(all.skip(0) =~= all);
        assert(acc@.map_values(|x: String| x@) =~= Seq::<Seq<char>>::empty());
    }
    while i < parts.len()
        invariant
            i <= parts@.len(),
            norm_path(s@) == norm_rec(all.skip(i as int), acc@.map_values(|x: String| x@)),
        decreases parts@.len() - i,
    {
        proof {
            assert(all.skip(i as int)[0] == all[i as int]);
            assert(all.skip(i as int).drop_first() =~= all.skip(i + 1));
        }
        let p = &parts[i];
        if p.as_str().is_empty() || crate::naming::str_is(p, ".") {
        } else if crate::naming::str_is(p, "..") {
            if acc.len() == 0 {
                return Err(Error::InvalidPath(s.to_owned()));
            }
            let ghost accv = acc@.map_values(|x: String| x@);
            acc.pop();
            proof {
                assert(acc@.map_values(|x: String| x@) =~= accv.drop_last());
            }
        } else {
            let ghost accv = acc@.map_values(|x: String| x@);
            acc.push(p.clone());
            proof {
                assert(acc@.map_values(|x: String| x@) =~= accv.push(all[i as int]));
            }
        }
        i = i + 1;
    }
    proof {
        assert(all.skip(parts@.len() as int) =~= Seq::<Seq<char>>::empty());
    }
    Ok(acc)
}

/// Joins path components with `/`.
#[verifier::loop_isolation(false)]
pub fn join_path(parts: &Vec<String>) -> (r: String)
    ensures
        r@ == join_slash(parts@.map_values(|x: String| x@)),
{
    let ghost pv = parts@.map_values(|x: String| x@);
    let mut r = String::new();
    let mut i: usize = 0;
    while i < parts.len()
        invariant
            i <= parts@.len(),
            r@ == join_slash(pv.take(i as int)),
        decreases parts@.len() - i,
    {
        if i > 0 {
            r.append("/");
        }
        r.append(parts[i].as_str());
        proof {
            assert(pv.take(i + 1) =~= pv.take(i as int).push(pv[i as int]));
            lemma_join_slash_push(pv.take(i as int), pv[i as int]);
        }
        i = i + 1;
    }
    proof {
        assert(pv.take(parts@.len() as int) =~= pv);
    }
    r
}

/// The output path of a declaration: the explicit `export_to` path, with a
/// trailing `/` meaning a directory to put `<name>.ts` under; by default
/// `<name>.ts`.
pub open spec fn def_path(d: DefV) -> Seq<char> {
    match d.attrs.export_to {
        Some(p) => if p.len() > 0 && p.last() == '/' {
            p + d.ts_name + ".ts"@
        } else {
            p
        },
        None => d.ts_name + ".ts"@,
    }
}

/// The output path of a declaration.
pub fn output_path(d: &TypeDef) -> (r: String)
    ensures
        r@ == def_path(def_view(*d)),
{
    match &d.attrs.export_to {
        Some(p) => {
            let n = p.as_str().unicode_len();
            if n > 0 && p.as_str().get_char(n - 1) == '/' {
                let mut r = p.clone();
                r.append(d.ts_name.as_str());
                r.append(".ts");
                r
            } else {
                p.clone()
            }
        },
        None => {
            let mut r = d.ts_name.clone();
            r.append(".ts");
            r
        },
    }
}

/// The normalized location components of a declaration, if its path stays
/// inside the base directory.
pub open spec fn def_comps(d: DefV) -> Option<Seq<Seq<char>>> {
    norm_path(def_path(d))
}

/// The location text of the declaration with the given identity: its
/// normalized path components joined with `/`.
pub open spec fn loc_text_of(defs: Seq<DefV>, id: nat) -> Seq<char> {
    if id < defs.len() {
        match def_comps(defs[id as int]) {
            Some(c) => join_slash(c),
            None => Seq::empty(),
        }
    } else {
        Seq::empty()
    }
}

/// The length of the longest common prefix of the two component lists.
pub open spec fn cpl(a: Seq<Seq<char>>, b: Seq<Seq<char>>) -> nat
    decreases a.len(),
{
    if a.len() > 0 && b.len() > 0 && a[0] == b[0] {
        1 + cpl(a.drop_first(), b.drop_first())
    } else {
        0
    }
}

/// The common prefix is no longer than either list, and the lists agree on
/// it.
pub proof fn lemma_cpl(a: Seq<Seq<char>>, b: Seq<Seq<char>>)
    ensures
        cpl(a, b) <= a.len(),
        cpl(a, b) <= b.len(),
        forall|j: int| 0 <= j < cpl(a, b) ==> a[j] == b[j],
    decreases a.len(),
{
    if a.len() > 0 && b.len() > 0 && a[0] == b[0] {
        lemma_cpl(a.drop_first(), b.drop_first());
        assert(forall|j: int| 1 <= j < cpl(a, b) ==> a[j] == a.drop_first()[j - 1]);
        assert(forall|j: int| 1 <= j < cpl(a, b) ==> b[j] == b.drop_first()[j - 1]);
    }
}

/// `../` repeated.
pub open spec fn dots(n: nat) -> Seq<char>
    decreases n,
{
    if n == 0 {
        Seq::empty()
    } else {
        "../"@ + dots((n - 1) as nat)
    }
}

/// One more `../` may be appended as well as prepended.
pub proof fn lemma_dots_push(n: nat)
    ensures
        dots(n + 1) == dots(n) + "../"@,
    decreases n,
{
    if n == 0 {
        assert(Seq::<char>::empty() + "../"@ =~= "../"@ + Seq::<char>::empty());
        assert(dots(1) == "../"@ + dots(0));
    } else {
        lemma_dots_push((n - 1) as nat);
        assert("../"@ + (dots((n - 1) as nat) + "../"@) =~= ("../"@ + dots((n - 1) as nat))
            + "../"@);
    }
}

/// Directory components each followed by `/`.
pub open spec fn dirs_text(ds: Seq<Seq<char>>) -> Seq<char>
    decreases ds,
{
    if ds.len() == 0 {
        Seq::empty()
    } else {
        ds[0] + "/"@ + dirs_text(ds.drop_first())
    }
}

/// One more directory component extends the text by itself and a `/`.
pub proof fn lemma_dirs_text_push(ds: Seq<Seq<char>>, x: Seq<char>)
    ensures
        dirs_text(ds.push(x)) == dirs_text(ds) + x + "/"@,
    decreases ds,
{
    if ds.len() == 0 {
        assert(ds.push(x)[0] == x);
        assert(ds.push(x).drop_first() =~= Seq::<Seq<char>>::empty());
        assert(dirs_text(Seq::<Seq<char>>::empty()) == Seq::<char>::empty());
        assert(dirs_text(ds.push(x)) == x + "/"@ + Seq::<char>::empty());
        assert(x + "/"@ + Seq::<char>::empty() =~= Seq::<char>::empty() + x + "/"@);
    } else {
        lemma_dirs_text_push(ds.drop_first(), x);
        assert(ds.push(x)[0] == ds[0]);
        assert(ds.push(x).drop_first() =~= ds.drop_first().push(x));
        assert(ds[0] + "/"@ + (dirs_text(ds.drop_first()) + x + "/"@) =~= (ds[0] + "/"@
            + dirs_text(ds.drop_first())) + x + "/"@);
    }
}

/// The file name with a trailing `.ts` removed.
pub open spec fn strip_ts(s: Seq<char>) -> Seq<char> {
    if s.len() >= 3 && s.skip(s.len() - 3) == ".ts"@ {
        s.take(s.len() - 3)
    } else {
        s
    }
}

/// The import path from the file at `a` to the file at `b` (both as
/// normalized components): `./` or the needed `../` steps, the remaining
/// directories of `b`, and `b`'s file name without its `.ts` extension;
/// with a `.js` suffix when ES-module imports are asked for.
pub open spec fn rel_import(a: Seq<Seq<char>>, b: Seq<Seq<char>>, esm: bool) -> Seq<char> {
    let adir = a.drop_last();
    let bdir = b.drop_last();
    let bfile = if b.len() > 0 {
        b.last()
    } else {
        Seq::empty()
    };
    let c = cpl(adir, bdir);
    let ups = (adir.len() - c) as nat;
    (if ups == 0 {
        "./"@
    } else {
        dots(ups)
    }) + dirs_text(bdir.skip(c as int)) + strip_ts(bfile) + (if esm {
        ".js"@
    } else {
        Seq::empty()
    })
}

/// Computes the import path from the file at `a` to the file at `b`.
#[verifier::loop_isolation(false)]
pub fn rel_import_path(a: &Vec<String>, b: &Vec<String>, esm: bool) -> (r: String)
    requires
        a@.len() > 0,
        b@.len() > 0,
    ensures
        r@ == rel_import(
            a@.map_values(|x: String| x@),
            b@.map_values(|x: String| x@),
            esm,
        ),
{
    let ghost av = a@.map_values(|x: String| x@);
    let ghost bv = b@.map_values(|x: String| x@);
    let ghost adir = av.drop_last();
    let ghost bdir = bv.drop_last();
    let alen = a.len() - 1;
    let blen = b.len() - 1;
    proof {
        assert(adir.len() == alen as int);
        assert(bdir.len() == blen as int);
        assert(forall|j: int| 0 <= j < adir.len() ==> adir[j] == av[j]);
        assert(forall|j: int| 0 <= j < bdir.len() ==> bdir[j] == bv[j]);
    }
    let mut c: usize = 0;
    while c < alen && c < blen && a[c] == b[c]
        invariant
            c <= alen,
            c <= blen,
            forall|j: int| 0 <= j < c ==> adir[j] == bdir[j],
            cpl(adir, bdir) >= c,
        decreases alen - c,
    {
        proof {
            lemma_cpl_step(adir, bdir, c as int + 1);
        }
        c = c + 1;
    }
    proof {
        lemma_cpl(adir, bdir);
        if c < alen && c < blen {
            if cpl(adir, bdir) > c {
                assert(adir[c as int] == bdir[c as int]);
            }
        }
        assert(cpl(adir, bdir) == c as nat);
    }
    let mut r = String::new();
    if alen == c {
        r.append("./");
    } else {
        let mut u: usize = 0;
        while u < alen - c
            invariant
                u <= alen - c,
                r@ == dots(u as nat),
            decreases alen - c - u,
        {
            r.append("../");
            proof {
                lemma_dots_push(u as nat);
            }
            u = u + 1;
        }
    }
    let ghost start = r@;
    let mut i: usize = c;
    while i < blen
        invariant
            c <= i <= blen,
            r@ == start + dirs_text(bdir.skip(c as int).take(i - c)),
        decreases blen - i,
    {
        if i == c {
            proof {
                assert(dirs_text(bdir.skip(c as int).take(0)) =~= Seq::<char>::empty());
                assert(start + Seq::<char>::empty() =~= start);
            }
        }
        r.append(b[i].as_str());
        r.append("/");
        proof {
            let tail = bdir.skip(c as int);
            assert(tail.take(i - c + 1) =~= tail.take(i - c).push(tail[i - c]));
            lemma_dirs_text_push(tail.take(i - c), tail[i - c]);
            assert(tail[i - c] == bdir[i as int]);
            assert(start + (dirs_text(tail.take(i - c)) + bdir[i as int] + "/"@) =~= (start
                + dirs_text(tail.take(i - c))) + bdir[i as int] + "/"@);
        }
        i = i + 1;
    }
    proof {
        let tail = bdir.skip(c as int);
        assert(tail.take(blen - c) =~= tail);
        if c == blen {
            assert(dirs_text(tail) =~= Seq::<char>::empty());
            assert(start + dirs_text(tail) =~= start);
        }
    }
    let bfile = &b[blen];
    let n = bfile.as_str().unicode_len();
    let mut stripped = false;
    if n >= 3 {
        let c1 = bfile.as_str().get_char(n - 3);
        let c2 = bfile.as_str().get_char(n - 2);
        let c3 = bfile.as_str().get_char(n - 1);
        if c1 == '.' && c2 == 't' && c3 == 's' {
            let stem = bfile.as_str().substring_char(0, n - 3);
            r.append(stem);
            stripped = true;
            proof {
                reveal_strlit(".ts");
                assert(bfile@.skip(n - 3) =~= ".ts"@);
                assert(bfile@.subrange(0, n - 3) =~= bfile@.take(n - 3));
            }
        }
    }
    if !stripped {
        r.append(bfile.as_str());
        proof {
            reveal_strlit(".ts");
            if bfile@.len() >= 3 && bfile@.skip(bfile@.len() - 3) == ".ts"@ {
                assert(bfile@[bfile@.len() - 3] == ".ts"@[0]);
                assert(bfile@[bfile@.len() - 2] == ".ts"@[1]);
                assert(bfile@[bfile@.len() - 1] == ".ts"@[2]);
            }
        }
    }
    if esm {
        r.append(".js");
    }
    proof {
        assert(bfile@ == bv.last());
    }
    r
}

/// The common prefix grows while the components agree.
proof fn lemma_cpl_step(a: Seq<Seq<char>>, b: Seq<Seq<char>>, k: int)
    requires
        0 < k <= a.len(),
        k <= b.len(),
        forall|j: int| 0 <= j < k ==> a[j] == b[j],
    ensures
        cpl(a, b) >= k,
    decreases k,
{
    if k > 1 {
        assert(forall|j: int|
            0 <= j < k - 1 ==> a.drop_first()[j] == b.drop_first()[j]);
        lemma_cpl_step(a.drop_first(), b.drop_first(), k - 1);
    }
}

/// The view of a list of locations: each with its path text and its member
/// identities.
pub open spec fn locs_view(v: Seq<(String, Vec<usize>)>) -> Seq<(Seq<char>, Seq<nat>)> {
    v.map_values(
        |p: (String, Vec<usize>)| (p.0@, p.1@.map_values(|u: usize| u as nat)),
    )
}

/// The first location with the given path text, or `-1`.
pub open spec fn find_loc(locs: Seq<(Seq<char>, Seq<nat>)>, text: Seq<char>) -> int
    decreases locs,
{
    if locs.len() == 0 {
        -1
    } else if locs[0].0 == text {
        0
    } else {
        let j = find_loc(locs.drop_first(), text);
        if j < 0 {
            -1
        } else {
            1 + j
        }
    }
}

/// Adds the identity to the location with the given text, appending a new
/// location at the end when none has it yet.
pub open spec fn upsert_loc(locs: Seq<(Seq<char>, Seq<nat>)>, text: Seq<char>, id: nat) -> Seq<
    (Seq<char>, Seq<nat>),
> {
    let j = find_loc(locs, text);
    if j < 0 {
        locs.push((text, seq![id]))
    } else {
        locs.update(j, (locs[j].0, locs[j].1.push(id)))
    }
}

/// Where the first location with the text stands, if anywhere.
pub proof fn lemma_find_loc(locs: Seq<(Seq<char>, Seq<nat>)>, text: Seq<char>)
    ensures
        find_loc(locs, text) == -1 <==> (forall|j: int|
            0 <= j < locs.len() ==> (#[trigger] locs[j]).0 != text),
        find_loc(locs, text) >= 0 ==> ({
            let j = find_loc(locs, text);
            0 <= j < locs.len() && locs[j].0 == text && (forall|x: int|
                0 <= x < j ==> (#[trigger] locs[x]).0 != text)
        }),
    decreases locs,
{
    if locs.len() > 0 && locs[0].0 != text {
        lemma_find_loc(locs.drop_first(), text);
        assert(forall|j: int|
            1 <= j < locs.len() ==> locs.drop_first()[j - 1] == #[trigger] locs[j]);
    }
}

/// The locations of the marked declarations, in order of first appearance,
/// each holding its members in ascending identity order.
pub open spec fn build_locs(
    defs: Seq<DefV>,
    reach: Seq<bool>,
    i: nat,
    acc: Seq<(Seq<char>, Seq<nat>)>,
) -> Seq<(Seq<char>, Seq<nat>)>
    decreases defs.len() - i,
{
    if i >= defs.len() {
        acc
    } else {
        let acc2 = if i < reach.len() && reach[i as int] {
            upsert_loc(acc, loc_text_of(defs, i), i)
        } else {
            acc
        };
        build_locs(defs, reach, i + 1, acc2)
    }
}

/// How often an identity occurs in the sequence.
pub open spec fn occ(s: Seq<nat>, x: nat) -> nat
    decreases s,
{
    if s.len() == 0 {
        0
    } else {
        (if s[0] == x {
            1nat
        } else {
            0nat
        }) + occ(s.drop_first(), x)
    }
}

/// Occurrences add up over a concatenation.
pub proof fn lemma_occ_concat(a: Seq<nat>, b: Seq<nat>, x: nat)
    ensures
        occ(a + b, x) == occ(a, x) + occ(b, x),
    decreases a,
{
    if a.len() == 0 {
        assert(a + b =~= b);
    } else {
        lemma_occ_concat(a.drop_first(), b, x);
        assert((a + b)[0] == a[0]);
        assert((a + b).drop_first() =~= a.drop_first() + b);
    }
}

/// One more element contributes its own occurrence.
pub proof fn lemma_occ_push(s: Seq<nat>, v: nat, x: nat)
    ensures
        occ(s.push(v), x) == occ(s, x) + (if v == x {
            1nat
        } else {
            0nat
        }),
    decreases s,
{
    if s.len() == 0 {
        assert(s.push(v)[0] == v);
        assert(s.push(v).drop_first() =~= Seq::<nat>::empty());
        assert(occ(Seq::<nat>::empty(), x) == 0);
    } else {
        lemma_occ_push(s.drop_first(), v, x);
        assert(s.push(v)[0] == s[0]);
        assert(s.push(v).drop_first() =~= s.drop_first().push(v));
    }
}

/// All members of all locations, in location order.
pub open spec fn all_members(locs: Seq<(Seq<char>, Seq<nat>)>) -> Seq<nat>
    decreases locs,
{
    if locs.len() == 0 {
        Seq::empty()
    } else {
        locs[0].1 + all_members(locs.drop_first())
    }
}

/// A new location at the end contributes its members at the end.
pub proof fn lemma_all_members_push(locs: Seq<(Seq<char>, Seq<nat>)>, p: (Seq<char>, Seq<nat>))
    ensures
        all_members(locs.push(p)) == all_members(locs) + p.1,
    decreases locs,
{
    if locs.len() == 0 {
        assert(locs.push(p)[0] == p);
        assert(locs.push(p).drop_first() =~= Seq::<(Seq<char>, Seq<nat>)>::empty());
        assert(all_members(Seq::<(Seq<char>, Seq<nat>)>::empty()) == Seq::<nat>::empty());
        assert(p.1 + Seq::<nat>::empty() =~= p.1);
        assert(Seq::<nat>::empty() + p.1 =~= p.1);
    } else {
        lemma_all_members_push(locs.drop_first(), p);
        assert(locs.push(p)[0] == locs[0]);
        assert(locs.push(p).drop_first() =~= locs.drop_first().push(p));
        assert(locs[0].1 + (all_members(locs.drop_first()) + p.1) =~= (locs[0].1 + all_members(
            locs.drop_first(),
        )) + p.1);
    }
}

/// Extending one location's member list by an identity raises exactly that
/// identity's occurrence count.
pub proof fn lemma_all_members_update(
    locs: Seq<(Seq<char>, Seq<nat>)>,
    j: int,
    id: nat,
    x: nat,
)
    requires
        0 <= j < locs.len(),
    ensures
        occ(all_members(locs.update(j, (locs[j].0, locs[j].1.push(id)))), x) == occ(
            all_members(locs),
            x,
        ) + (if id == x {
            1nat
        } else {
            0nat
        }),
    decreases locs,
{
    let upd = locs.update(j, (locs[j].0, locs[j].1.push(id)));
    if j == 0 {
        assert(upd[0] == (locs[0].0, locs[0].1.push(id)));
        assert(upd.drop_first() =~= locs.drop_first());
        lemma_occ_concat(locs[0].1.push(id), all_members(locs.drop_first()), x);
        lemma_occ_concat(locs[0].1, all_members(locs.drop_first()), x);
        lemma_occ_push(locs[0].1, id, x);
    } else {
        lemma_all_members_update(locs.drop_first(), j - 1, id, x);
        assert(upd[0] == locs[0]);
        assert(upd.drop_first() =~= locs.drop_first().update(
            j - 1,
            (locs.drop_first()[j - 1].0, locs.drop_first()[j - 1].1.push(id)),
        ));
        assert(locs.drop_first()[j - 1] == locs[j]);
        lemma_occ_concat(locs[0].1, all_members(upd.drop_first()), x);
        lemma_occ_concat(locs[0].1, all_members(locs.drop_first()), x);
    }
}

/// Adding an identity to the location map raises exactly that identity's
/// occurrence count, wherever it is grouped.
pub proof fn lemma_upsert_occ(locs: Seq<(Seq<char>, Seq<nat>)>, text: Seq<char>, id: nat, x: nat)
    ensures
        occ(all_members(upsert_loc(locs, text, id)), x) == occ(all_members(locs), x) + (if id
            == x {
            1nat
        } else {
            0nat
        }),
{
    lemma_find_loc(locs, text);
    let j = find_loc(locs, text);
    if j < 0 {
        lemma_all_members_push(locs, (text, seq![id]));
        lemma_occ_concat(all_members(locs), seq![id], x);
        assert(occ(seq![id], x) == (if id == x {
            1nat
        } else {
            0nat
        })) by {
            assert(seq![id][0] == id);
            assert(seq![id].drop_first() =~= Seq::<nat>::empty());
            assert(occ(Seq::<nat>::empty(), x) == 0);
        }
    } else {
        lemma_all_members_update(locs, j, id, x);
    }
}

/// Grouping marked declarations into locations keeps each of them exactly
/// once.
pub proof fn lemma_build_locs_occ(
    defs: Seq<DefV>,
    reach: Seq<bool>,
    i: nat,
    acc: Seq<(Seq<char>, Seq<nat>)>,
    x: nat,
)
    ensures
        occ(all_members(build_locs(defs, reach, i, acc)), x) == occ(all_members(acc), x) + (if i
            <= x < defs.len() && x < reach.len() && reach[x as int] {
            1nat
        } else {
            0nat
        }),
    decreases defs.len() - i,
{
    if i < defs.len() {
        if i < reach.len() && reach[i as int] {
            let acc2 = upsert_loc(acc, loc_text_of(defs, i), i);
            lemma_upsert_occ(acc, loc_text_of(defs, i), i, x);
            lemma_build_locs_occ(defs, reach, i + 1, acc2, x);
        } else {
            lemma_build_locs_occ(defs, reach, i + 1, acc, x);
        }
    }
}

/// LAW: the export grouping holds every marked declaration exactly once and
/// nothing else: across all output locations no declaration is duplicated
/// and none is dropped, however cyclic the dependency graph is.
pub proof fn lemma_export_members_unique(defs: Seq<DefV>, reach: Seq<bool>, x: nat)
    ensures
        occ(all_members(build_locs(defs, reach, 0, Seq::empty())), x) == (if x < defs.len() && x
            < reach.len() && reach[x as int] {
            1nat
        } else {
            0nat
        }),
{
    lemma_build_locs_occ(defs, reach, 0, Seq::empty(), x);
    assert(all_members(Seq::<(Seq<char>, Seq<nat>)>::empty()) =~= Seq::<nat>::empty());
    assert(occ(Seq::<nat>::empty(), x) == 0);
}

/// Whether a string is among the parts.
#[verifier::loop_isolation(false)]
pub fn contains_str(v: &Vec<String>, s: &String) -> (r: bool)
    ensures
        r == v@.map_values(|x: String| x@).contains(s@),
{
    let ghost vv = v@.map_values(|x: String| x@);
    let mut i: usize = 0;
    while i < v.len()
        invariant
            i <= v@.len(),
            forall|j: int| 0 <= j < i ==> #[trigger] vv[j] != s@,
        decreases v@.len() - i,
    {
        if crate::naming::str_is(&v[i], s.as_str()) {
            proof {
                assert(vv[i as int] == s@);
            }
            return true;
        }
        i = i + 1;
    }
    proof {
        assert(!vv.contains(s@));
    }
    false
}

/// The dependencies of all the members, concatenated in member order.
pub open spec fn members_deps(defs: Seq<DefV>, members: Seq<nat>) -> Seq<nat>
    decreases members,
{
    if members.len() == 0 {
        Seq::empty()
    } else {
        (if members[0] < defs.len() {
            def_ids(defs[members[0] as int])
        } else {
            Seq::empty()
        }) + members_deps(defs, members.drop_first())
    }
}

/// The names of the dependencies that live at the given location, in order.
pub open spec fn idents_for(defs: Seq<DefV>, deps: Seq<nat>, mtext: Seq<char>) -> Seq<Seq<char>>
    decreases deps,
{
    if deps.len() == 0 {
        Seq::empty()
    } else {
        (if deps[0] < defs.len() && loc_text_of(defs, deps[0]) == mtext {
            seq![defs[deps[0] as int].ts_name]
        } else {
            Seq::empty()
        }) + idents_for(defs, deps.drop_first(), mtext)
    }
}

/// The parts with later repetitions of the same text removed.
pub open spec fn dedup_strs(s: Seq<Seq<char>>, seen: Seq<Seq<char>>) -> Seq<Seq<char>>
    decreases s,
{
    if s.len() == 0 {
        Seq::empty()
    } else if seen.contains(s[0]) {
        dedup_strs(s.drop_first(), seen)
    } else {
        seq![s[0]] + dedup_strs(s.drop_first(), seen.push(s[0]))
    }
}

/// Removes later repetitions of the same text.
#[verifier::loop_isolation(false)]
pub fn dedup(v: &Vec<String>) -> (r: Vec<String>)
    ensures
        r@.map_values(|x: String| x@) == dedup_strs(
            v@.map_values(|x: String| x@),
            Seq::empty(),
        ),
{
    let ghost vv = v@.map_values(|x: String| x@);
    let mut out: Vec<String> = Vec::new();
    let mut seen: Vec<String> = Vec::new();
    let mut i: usize = 0;
    proof {
        assert(vv.skip(0) =~= vv);
        assert(out@.map_values(|x: String| x@) =~= Seq::<Seq<char>>::empty());
        assert(seen@.map_values(|x: String| x@) =~= Seq::<Seq<char>>::empty());
    }
    while i < v.len()
        invariant
            i <= v@.len(),
            dedup_strs(vv, Seq::empty()) == out@.map_values(|x: String| x@) + dedup_strs(
                vv.skip(i as int),
                seen@.map_values(|x: String| x@),
            ),
        decreases v@.len() - i,
    {
        let ghost outv = out@.map_values(|x: String| x@);
        let ghost seenv = seen@.map_values(|x: String| x@);
        proof {
            assert(vv.skip(i as int)[0] == vv[i as int]);
            assert(vv.skip(i as int).drop_first() =~= vv.skip(i + 1));
        }
        if !contains_str(&seen, &v[i]) {
            out.push(v[i].clone());
            seen.push(v[i].clone());
            proof {
                assert(out@.map_values(|x: String| x@) =~= outv.push(vv[i as int]));
                assert(seen@.map_values(|x: String| x@) =~= seenv.push(vv[i as int]));
                let rest = dedup_strs(vv.skip(i + 1), seenv.push(vv[i as int]));
                assert(outv.push(vv[i as int]) + rest =~= outv + (seq![vv[i as int]] + rest));
            }
        }
        i = i + 1;
    }
    proof {
        assert(vv.skip(v@.len() as int) =~= Seq::<Seq<char>>::empty());
        assert(dedup_strs(Seq::<Seq<char>>::empty(), seen@.map_values(|x: String| x@)) =~= Seq::<
            Seq<char>,
        >::empty());
        assert(out@.map_values(|x: String| x@) + Seq::<Seq<char>>::empty() =~= out@.map_values(
            |x: String| x@,
        ));
    }
    out
}

/// The first marked declaration whose output path escapes the base
/// directory, or `-1`.
pub open spec fn first_bad(defs: Seq<DefV>, reach: Seq<bool>, i: nat) -> int
    decreases defs.len() - i,
{
    if i >= defs.len() {
        -1
    } else if i < reach.len() && reach[i as int] && def_comps(defs[i as int]) is None {
        i as int
    } else {
        first_bad(defs, reach, i + 1)
    }
}

/// The declarations of the members, each preceded by its doc block and
/// followed by a newline, in member order.
pub open spec fn decls_spec(defs: Seq<DefV>, members: Seq<nat>, fuel: nat) -> Result<
    Seq<char>,
    crate::compile::CompFail,
>
    decreases members,
{
    if members.len() == 0 {
        Ok(Seq::empty())
    } else {
        let id = members[0];
        if id < defs.len() {
            match crate::compile::decl_spec(
                defs,
                TyV::Named { id, args: crate::compile::param_args(defs[id as int].generics) },
                fuel,
            ) {
                Ok(dc) => match decls_spec(defs, members.drop_first(), fuel) {
                    Ok(rest) => Ok(defs[id as int].docs + dc + "\n"@ + rest),
                    Err(f) => Err(f),
                },
                Err(f) => Err(f),
            }
        } else {
            decls_spec(defs, members.drop_first(), fuel)
        }
    }
}

/// The import block of a location: one line per distinct other location
/// that its members' dependencies live at, naming every distinct type
/// imported from it.
pub open spec fn imports_spec(
    defs: Seq<DefV>,
    locs: Seq<(Seq<char>, Seq<nat>)>,
    own_text: Seq<char>,
    own_comps: Seq<Seq<char>>,
    deps: Seq<nat>,
    esm: bool,
) -> Seq<char>
    decreases locs,
{
    if locs.len() == 0 {
        Seq::empty()
    } else {
        let mtext = locs[0].0;
        let mmembers = locs[0].1;
        let line = if mtext == own_text || mmembers.len() == 0 {
            Seq::<char>::empty()
        } else {
            let ids = dedup_strs(idents_for(defs, deps, mtext), Seq::empty());
            let mcomps = if mmembers[0] < defs.len() {
                match def_comps(defs[mmembers[0] as int]) {
                    Some(c) => c,
                    None => Seq::empty(),
                }
            } else {
                Seq::empty()
            };
            if ids.len() == 0 || own_comps.len() == 0 || mcomps.len() == 0 {
                Seq::<char>::empty()
            } else {
                "import { "@ + crate::strutil::join_with(ids, ", "@) + " } from \""@ + rel_import(
                    own_comps,
                    mcomps,
                    esm,
                ) + "\";\n"@
            }
        };
        line + imports_spec(defs, locs.drop_first(), own_text, own_comps, deps, esm)
    }
}

/// The text of one output file: the import block, a separating blank line
/// when there are imports, and the members' declarations.
pub open spec fn file_spec(
    defs: Seq<DefV>,
    loc: (Seq<char>, Seq<nat>),
    locs_all: Seq<(Seq<char>, Seq<nat>)>,
    esm: bool,
    fuel: nat,
) -> Result<Seq<char>, crate::compile::CompFail> {
    let deps = members_deps(defs, loc.1);
    let own_comps = if loc.1.len() > 0 && loc.1[0] < defs.len() {
        match def_comps(defs[loc.1[0] as int]) {
            Some(c) => c,
            None => Seq::empty(),
        }
    } else {
        Seq::empty()
    };
    let imports = imports_spec(defs, locs_all, loc.0, own_comps, deps, esm);
    match decls_spec(defs, loc.1, fuel) {
        Ok(ds) => Ok(
            imports + (if imports.len() > 0 {
                "\n"@
            } else {
                Seq::<char>::empty()
            }) + ds,
        ),
        Err(f) => Err(f),
    }
}

/// The output files of the given locations, in order: each location's path
/// text with its file text.
pub open spec fn files_spec(
    defs: Seq<DefV>,
    rest: Seq<(Seq<char>, Seq<nat>)>,
    locs_all: Seq<(Seq<char>, Seq<nat>)>,
    esm: bool,
    fuel: nat,
) -> Result<Seq<(Seq<char>, Seq<char>)>, crate::compile::CompFail>
    decreases rest,
{
    if rest.len() == 0 {
        Ok(Seq::empty())
    } else {
        match file_spec(defs, rest[0], locs_all, esm, fuel) {
            Ok(c) => match files_spec(defs, rest.drop_first(), locs_all, esm, fuel) {
                Ok(fs) => Ok(seq![(rest[0].0, c)] + fs),
                Err(f) => Err(f),
            },
            Err(f) => Err(f),
        }
    }
}

/// What exporting a type and all of its dependencies produces: one file per
/// distinct output location of the reachable declarations, in order of
/// first appearance, holding each member's declaration exactly once and the
/// cross-file import block. Only a declared type can be a root; a path that
/// escapes the base directory fails before any file is produced.
pub open spec fn export_files_spec(defs: Seq<DefV>, t: TyV, esm: bool, fuel: nat) -> Result<
    Seq<(Seq<char>, Seq<char>)>,
    crate::compile::CompFail,
> {
    match t {
        TyV::Named { id, .. } => if id < defs.len() {
            let reach = Seq::new(defs.len(), |i: int| reachable(defs, id, i as nat));
            let bad = first_bad(defs, reach, 0);
            if bad >= 0 {
                Err(crate::compile::CompFail::Path { path: def_path(defs[bad]) })
            } else {
                let locs = build_locs(defs, reach, 0, Seq::empty());
                files_spec(defs, locs, locs, esm, fuel)
            }
        } else {
            Err(crate::compile::CompFail::Export { name: name_spec(defs, t) })
        },
        _ => Err(crate::compile::CompFail::Export { name: name_spec(defs, t) }),
    }
}

impl Registry {
    /// The location text of the declaration with the given identity.
    pub fn loc_text(&self, id: usize) -> (r: String)
        requires
            id < self.defs@.len(),
        ensures
            r@ == loc_text_of(self@, id as nat),
    {
        proof {
            assert(self@[id as int] == def_view(self.defs@[id as int]));
        }
        let p = output_path(&self.defs[id]);
        match normalize_path(p.as_str()) {
            Ok(comps) => join_path(&comps),
            Err(_) => String::new(),
        }
    }

    /// The normalized location components of the declaration, or nothing
    /// for an invalid path.
    fn loc_comps(&self, id: usize) -> (r: Vec<String>)
        requires
            id < self.defs@.len(),
        ensures
            r@.map_values(|x: String| x@) == (match def_comps(self@[id as int]) {
                Some(c) => c,
                None => Seq::<Seq<char>>::empty(),
            }),
    {
        proof {
            assert(self@[id as int] == def_view(self.defs@[id as int]));
        }
        let p = output_path(&self.defs[id]);
        match normalize_path(p.as_str()) {
            Ok(comps) => comps,
            Err(_) => {
                let r: Vec<String> = Vec::new();
                proof {
                    assert(r@.map_values(|x: String| x@) =~= Seq::<Seq<char>>::empty());
                }
                r
            },
        }
    }

    /// Groups the marked declarations by output location, in order of first
    /// appearance, members in ascending identity order.
    #[verifier::loop_isolation(false)]
    fn build_locations(&self, reach: &Vec<bool>) -> (r: Vec<(String, Vec<usize>)>)
        requires
            self.wf(),
            reach@.len() == self@.len(),
        ensures
            locs_view(r@) == build_locs(self@, reach@, 0, Seq::empty()),
    {
        let n = self.defs.len();
        let mut locs: Vec<(String, Vec<usize>)> = Vec::new();
        let mut i: usize = 0;
        proof {
            assert(locs_view(locs@) =~= Seq::<(Seq<char>, Seq<nat>)>::empty());
        }
        while i < n
            invariant
                i <= n,
                build_locs(self@, reach@, 0, Seq::empty()) == build_locs(
                    self@,
                    reach@,
                    i as nat,
                    locs_view(locs@),
                ),
            decreases n - i,
        {
            let ghost before = locs_view(locs@);
            if reach[i] {
                let text = self.loc_text(i);
                let ghost gt = text@;
                proof {
                    lemma_find_loc(before, gt);
                }
                let mut j: usize = 0;
                let mut found = false;
                while j < locs.len()
                    invariant
                        j <= locs@.len(),
                        locs_view(locs@) == before,
                        found ==> j < locs@.len() && before[j as int].0 == gt,
                        forall|x: int| 0 <= x < j ==> (#[trigger] before[x]).0 != gt,
                    decreases locs@.len() - j,
                {
                    if crate::naming::str_is(&locs[j].0, text.as_str()) {
                        found = true;
                        break;
                    }
                    j = j + 1;
                }
                if found {
                    proof {
                        lemma_find_loc(before, gt);
                        assert(before[j as int].0 == gt);
                        assert(find_loc(before, gt) != -1);
                        assert(find_loc(before, gt) == j as int);
                    }
                    let ghost oldvec = locs@;
                    locs[j].1.push(i);
                    proof {
                        assert(locs@.len() == oldvec.len());
                        assert(forall|x: int|
                            0 <= x < locs@.len() && x != j ==> locs@[x] == oldvec[x]);
                        assert(locs@[j as int].0 == oldvec[j as int].0);
                        assert(locs@[j as int].1@ =~= oldvec[j as int].1@.push(i));
                        assert(locs@[j as int].1@.map_values(|u: usize| u as nat)
                            =~= before[j as int].1.push(i as nat));
                        assert forall|x: int| 0 <= x < locs@.len() implies locs_view(locs@)[x]
                            == before.update(
                            j as int,
                            (before[j as int].0, before[j as int].1.push(i as nat)),
                        )[x] by {
                            assert(locs_view(locs@)[x] == (locs@[x].0@, locs@[x].1@.map_values(
                                |u: usize| u as nat,
                            )));
                            assert(before[x] == (oldvec[x].0@, oldvec[x].1@.map_values(
                                |u: usize| u as nat,
                            )));
                        }
                        assert(locs_view(locs@) =~= before.update(
                            j as int,
                            (before[j as int].0, before[j as int].1.push(i as nat)),
                        ));
                        assert(locs_view(locs@) == upsert_loc(before, gt, i as nat));
                    }
                } else {
                    proof {
                        assert(find_loc(before, gt) == -1);
                    }
                    let mut ms: Vec<usize> = Vec::new();
                    ms.push(i);
                    let ghost msv = ms@;
                    let ghost oldlocs = locs@;
                    locs.push((text, ms));
                    proof {
                        lemma_find_loc(before, gt);
                        assert(msv.map_values(|u: usize| u as nat) =~= seq![i as nat]);
                        assert(locs@.len() == oldlocs.len() + 1);
                        assert forall|x: int| 0 <= x < locs@.len() implies locs_view(locs@)[x]
                            == before.push((gt, seq![i as nat]))[x] by {
                            if x < oldlocs.len() {
                                assert(locs@[x] == oldlocs[x]);
                                assert(locs_view(locs@)[x] == (locs@[x].0@, locs@[x].1@.map_values(
                                    |u: usize| u as nat,
                                )));
                            } else {
                                assert(locs@[x].0@ == gt);
                                assert(locs@[x].1@ == msv);
                            }
                        }
                        assert(locs_view(locs@) =~= before.push((gt, seq![i as nat])));
                        assert(locs_view(locs@) == upsert_loc(before, gt, i as nat));
                    }
                }
            }
            i = i + 1;
        }
        locs
    }

    /// The dependencies of all the members, concatenated in member order.
    #[verifier::loop_isolation(false)]
    #[verifier::rlimit(100)]
    fn members_deps_vec(&self, members: &Vec<usize>) -> (r: Vec<usize>)
        ensures
            r@.map_values(|u: usize| u as nat) == members_deps(
                self@,
                members@.map_values(|u: usize| u as nat),
            ),
    {
        let ghost mv = members@.map_values(|u: usize| u as nat);
        let mut out: Vec<usize> = Vec::new();
        let mut i: usize = 0;
        proof {
            assert(mv.skip(0) =~= mv);
            assert(out@.map_values(|u: usize| u as nat) =~= Seq::<nat>::empty());
            assert(Seq::<nat>::empty() + members_deps(self@, mv) =~= members_deps(self@, mv));
        }
        while i < members.len()
            invariant
                i <= members@.len(),
                members_deps(self@, mv) == out@.map_values(|u: usize| u as nat) + members_deps(
                    self@,
                    mv.skip(i as int),
                ),
            decreases members@.len() - i,
        {
            let ghost cur = out@.map_values(|u: usize| u as nat);
            proof {
                assert(mv.skip(i as int)[0] == mv[i as int]);
                assert(mv.skip(i as int).drop_first() =~= mv.skip(i + 1));
            }
            let m = members[i];
            let ghost head = if mv[i as int] < self@.len() {
                def_ids(self@[mv[i as int] as int])
            } else {
                Seq::<nat>::empty()
            };
            if m < self.defs.len() {
                proof {
                    assert(self@[m as int] == def_view(self.defs@[m as int]));
                }
                let ids = def_dep_ids(&self.defs[m]);
                let mut x: usize = 0;
                let ghost idsv = ids@.map_values(|u: usize| u as nat);
                while x < ids.len()
                    invariant
                        x <= ids@.len(),
                        out@.map_values(|u: usize| u as nat) == cur + idsv.take(x as int),
                    decreases ids@.len() - x,
                {
                    if x == 0 {
                        proof {
                            assert(idsv.take(0) =~= Seq::<nat>::empty());
                            assert(cur + Seq::<nat>::empty() =~= cur);
                        }
                    }
                    out.push(ids[x]);
                    proof {
                        assert(idsv.take(x + 1) =~= idsv.take(x as int).push(idsv[x as int]));
                        assert(out@.map_values(|u: usize| u as nat) =~= (cur + idsv.take(
                            x as int,
                        )).push(idsv[x as int]));
                        assert((cur + idsv.take(x as int)).push(idsv[x as int]) =~= cur
                            + idsv.take(x as int).push(idsv[x as int]));
                    }
                    x = x + 1;
                }
                proof {
                    assert(idsv.take(ids@.len() as int) =~= idsv);
                }
            } else {
                proof {
                    assert(cur + Seq::<nat>::empty() =~= cur);
                }
            }
            proof {
                assert(cur + head + members_deps(self@, mv.skip(i + 1)) =~= cur + (head
                    + members_deps(self@, mv.skip(i + 1))));
            }
            i = i + 1;
        }
        proof {
            assert(mv.skip(members@.len() as int) =~= Seq::<nat>::empty());
            assert(out@.map_values(|u: usize| u as nat) + Seq::<nat>::empty() =~= out@.map_values(
                |u: usize| u as nat,
            ));
        }
        out
    }

    /// The names of the dependencies living at the given location.
    #[verifier::loop_isolation(false)]
    fn idents_at(&self, deps: &Vec<usize>, mtext: &String) -> (r: Vec<String>)
        ensures
            r@.map_values(|x: String| x@) == idents_for(
                self@,
                deps@.map_values(|u: usize| u as nat),
                mtext@,
            ),
    {
        let ghost dv = deps@.map_values(|u: usize| u as nat);
        let mut out: Vec<String> = Vec::new();
        let mut i: usize = 0;
        proof {
            assert(dv.skip(0) =~= dv);
            assert(out@.map_values(|x: String| x@) =~= Seq::<Seq<char>>::empty());
            assert(Seq::<Seq<char>>::empty() + idents_for(self@, dv, mtext@) =~= idents_for(
                self@,
                dv,
                mtext@,
            ));
        }
        while i < deps.len()
            invariant
                i <= deps@.len(),
                idents_for(self@, dv, mtext@) == out@.map_values(|x: String| x@) + idents_for(
                    self@,
                    dv.skip(i as int),
                    mtext@,
                ),
            decreases deps@.len() - i,
        {
            let ghost cur = out@.map_values(|x: String| x@);
            proof {
                assert(dv.skip(i as int)[0] == dv[i as int]);
                assert(dv.skip(i as int).drop_first() =~= dv.skip(i + 1));
            }
            let d = deps[i];
            let ghost head = if dv[i as int] < self@.len() && loc_text_of(self@, dv[i as int])
                == mtext@ {
                seq![self@[dv[i as int] as int].ts_name]
            } else {
                Seq::<Seq<char>>::empty()
            };
            if d < self.defs.len() {
                let t = self.loc_text(d);
                if crate::naming::str_is(&t, mtext.as_str()) {
                    proof {
                        assert(self@[d as int] == def_view(self.defs@[d as int]));
                    }
                    out.push(self.defs[d].ts_name.clone());
                    proof {
                        assert(out@.map_values(|x: String| x@) =~= cur.push(
                            self@[d as int].ts_name,
                        ));
                        assert(cur.push(self@[d as int].ts_name) =~= cur + head);
                    }
                } else {
                    proof {
                        assert(cur + Seq::<Seq<char>>::empty() =~= cur);
                    }
                }
            } else {
                proof {
                    assert(cur + Seq::<Seq<char>>::empty() =~= cur);
                }
            }
            proof {
                assert(cur + head + idents_for(self@, dv.skip(i + 1), mtext@) =~= cur + (head
                    + idents_for(self@, dv.skip(i + 1), mtext@)));
            }
            i = i + 1;
        }
        proof {
            assert(dv.skip(deps@.len() as int) =~= Seq::<nat>::empty());
            assert(idents_for(self@, Seq::<nat>::empty(), mtext@) =~= Seq::<Seq<char>>::empty());
            assert(out@.map_values(|x: String| x@) + Seq::<Seq<char>>::empty() =~= out@.map_values(
                |x: String| x@,
            ));
        }
        out
    }
}

impl Registry {
    /// The declarations of the members, each preceded by its doc block and
    /// followed by a newline.
    #[verifier::loop_isolation(false)]
    fn decls_text(&self, members: &Vec<usize>, fuel: usize) -> (r: Result<String, Error>)
        requires
            self.wf(),
            fuel as nat == crate::compile::default_fuel(self@),
        ensures
            crate::compile::str_res_matches(
                decls_spec(self@, members@.map_values(|u: usize| u as nat), fuel as nat),
                r,
            ),
    {
        let ghost mv = members@.map_values(|u: usize| u as nat);
        let mut out = String::new();
        let mut i: usize = 0;
        proof {
            assert(mv.skip(0) =~= mv);
        }
        while i < members.len()
            invariant
                i <= members@.len(),
                decls_spec(self@, mv, fuel as nat) == (match decls_spec(
                    self@,
                    mv.skip(i as int),
                    fuel as nat,
                ) {
                    Ok(rest) => Ok::<Seq<char>, crate::compile::CompFail>(out@ + rest),
                    Err(f) => Err(f),
                }),
            decreases members@.len() - i,
        {
            let ghost cur = out@;
            proof {
                assert(mv.skip(i as int)[0] == mv[i as int]);
                assert(mv.skip(i as int).drop_first() =~= mv.skip(i + 1));
            }
            let m = members[i];
            if m < self.defs.len() {
                let d = &self.defs[m];
                proof {
                    assert(self@[m as int] == def_view(self.defs@[m as int]));
                    assert(wf_def(self@, self@[m as int]));
                }
                let params = crate::compile::param_args_vec(&d.generics);
                let named = TypeRef::Named { id: m, args: params };
                proof {
                    lemma_tys_view(named.arrow_Named_args()@);
                    crate::ty::lemma_wf_tys(self@, tys_view(named.arrow_Named_args()@));
                    assert(wf_ty(self@, named@)) by {
                        assert(named@ is Named);
                        assert(named@.arrow_Named_args() == crate::compile::param_args(
                            self@[m as int].generics,
                        ));
                        assert forall|x: int|
                            0 <= x < tys_view(named.arrow_Named_args()@).len() implies wf_ty(
                            self@,
                            #[trigger] tys_view(named.arrow_Named_args()@)[x],
                        ) by {
                            assert(tys_view(named.arrow_Named_args()@)[x] == ty_view(
                                named.arrow_Named_args()@[x],
                            ));
                        }
                    }
                }
                let dc = self.decl(&named)?;
                out.append(d.docs.as_str());
                out.append(dc.as_str());
                out.append("\n");
                proof {
                    assert(out@ =~= cur + (self@[m as int].docs + dc@ + "\n"@));
                    match decls_spec(self@, mv.skip(i + 1), fuel as nat) {
                        Ok(rest2) => {
                            assert(cur + (self@[m as int].docs + dc@ + "\n"@) + rest2 =~= cur + (
                            self@[m as int].docs + dc@ + "\n"@ + rest2));
                        },
                        Err(_) => {},
                    }
                }
            }
            i = i + 1;
        }
        proof {
            assert(mv.skip(members@.len() as int) =~= Seq::<nat>::empty());
            assert(out@ + Seq::<char>::empty() =~= out@);
        }
        Ok(out)
    }

    /// The import block of a location.
    #[verifier::loop_isolation(false)]
    fn imports_text(
        &self,
        locs: &Vec<(String, Vec<usize>)>,
        own_text: &String,
        own_comps: &Vec<String>,
        deps: &Vec<usize>,
        esm: bool,
    ) -> (r: String)
        ensures
            r@ == imports_spec(
                self@,
                locs_view(locs@),
                own_text@,
                own_comps@.map_values(|x: String| x@),
                deps@.map_values(|u: usize| u as nat),
                esm,
            ),
    {
        let ghost lv = locs_view(locs@);
        let ghost oc = own_comps@.map_values(|x: String| x@);
        let ghost dv = deps@.map_values(|u: usize| u as nat);
        let mut out = String::new();
        let mut k: usize = 0;
        proof {
            assert(lv.skip(0) =~= lv);
        }
        while k < locs.len()
            invariant
                k <= locs@.len(),
                imports_spec(self@, lv, own_text@, oc, dv, esm) == out@ + imports_spec(
                    self@,
                    lv.skip(k as int),
                    own_text@,
                    oc,
                    dv,
                    esm,
                ),
            decreases locs@.len() - k,
        {
            let ghost cur = out@;
            proof {
                assert(lv.skip(k as int)[0] == lv[k as int]);
                assert(lv.skip(k as int).drop_first() =~= lv.skip(k + 1));
            }
            let mtext = &locs[k].0;
            let mmembers = &locs[k].1;
            let ghost head = ({
                let line = if lv[k as int].0 == own_text@ || lv[k as int].1.len() == 0 {
                    Seq::<char>::empty()
                } else {
                    let ids = dedup_strs(idents_for(self@, dv, lv[k as int].0), Seq::empty());
                    let mcomps = if lv[k as int].1[0] < self@.len() {
                        match def_comps(self@[lv[k as int].1[0] as int]) {
                            Some(c) => c,
                            None => Seq::empty(),
                        }
                    } else {
                        Seq::empty()
                    };
                    if ids.len() == 0 || oc.len() == 0 || mcomps.len() == 0 {
                        Seq::<char>::empty()
                    } else {
                        "import { "@ + crate::strutil::join_with(ids, ", "@) + " } from \""@
                            + rel_import(oc, mcomps, esm) + "\";\n"@
                    }
                };
                line
            });
            if !crate::naming::str_is(mtext, own_text.as_str()) && mmembers.len() > 0 {
                let raw = self.idents_at(deps, mtext);
                let ids = dedup(&raw);
                let m0 = mmembers[0];
                let mcomps: Vec<String> = if m0 < self.defs.len() {
                    self.loc_comps(m0)
                } else {
                    Vec::new()
                };
                proof {
                    if !(m0 < self.defs@.len()) {
                        assert(mcomps@.map_values(|x: String| x@) =~= Seq::<Seq<char>>::empty());
                    }
                }
                if ids.len() > 0 && own_comps.len() > 0 && mcomps.len() > 0 {
                    let joined = crate::strutil::join(&ids, ", ");
                    let rel = rel_import_path(own_comps, &mcomps, esm);
                    out.append("import { ");
                    out.append(joined.as_str());
                    out.append(" } from \"");
                    out.append(rel.as_str());
                    out.append("\";\n");
                    proof {
                        assert(out@ =~= cur + head);
                    }
                } else {
                    proof {
                        assert(out@ =~= cur + head);
                    }
                }
            } else {
                proof {
                    assert(out@ =~= cur + head);
                }
            }
            proof {
                assert(cur + head + imports_spec(self@, lv.skip(k + 1), own_text@, oc, dv, esm)
                    =~= cur + (head + imports_spec(self@, lv.skip(k + 1), own_text@, oc, dv, esm)));
            }
            k = k + 1;
        }
        proof {
            assert(lv.skip(locs@.len() as int) =~= Seq::<(Seq<char>, Seq<nat>)>::empty());
            assert(out@ + Seq::<char>::empty() =~= out@);
        }
        out
    }

    /// The text of one output file.
    fn file_text(
        &self,
        locs: &Vec<(String, Vec<usize>)>,
        k: usize,
        esm: bool,
        fuel: usize,
    ) -> (r: Result<String, Error>)
        requires
            self.wf(),
            k < locs@.len(),
            fuel as nat == crate::compile::default_fuel(self@),
        ensures
            crate::compile::str_res_matches(
                file_spec(self@, locs_view(locs@)[k as int], locs_view(locs@), esm, fuel as nat),
                r,
            ),
    {
        let deps = self.members_deps_vec(&locs[k].1);
        let own_comps: Vec<String> = if locs[k].1.len() > 0 && locs[k].1[0] < self.defs.len() {
            self.loc_comps(locs[k].1[0])
        } else {
            Vec::new()
        };
        proof {
            let loc = locs_view(locs@)[k as int];
            if !(loc.1.len() > 0 && loc.1[0] < self@.len()) {
                assert(own_comps@.map_values(|x: String| x@) =~= Seq::<Seq<char>>::empty());
            }
        }
        let imports = self.imports_text(locs, &locs[k].0, &own_comps, &deps, esm);
        let ds = self.decls_text(&locs[k].1, fuel)?;
        let mut out = imports;
        if !out.as_str().is_empty() {
            out.append("\n");
        }
        out.append(ds.as_str());
        proof {
            let loc = locs_view(locs@)[k as int];
            let ispec = imports_spec(
                self@,
                locs_view(locs@),
                loc.0,
                own_comps@.map_values(|x: String| x@),
                deps@.map_values(|u: usize| u as nat),
                esm,
            );
            if ispec.len() > 0 {
                assert(out@ =~= ispec + "\n"@ + ds@);
            } else {
                assert(out@ =~= ispec + Seq::<char>::empty() + ds@);
            }
        }
        Ok(out)
    }
}

impl Registry {
    /// Exports the type and all of its dependencies: one `(path, text)`
    /// pair per distinct output location of the reachable declarations, in
    /// order of first appearance, each declaration appearing exactly once.
    /// The walk is driven by the visited set, so it terminates on every
    /// graph, cyclic dependencies included. Fails for a root that is not a
    /// declared type, and for an output path that escapes the base
    /// directory, before any file is produced.
    #[verifier::loop_isolation(false)]
    pub fn export_all(&self, root: &TypeRef, esm: bool) -> (r: Result<
        Vec<(String, String)>,
        Error,
    >)
        requires
            self.wf(),
            wf_ty(self@, root@),
        ensures
            match export_files_spec(self@, root@, esm, crate::compile::default_fuel(self@)) {
                Ok(files) => match r {
                    Ok(v) => v@.map_values(|p: (String, String)| (p.0@, p.1@)) == files,
                    Err(_) => false,
                },
                Err(f) => match r {
                    Ok(_) => false,
                    Err(e) => crate::compile::comp_fail_matches(f, e),
                },
            },
    {
        let id: usize = match root {
            TypeRef::Named { id, .. } => *id,
            _ => {
                return Err(Error::CannotBeExported(self.name_of(root)));
            },
        };
        let n = self.defs.len();
        let reach = self.reachable_set(id);
        let ghost greach = Seq::new(self@.len(), |i: int| reachable(self@, id as nat, i as nat));
        proof {
            assert(reach@ =~= greach);
        }
        let mut i: usize = 0;
        while i < n
            invariant
                i <= n,
                reach@ == greach,
                first_bad(self@, greach, 0) == first_bad(self@, greach, i as nat),
            decreases n - i,
        {
            if reach[i] {
                proof {
                    assert(self@[i as int] == def_view(self.defs@[i as int]));
                }
                let p = output_path(&self.defs[i]);
                match normalize_path(p.as_str()) {
                    Ok(_) => {},
                    Err(e) => {
                        proof {
                            assert(def_comps(self@[i as int]) is None);
                            assert(first_bad(self@, greach, i as nat) == i as int);
                        }
                        return Err(e);
                    },
                }
            }
            i = i + 1;
        }
        proof {
            assert(first_bad(self@, greach, n as nat) == -1);
        }
        let locs = self.build_locations(&reach);
        let fuel = self.compile_fuel();
        let mut files: Vec<(String, String)> = Vec::new();
        let ghost lv = locs_view(locs@);
        let mut k: usize = 0;
        proof {
            assert(lv.skip(0) =~= lv);
        }
        while k < locs.len()
            invariant
                k <= locs@.len(),
                lv == locs_view(locs@),
                files_spec(self@, lv, lv, esm, fuel as nat) == (match files_spec(
                    self@,
                    lv.skip(k as int),
                    lv,
                    esm,
                    fuel as nat,
                ) {
                    Ok(fs) => Ok::<Seq<(Seq<char>, Seq<char>)>, crate::compile::CompFail>(
                        files@.map_values(|p: (String, String)| (p.0@, p.1@)) + fs,
                    ),
                    Err(f) => Err(f),
                }),
            decreases locs@.len() - k,
        {
            let ghost cur = files@.map_values(|p: (String, String)| (p.0@, p.1@));
            proof {
                assert(lv.skip(k as int)[0] == lv[k as int]);
                assert(lv.skip(k as int).drop_first() =~= lv.skip(k + 1));
            }
            let content = self.file_text(&locs, k, esm, fuel)?;
            files.push((locs[k].0.clone(), content));
            proof {
                assert(files@.map_values(|p: (String, String)| (p.0@, p.1@)) =~= cur.push(
                    (lv[k as int].0, files@[files@.len() - 1].1@),
                ));
                match files_spec(self@, lv.skip(k + 1), lv, esm, fuel as nat) {
                    Ok(fs2) => {
                        assert(cur.push((lv[k as int].0, files@[files@.len() - 1].1@)) + fs2
                            =~= cur + (seq![(lv[k as int].0, files@[files@.len() - 1].1@)] + fs2));
                    },
                    Err(_) => {},
                }
            }
            k = k + 1;
        }
        proof {
            assert(lv.skip(locs@.len() as int) =~= Seq::<(Seq<char>, Seq<nat>)>::empty());
            assert(files@.map_values(|p: (String, String)| (p.0@, p.1@)) + Seq::<
                (Seq<char>, Seq<char>),
            >::empty() =~= files@.map_values(|p: (String, String)| (p.0@, p.1@)));
        }
        Ok(files)
    }

    /// The expansion fuel used by the export operations.
    fn compile_fuel(&self) -> (r: usize)
        ensures
            r as nat == crate::compile::default_fuel(self@),
    {
        let n = self.defs.len();
        if n <= (usize::MAX - 2) / 2 {
            2 * n + 2
        } else {
            usize::MAX
        }
    }
}

/// The marks holding one declaration and its direct dependencies.
pub open spec fn direct_marks(defs: Seq<DefV>, id: nat) -> Seq<bool> {
    Seq::new(
        defs.len(),
        |i: int| i as nat == id || def_ids(defs[id as int]).contains(i as nat),
    )
}

/// What exporting a single type produces: its own output path and a file
/// holding only its declaration, with imports for its direct dependencies.
pub open spec fn export_single_spec(defs: Seq<DefV>, t: TyV, esm: bool, fuel: nat) -> Result<
    (Seq<char>, Seq<char>),
    crate::compile::CompFail,
> {
    match t {
        TyV::Named { id, .. } => if id < defs.len() {
            if def_comps(defs[id as int]) is None {
                Err(crate::compile::CompFail::Path { path: def_path(defs[id as int]) })
            } else {
                let locs = build_locs(defs, direct_marks(defs, id), 0, Seq::empty());
                match file_spec(defs, (loc_text_of(defs, id), seq![id]), locs, esm, fuel) {
                    Ok(c) => Ok((loc_text_of(defs, id), c)),
                    Err(f) => Err(f),
                }
            }
        } else {
            Err(crate::compile::CompFail::Export { name: name_spec(defs, t) })
        },
        _ => Err(crate::compile::CompFail::Export { name: name_spec(defs, t) }),
    }
}

impl Registry {
    /// Exports the type alone: its output path and a file holding only its
    /// declaration, with imports for its direct dependencies. Fails for a
    /// root that is not a declared type.
    #[verifier::loop_isolation(false)]
    pub fn export(&self, root: &TypeRef, esm: bool) -> (r: Result<(String, String), Error>)
        requires
            self.wf(),
            wf_ty(self@, root@),
        ensures
            match export_single_spec(self@, root@, esm, crate::compile::default_fuel(self@)) {
                Ok(pc) => match r {
                    Ok(v) => v.0@ == pc.0 && v.1@ == pc.1,
                    Err(_) => false,
                },
                Err(f) => match r {
                    Ok(_) => false,
                    Err(e) => crate::compile::comp_fail_matches(f, e),
                },
            },
    {
        let id: usize = match root {
            TypeRef::Named { id, .. } => *id,
            _ => {
                return Err(Error::CannotBeExported(self.name_of(root)));
            },
        };
        let n = self.defs.len();
        proof {
            assert(self@[id as int] == def_view(self.defs@[id as int]));
        }
        let p = output_path(&self.defs[id]);
        match normalize_path(p.as_str()) {
            Ok(_) => {},
            Err(e) => {
                return Err(e);
            },
        }
        let mut reach: Vec<bool> = Vec::new();
        let mut i: usize = 0;
        while i < n
            invariant
                i <= n,
                reach@.len() == i,
                forall|x: int| 0 <= x < i ==> !(#[trigger] reach@[x]),
            decreases n - i,
        {
            reach.push(false);
            i = i + 1;
        }
        reach[id] = true;
        proof {
            assert(wf_def(self@, self@[id as int]));
        }
        let ids = def_dep_ids(&self.defs[id]);
        let ghost gids = def_ids(self@[id as int]);
        let mut y: usize = 0;
        while y < ids.len()
            invariant
                y <= ids@.len(),
                reach@.len() == n,
                reach@[id as int],
                forall|x: int|
                    0 <= x < n ==> ((#[trigger] reach@[x]) <==> (x == id as int || exists|z: int|
                        0 <= z < y && gids[z] == x as nat)),
            decreases ids@.len() - y,
        {
            let d = ids[y];
            proof {
                assert(gids[y as int] == ids@[y as int] as nat);
            }
            if d < n {
                let ghost before = reach@;
                reach[d] = true;
                proof {
                    assert forall|x: int|
                        0 <= x < n implies ((#[trigger] reach@[x]) <==> (x == id as int || exists|
                            z: int,
                        |
                            0 <= z < y + 1 && gids[z] == x as nat)) by {
                        if x == d as int {
                            assert(gids[y as int] == x as nat);
                        } else {
                            assert(reach@[x] == before[x]);
                        }
                    }
                }
            } else {
                proof {
                    lemma_def_ids_bound(self@, self@[id as int]);
                    assert(gids[y as int] < self@.len());
                    assert(false);
                }
            }
            y = y + 1;
        }
        proof {
            assert(reach@ =~= direct_marks(self@, id as nat)) by {
                assert forall|x: int| 0 <= x < n implies reach@[x] == direct_marks(
                    self@,
                    id as nat,
                )[x] by {
                    if reach@[x] {
                        if x != id as int {
                            let z = choose|z: int|
                                0 <= z < ids@.len() && gids[z] == x as nat;
                            assert(gids.contains(x as nat));
                        }
                    } else {
                        if gids.contains(x as nat) {
                            let z = choose|z: int| 0 <= z < gids.len() && gids[z] == x as nat;
                        }
                    }
                }
            }
        }
        let locs = self.build_locations(&reach);
        let fuel = self.compile_fuel();
        let text = self.loc_text(id);
        let mut members: Vec<usize> = Vec::new();
        members.push(id);
        let deps = self.members_deps_vec(&members);
        let own_comps = self.loc_comps(id);
        let imports = self.imports_text(&locs, &text, &own_comps, &deps, esm);
        proof {
            assert(members@.map_values(|u: usize| u as nat) =~= seq![id as nat]);
        }
        let ds = self.decls_text(&members, fuel)?;
        let mut out = imports;
        if !out.as_str().is_empty() {
            out.append("\n");
        }
        out.append(ds.as_str());
        proof {
            let loc = (loc_text_of(self@, id as nat), seq![id as nat]);
            let ispec = imports_spec(
                self@,
                locs_view(locs@),
                loc.0,
                own_comps@.map_values(|x: String| x@),
                deps@.map_values(|u: usize| u as nat),
                esm,
            );
            if ispec.len() > 0 {
                assert(out@ =~= ispec + "\n"@ + ds@);
            } else {
                assert(out@ =~= ispec + Seq::<char>::empty() + ds@);
            }
        }
        Ok((text, out))
    }

    /// The file text of the type's own declaration, in memory, with no
    /// filesystem interaction.
    pub fn export_to_string(&self, root: &TypeRef, esm: bool) -> (r: Result<String, Error>)
        requires
            self.wf(),
            wf_ty(self@, root@),
        ensures
            match export_single_spec(self@, root@, esm, crate::compile::default_fuel(self@)) {
                Ok(pc) => match r {
                    Ok(v) => v@ == pc.1,
                    Err(_) => false,
                },
                Err(f) => match r {
                    Ok(_) => false,
                    Err(e) => crate::compile::comp_fail_matches(f, e),
                },
            },
    {
        let pc = self.export(root, esm)?;
        Ok(pc.1)
    }

    /// Exports the type and all of its dependencies under the given base
    /// directory: each file path is the base directory, a separator, and
    /// the file's relative path.
    #[verifier::loop_isolation(false)]
    pub fn export_all_to(&self, root: &TypeRef, out_dir: &str, esm: bool) -> (r: Result<
        Vec<(String, String)>,
        Error,
    >)
        requires
            self.wf(),
            wf_ty(self@, root@),
        ensures
            match export_files_spec(self@, root@, esm, crate::compile::default_fuel(self@)) {
                Ok(files) => match r {
                    Ok(v) => v@.map_values(|p: (String, String)| (p.0@, p.1@)) == files.map_values(
                        |f: (Seq<char>, Seq<char>)| (out_dir@ + "/"@ + f.0, f.1),
                    ),
                    Err(_) => false,
                },
                Err(f) => match r {
                    Ok(_) => false,
                    Err(e) => crate::compile::comp_fail_matches(f, e),
                },
            },
    {
        let files = self.export_all(root, esm)?;
        let ghost fv = files@.map_values(|p: (String, String)| (p.0@, p.1@));
        let mut out: Vec<(String, String)> = Vec::new();
        let mut i: usize = 0;
        while i < files.len()
            invariant
                i <= files@.len(),
                fv == files@.map_values(|p: (String, String)| (p.0@, p.1@)),
                out@.len() == i,
                forall|x: int|
                    0 <= x < i ==> (#[trigger] out@[x]).0@ == out_dir@ + "/"@ + fv[x].0
                        && out@[x].1@ == fv[x].1,
            decreases files@.len() - i,
        {
            let mut path = out_dir.to_owned();
            path.append("/");
            path.append(files[i].0.as_str());
            out.push((path, files[i].1.clone()));
            i = i + 1;
        }
        proof {
            assert(out@.map_values(|p: (String, String)| (p.0@, p.1@)) =~= fv.map_values(
                |f: (Seq<char>, Seq<char>)| (out_dir@ + "/"@ + f.0, f.1),
            ));
        }
        Ok(out)
    }
}

/// A typescript type which is depended upon by other types: the identity,
/// TypeScript name and output path needed to generate correct import
/// statements.
#[derive(Debug, Clone)]
pub struct Dependency {
    /// The identity of the declared type in the registry.
    pub type_id: usize,
    /// The name of the type in TypeScript, without generics.
    pub ts_name: String,
    /// The path the type is exported to, without a base directory.
    pub output_path: String,
}

impl Dependency {
    /// Builds a [`Dependency`] for the given type, or nothing when the type
    /// is not independently exportable (a built-in structural shape).
    pub fn from_ty(reg: &Registry, t: &TypeRef) -> (r: Option<Dependency>)
        requires
            reg.wf(),
            wf_ty(reg@, t@),
        ensures
            match t@ {
                TyV::Named { id, .. } => match r {
                    Some(d) => d.type_id as nat == id && d.ts_name@ == reg@[id as int].ts_name
                        && d.output_path@ == def_path(reg@[id as int]),
                    None => false,
                },
                _ => r is None,
            },
    {
        match t {
            TypeRef::Named { id, .. } => {
                proof {
                    assert(reg@[*id as int] == def_view(reg.defs@[*id as int]));
                }
                Some(
                    Dependency {
                        type_id: *id,
                        ts_name: reg.defs[*id].ts_name.clone(),
                        output_path: output_path(&reg.defs[*id]),
                    },
                )
            },
            _ => None,
        }
    }
}

/// The identities a type reference depends on: for a declared type its
/// declaration's dependencies and its generic arguments; otherwise the
/// declared types mentioned anywhere in the reference.
pub open spec fn ty_dep_ids(defs: Seq<DefV>, t: TyV) -> Seq<nat> {
    match t {
        TyV::Named { id, args } => if id < defs.len() {
            def_ids(defs[id as int]) + tys_ids(args)
        } else {
            tys_ids(args)
        },
        _ => ty_ids(t),
    }
}

/// The dependency records for the given identities, in order; identities
/// outside the registry are passed over.
pub open spec fn dep_entries(defs: Seq<DefV>, ids: Seq<nat>) -> Seq<(nat, Seq<char>, Seq<char>)>
    decreases ids,
{
    if ids.len() == 0 {
        Seq::empty()
    } else {
        (if ids[0] < defs.len() {
            seq![(ids[0], defs[ids[0] as int].ts_name, def_path(defs[ids[0] as int]))]
        } else {
            Seq::<(nat, Seq<char>, Seq<char>)>::empty()
        }) + dep_entries(defs, ids.drop_first())
    }
}

impl Registry {
    /// The dependencies of the type, as records with identity, TypeScript
    /// name and output path, in order of appearance and not deduplicated.
    #[verifier::loop_isolation(false)]
    pub fn dependencies(&self, t: &TypeRef) -> (r: Vec<Dependency>)
        requires
            self.wf(),
            wf_ty(self@, t@),
        ensures
            r@.map_values(|d: Dependency| (d.type_id as nat, d.ts_name@, d.output_path@))
                == dep_entries(self@, ty_dep_ids(self@, t@)),
    {
        let mut ids: Vec<usize> = Vec::new();
        proof {
            assert(ids@.map_values(|u: usize| u as nat) =~= Seq::<nat>::empty());
        }
        match t {
            TypeRef::Named { id, args } => {
                proof {
                    assert(self@[*id as int] == def_view(self.defs@[*id as int]));
                    assert(wf_def(self@, self@[*id as int]));
                }
                let base = def_dep_ids(&self.defs[*id]);
                let ghost bv = base@.map_values(|u: usize| u as nat);
                let mut x: usize = 0;
                while x < base.len()
                    invariant
                        x <= base@.len(),
                        ids@.map_values(|u: usize| u as nat) == bv.take(x as int),
                    decreases base@.len() - x,
                {
                    if x == 0 {
                        proof {
                            assert(bv.take(0) =~= Seq::<nat>::empty());
                        }
                    }
                    ids.push(base[x]);
                    proof {
                        assert(bv.take(x + 1) =~= bv.take(x as int).push(bv[x as int]));
                        assert(ids@.map_values(|u: usize| u as nat) =~= bv.take(x as int).push(
                            bv[x as int],
                        ));
                    }
                    x = x + 1;
                }
                proof {
                    assert(bv.take(base@.len() as int) =~= bv);
                }
                push_tys_ids(args, &mut ids);
                proof {
                    lemma_tys_view(args@);
                }
            },
            _ => {
                push_ty_ids(t, &mut ids);
                proof {
                    assert(Seq::<nat>::empty() + ty_ids(t@) =~= ty_ids(t@));
                }
            },
        }
        let ghost iv = ids@.map_values(|u: usize| u as nat);
        let mut r: Vec<Dependency> = Vec::new();
        let mut i: usize = 0;
        proof {
            assert(iv.skip(0) =~= iv);
            assert(r@.map_values(|d: Dependency| (d.type_id as nat, d.ts_name@, d.output_path@))
                =~= Seq::<(nat, Seq<char>, Seq<char>)>::empty());
            assert(Seq::<(nat, Seq<char>, Seq<char>)>::empty() + dep_entries(self@, iv)
                =~= dep_entries(self@, iv));
        }
        while i < ids.len()
            invariant
                i <= ids@.len(),
                iv == ids@.map_values(|u: usize| u as nat),
                dep_entries(self@, iv) == r@.map_values(
                    |d: Dependency| (d.type_id as nat, d.ts_name@, d.output_path@),
                ) + dep_entries(self@, iv.skip(i as int)),
            decreases ids@.len() - i,
        {
            let ghost cur = r@.map_values(
                |d: Dependency| (d.type_id as nat, d.ts_name@, d.output_path@),
            );
            proof {
                assert(iv.skip(i as int)[0] == iv[i as int]);
                assert(iv.skip(i as int).drop_first() =~= iv.skip(i + 1));
            }
            let d = ids[i];
            let ghost head = if iv[i as int] < self@.len() {
                seq![
                    (
                        iv[i as int],
                        self@[iv[i as int] as int].ts_name,
                        def_path(self@[iv[i as int] as int]),
                    ),
                ]
            } else {
                Seq::<(nat, Seq<char>, Seq<char>)>::empty()
            };
            if d < self.defs.len() {
                proof {
                    assert(self@[d as int] == def_view(self.defs@[d as int]));
                }
                r.push(
                    Dependency {
                        type_id: d,
                        ts_name: self.defs[d].ts_name.clone(),
                        output_path: output_path(&self.defs[d]),
                    },
                );
                proof {
                    assert(r@.map_values(
                        |d2: Dependency| (d2.type_id as nat, d2.ts_name@, d2.output_path@),
                    ) =~= cur + head);
                }
            } else {
                proof {
                    assert(cur + Seq::<(nat, Seq<char>, Seq<char>)>::empty() =~= cur);
                }
            }
            proof {
                assert(cur + head + dep_entries(self@, iv.skip(i + 1)) =~= cur + (head
                    + dep_entries(self@, iv.skip(i + 1))));
            }
            i = i + 1;
        }
        proof {
            assert(iv.skip(ids@.len() as int) =~= Seq::<nat>::empty());
            assert(r@.map_values(|d: Dependency| (d.type_id as nat, d.ts_name@, d.output_path@))
                + Seq::<(nat, Seq<char>, Seq<char>)>::empty() =~= r@.map_values(
                |d: Dependency| (d.type_id as nat, d.ts_name@, d.output_path@),
            ));
        }
        r
    }
}

/// The output base directory: an explicitly passed directory wins,
/// otherwise the environment-provided one, otherwise `./bindings`.
pub fn export_dir(cli_dir: Option<String>, env_dir: Option<String>) -> (r: String)
    ensures
        match cli_dir {
            Some(d) => r == d,
            None => match env_dir {
                Some(d) => r == d,
                None => r@ == "./bindings"@,
            },
        },
{
    match cli_dir {
        Some(d) => d,
        None => match env_dir {
            Some(d) => d,
            None => "./bindings".to_owned(),
        },
    }
}

} // verus!
