//! The type representation: references to built-in structural shapes and to
//! user-declared types in a registry, together with the schema of those
//! declarations (fields, variants, generics, attributes). The ghost mirror
//! types carry the same structure over mathematical values; every contract
//! in the compiler speaks of those.

use vstd::prelude::*;

use crate::attr::{ContainerAttr, ContainerAttrV, FieldAttr, FieldAttrV, VariantAttr, VariantAttrV};
use crate::error::Error;

verus! {

/// Fixed-size arrays longer than this are emitted as `Array<T>` instead of
/// a tuple form.
pub const ARRAY_TUPLE_LIMIT: usize = 64;

/// A reference to a type, as it appears in a field or variant position:
/// one of the closed set of built-in structural shapes, or a reference into
/// the registry of user-declared types.
#[derive(Debug)]
pub enum TypeRef {
    /// A scalar with a fixed TypeScript name, e.g. `number` or `string`.
    Prim { name: String },
    /// An optional value: `T | null`.
    Optional { inner: Box<TypeRef> },
    /// A growable collection: `Array<T>`.
    List { inner: Box<TypeRef> },
    /// A fixed-size array: `[T, T, ...]`, or `Array<T>` beyond the limit.
    FixedList { inner: Box<TypeRef>, len: usize },
    /// A positional tuple: `[A, B]`.
    Tuple { items: Vec<TypeRef> },
    /// A keyed map: `{ [key: K]: V }`.
    Record { key: Box<TypeRef>, value: Box<TypeRef> },
    /// A reference or smart pointer, transparent in the output.
    Wrapper { inner: Box<TypeRef> },
    /// A user-declared type in the registry, with concrete generic
    /// arguments.
    Named { id: usize, args: Vec<TypeRef> },
    /// An occurrence of a generic parameter by name.
    Param { name: String },
}

/// One struct field: its declared name, its type, and its resolved
/// attributes.
#[derive(Debug)]
pub struct Field {
    pub name: String,
    pub ty: TypeRef,
    pub attrs: FieldAttr,
}

/// The payload of an enum variant.
#[derive(Debug)]
pub enum Payload {
    /// No payload.
    Unit,
    /// A single unnamed field.
    Newtype { ty: TypeRef },
    /// Several unnamed fields, compiled as a positional tuple.
    Tuple { items: Vec<TypeRef> },
    /// Named fields, compiled as a nested struct.
    Struct { fields: Vec<Field> },
}

/// One enum variant: its discriminant name, its payload, and its resolved
/// attributes.
#[derive(Debug)]
pub struct Variant {
    pub name: String,
    pub payload: Payload,
    pub attrs: VariantAttr,
}

/// The shape of a user-declared type.
#[derive(Debug)]
pub enum Shape {
    Struct { fields: Vec<Field> },
    Enum { variants: Vec<Variant> },
}

/// One generic parameter of a declaration, with its optional default type.
#[derive(Debug)]
pub struct Generic {
    pub name: String,
    pub default: Option<TypeRef>,
}

/// One user-declared, exportable type: its display name, formatted doc
/// block, generic parameters in declaration order, shape, and resolved
/// container attributes.
#[derive(Debug)]
pub struct TypeDef {
    pub ts_name: String,
    pub docs: String,
    pub generics: Vec<Generic>,
    pub shape: Shape,
    pub attrs: ContainerAttr,
}

/// The registry of user-declared types; a `TypeRef::Named` refers to an
/// entry of it by index.
#[derive(Debug)]
pub struct Registry {
    pub defs: Vec<TypeDef>,
}

impl TypeDef {
    /// Builds a declaration from its declared name and resolved attributes:
    /// a container `rename` replaces the declared name as the display name.
    pub fn new(
        name: String,
        docs: String,
        generics: Vec<Generic>,
        shape: Shape,
        attrs: ContainerAttr,
    ) -> (d: TypeDef)
        ensures
            d.ts_name@ == (match attrs.rename {
                Some(r) => r@,
                None => name@,
            }),
            d.docs == docs,
            d.generics == generics,
            d.shape == shape,
            d.attrs == attrs,
    {
        let ts_name = match &attrs.rename {
            Some(r) => r.clone(),
            None => name,
        };
        TypeDef { ts_name, docs, generics, shape, attrs }
    }
}

/// The mathematical content of a type reference.
pub enum TyV {
    Prim { name: Seq<char> },
    Optional { inner: Box<TyV> },
    List { inner: Box<TyV> },
    FixedList { inner: Box<TyV>, len: nat },
    Tuple { items: Seq<TyV> },
    Record { key: Box<TyV>, value: Box<TyV> },
    Wrapper { inner: Box<TyV> },
    Named { id: nat, args: Seq<TyV> },
    Param { name: Seq<char> },
}

/// The mathematical content of a field.
pub struct FieldV {
    pub name: Seq<char>,
    pub ty: TyV,
    pub attrs: FieldAttrV,
}

/// The mathematical content of a variant payload.
pub enum PayloadV {
    Unit,
    Newtype { ty: TyV },
    Tuple { items: Seq<TyV> },
    Struct { fields: Seq<FieldV> },
}

/// The mathematical content of a variant.
pub struct VariantV {
    pub name: Seq<char>,
    pub payload: PayloadV,
    pub attrs: VariantAttrV,
}

/// The mathematical content of a shape.
pub enum ShapeV {
    Struct { fields: Seq<FieldV> },
    Enum { variants: Seq<VariantV> },
}

/// The mathematical content of a generic parameter.
pub struct GenericV {
    pub name: Seq<char>,
    pub default: Option<TyV>,
}

/// The mathematical content of a declaration.
pub struct DefV {
    pub ts_name: Seq<char>,
    pub docs: Seq<char>,
    pub generics: Seq<GenericV>,
    pub shape: ShapeV,
    pub attrs: ContainerAttrV,
}

/// The mathematical content of a type reference.
pub open spec fn ty_view(t: TypeRef) -> TyV
    decreases t,
{
    match t {
        TypeRef::Prim { name } => TyV::Prim { name: name@ },
        TypeRef::Optional { inner } => TyV::Optional { inner: Box::new(ty_view(*inner)) },
        TypeRef::List { inner } => TyV::List { inner: Box::new(ty_view(*inner)) },
        TypeRef::FixedList { inner, len } => TyV::FixedList {
            inner: Box::new(ty_view(*inner)),
            len: len as nat,
        },
        TypeRef::Tuple { items } => TyV::Tuple { items: tys_view(items@) },
        TypeRef::Record { key, value } => TyV::Record {
            key: Box::new(ty_view(*key)),
            value: Box::new(ty_view(*value)),
        },
        TypeRef::Wrapper { inner } => TyV::Wrapper { inner: Box::new(ty_view(*inner)) },
        TypeRef::Named { id, args } => TyV::Named { id: id as nat, args: tys_view(args@) },
        TypeRef::Param { name } => TyV::Param { name: name@ },
    }
}

/// The contents of a sequence of type references.
pub open spec fn tys_view(ts: Seq<TypeRef>) -> Seq<TyV>
    decreases ts,
{
    if ts.len() == 0 {
        Seq::empty()
    } else {
        seq![ty_view(ts[0])] + tys_view(ts.drop_first())
    }
}

/// The contents of a field.
pub open spec fn field_view(f: Field) -> FieldV {
    FieldV { name: f.name@, ty: ty_view(f.ty), attrs: f.attrs@ }
}

/// The contents of a sequence of fields.
pub open spec fn fields_view(fs: Seq<Field>) -> Seq<FieldV>
    decreases fs,
{
    if fs.len() == 0 {
        Seq::empty()
    } else {
        seq![field_view(fs[0])] + fields_view(fs.drop_first())
    }
}

/// The contents of a payload.
pub open spec fn payload_view(p: Payload) -> PayloadV {
    match p {
        Payload::Unit => PayloadV::Unit,
        Payload::Newtype { ty } => PayloadV::Newtype { ty: ty_view(ty) },
        Payload::Tuple { items } => PayloadV::Tuple { items: tys_view(items@) },
        Payload::Struct { fields } => PayloadV::Struct { fields: fields_view(fields@) },
    }
}

/// The contents of a variant.
pub open spec fn variant_view(v: Variant) -> VariantV {
    VariantV { name: v.name@, payload: payload_view(v.payload), attrs: v.attrs@ }
}

/// The contents of a sequence of variants.
pub open spec fn variants_view(vs: Seq<Variant>) -> Seq<VariantV>
    decreases vs,
{
    if vs.len() == 0 {
        Seq::empty()
    } else {
        seq![variant_view(vs[0])] + variants_view(vs.drop_first())
    }
}

/// The contents of a shape.
pub open spec fn shape_view(s: Shape) -> ShapeV {
    match s {
        Shape::Struct { fields } => ShapeV::Struct { fields: fields_view(fields@) },
        Shape::Enum { variants } => ShapeV::Enum { variants: variants_view(variants@) },
    }
}

/// The contents of a generic parameter.
pub open spec fn generic_view(g: Generic) -> GenericV {
    GenericV {
        name: g.name@,
        default: match g.default {
            Some(t) => Some(ty_view(t)),
            None => None,
        },
    }
}

/// The contents of a sequence of generic parameters.
pub open spec fn generics_view(gs: Seq<Generic>) -> Seq<GenericV> {
    gs.map_values(|g: Generic| generic_view(g))
}

/// The contents of a declaration.
pub open spec fn def_view(d: TypeDef) -> DefV {
    DefV {
        ts_name: d.ts_name@,
        docs: d.docs@,
        generics: generics_view(d.generics@),
        shape: shape_view(d.shape),
        attrs: d.attrs@,
    }
}

impl View for TypeRef {
    type V = TyV;

    open spec fn view(&self) -> TyV {
        ty_view(*self)
    }
}

impl View for Registry {
    type V = Seq<DefV>;

    open spec fn view(&self) -> Seq<DefV> {
        self.defs@.map_values(|d: TypeDef| def_view(d))
    }
}

/// The contents of a sequence of references is the sequence of contents.
pub proof fn lemma_tys_view(ts: Seq<TypeRef>)
    ensures
        tys_view(ts).len() == ts.len(),
        forall|i: int| 0 <= i < ts.len() ==> tys_view(ts)[i] == ty_view(#[trigger] ts[i]),
    decreases ts,
{
    if ts.len() > 0 {
        lemma_tys_view(ts.drop_first());
        assert(forall|i: int| 1 <= i < ts.len() ==> ts.drop_first()[i - 1] == #[trigger] ts[i]);
    }
}

/// The contents of a sequence of fields is the sequence of contents.
pub proof fn lemma_fields_view(fs: Seq<Field>)
    ensures
        fields_view(fs).len() == fs.len(),
        forall|i: int| 0 <= i < fs.len() ==> fields_view(fs)[i] == field_view(#[trigger] fs[i]),
    decreases fs,
{
    if fs.len() > 0 {
        lemma_fields_view(fs.drop_first());
        assert(forall|i: int| 1 <= i < fs.len() ==> fs.drop_first()[i - 1] == #[trigger] fs[i]);
    }
}

/// The contents of a sequence of variants is the sequence of contents.
pub proof fn lemma_variants_view(vs: Seq<Variant>)
    ensures
        variants_view(vs).len() == vs.len(),
        forall|i: int|
            0 <= i < vs.len() ==> variants_view(vs)[i] == variant_view(#[trigger] vs[i]),
    decreases vs,
{
    if vs.len() > 0 {
        lemma_variants_view(vs.drop_first());
        assert(forall|i: int| 1 <= i < vs.len() ==> vs.drop_first()[i - 1] == #[trigger] vs[i]);
    }
}

/// A reference is well-formed against the registry: every `Named` points at
/// an entry and carries exactly as many arguments as the entry has generic
/// parameters.
pub open spec fn wf_ty(defs: Seq<DefV>, t: TyV) -> bool
    decreases t,
{
    match t {
        TyV::Prim { .. } => true,
        TyV::Optional { inner } => wf_ty(defs, *inner),
        TyV::List { inner } => wf_ty(defs, *inner),
        TyV::FixedList { inner, .. } => wf_ty(defs, *inner),
        TyV::Tuple { items } => wf_tys(defs, items),
        TyV::Record { key, value } => wf_ty(defs, *key) && wf_ty(defs, *value),
        TyV::Wrapper { inner } => wf_ty(defs, *inner),
        TyV::Named { id, args } => id < defs.len() && args.len() == defs[id as int].generics.len()
            && wf_tys(defs, args),
        TyV::Param { .. } => true,
    }
}

/// All references of the sequence are well-formed.
pub open spec fn wf_tys(defs: Seq<DefV>, ts: Seq<TyV>) -> bool
    decreases ts,
{
    if ts.len() == 0 {
        true
    } else {
        wf_ty(defs, ts[0]) && wf_tys(defs, ts.drop_first())
    }
}

/// All references of the sequence are well-formed, element by element.
pub proof fn lemma_wf_tys(defs: Seq<DefV>, ts: Seq<TyV>)
    ensures
        wf_tys(defs, ts) <==> (forall|i: int| 0 <= i < ts.len() ==> wf_ty(defs, #[trigger] ts[i])),
    decreases ts,
{
    if ts.len() > 0 {
        lemma_wf_tys(defs, ts.drop_first());
        assert(forall|i: int| 1 <= i < ts.len() ==> ts.drop_first()[i - 1] == #[trigger] ts[i]);
        if wf_ty(defs, ts[0]) && wf_tys(defs, ts.drop_first()) {
            assert forall|i: int| 0 <= i < ts.len() implies wf_ty(defs, #[trigger] ts[i]) by {
                if i >= 1 {
                    assert(ts[i] == ts.drop_first()[i - 1]);
                }
            }
        }
    }
}

/// All fields of the sequence have well-formed types.
pub open spec fn wf_fields(defs: Seq<DefV>, fs: Seq<FieldV>) -> bool {
    forall|i: int| 0 <= i < fs.len() ==> wf_ty(defs, (#[trigger] fs[i]).ty)
}

/// The variant payload's types are well-formed.
pub open spec fn wf_payload(defs: Seq<DefV>, p: PayloadV) -> bool {
    match p {
        PayloadV::Unit => true,
        PayloadV::Newtype { ty } => wf_ty(defs, ty),
        PayloadV::Tuple { items } => wf_tys(defs, items),
        PayloadV::Struct { fields } => wf_fields(defs, fields),
    }
}

/// The declaration's shape and generic defaults are well-formed.
pub open spec fn wf_def(defs: Seq<DefV>, d: DefV) -> bool {
    &&& match d.shape {
        ShapeV::Struct { fields } => wf_fields(defs, fields),
        ShapeV::Enum { variants } => forall|i: int|
            0 <= i < variants.len() ==> wf_payload(defs, (#[trigger] variants[i]).payload),
    }
    &&& forall|i: int|
        0 <= i < d.generics.len() ==> match (#[trigger] d.generics[i]).default {
            Some(t) => wf_ty(defs, t),
            None => true,
        }
}

/// Every declaration of the registry is well-formed against it.
pub open spec fn wf_reg(defs: Seq<DefV>) -> bool {
    forall|i: int| 0 <= i < defs.len() ==> wf_def(defs, #[trigger] defs[i])
}

impl Registry {
    /// The registry is well-formed: every reference anywhere in it points at
    /// an entry and carries the right number of generic arguments.
    pub open spec fn wf(&self) -> bool {
        wf_reg(self@)
    }
}

/// The display name of a type, generic argument names included.
pub open spec fn name_spec(defs: Seq<DefV>, t: TyV) -> Seq<char>
    decreases t,
{
    match t {
        TyV::Prim { name } => name,
        TyV::Optional { inner } => name_spec(defs, *inner) + " | null"@,
        TyV::List { inner } => "Array<"@ + name_spec(defs, *inner) + ">"@,
        TyV::FixedList { inner, len } => if len > ARRAY_TUPLE_LIMIT {
            "Array<"@ + name_spec(defs, *inner) + ">"@
        } else {
            "["@ + repeat_join(name_spec(defs, *inner), len) + "]"@
        },
        TyV::Tuple { items } => "["@ + names_join(defs, items) + "]"@,
        TyV::Record { key, value } => "{ [key: "@ + name_spec(defs, *key) + "]: "@ + name_spec(
            defs,
            *value,
        ) + " }"@,
        TyV::Wrapper { inner } => name_spec(defs, *inner),
        TyV::Named { id, args } => if id < defs.len() {
            if args.len() == 0 {
                defs[id as int].ts_name
            } else {
                defs[id as int].ts_name + "<"@ + names_join(defs, args) + ">"@
            }
        } else {
            Seq::empty()
        },
        TyV::Param { name } => name,
    }
}

/// The display names of the references, joined with `, `.
pub open spec fn names_join(defs: Seq<DefV>, ts: Seq<TyV>) -> Seq<char>
    decreases ts,
{
    if ts.len() == 0 {
        Seq::empty()
    } else if ts.len() == 1 {
        name_spec(defs, ts[0])
    } else {
        name_spec(defs, ts[0]) + ", "@ + names_join(defs, ts.drop_first())
    }
}

/// The string repeated `n` times, joined with `, `.
pub open spec fn repeat_join(s: Seq<char>, n: nat) -> Seq<char>
    decreases n,
{
    if n == 0 {
        Seq::empty()
    } else if n == 1 {
        s
    } else {
        s + ", "@ + repeat_join(s, (n - 1) as nat)
    }
}

/// Extending the list by one reference extends the joined names by a
/// separator and the new name.
pub proof fn lemma_names_join_push(defs: Seq<DefV>, ts: Seq<TyV>, t: TyV)
    ensures
        ts.len() == 0 ==> names_join(defs, ts.push(t)) == name_spec(defs, t),
        ts.len() > 0 ==> names_join(defs, ts.push(t)) == names_join(defs, ts) + ", "@ + name_spec(
            defs,
            t,
        ),
    decreases ts,
{
    if ts.len() == 0 {
        assert(ts.push(t)[0] == t);
    } else if ts.len() == 1 {
        assert(ts.push(t)[0] == ts[0]);
        assert(ts.push(t).drop_first() =~= seq![t]);
        assert(names_join(defs, seq![t]) == name_spec(defs, t));
        assert(names_join(defs, ts.push(t)) == name_spec(defs, ts[0]) + ", "@ + name_spec(
            defs,
            t,
        ));
    } else {
        lemma_names_join_push(defs, ts.drop_first(), t);
        assert(ts.push(t)[0] == ts[0]);
        assert(ts.push(t).drop_first() =~= ts.drop_first().push(t));
        assert(name_spec(defs, ts[0]) + ", "@ + (names_join(defs, ts.drop_first()) + ", "@
            + name_spec(defs, t)) =~= (name_spec(defs, ts[0]) + ", "@ + names_join(
            defs,
            ts.drop_first(),
        )) + ", "@ + name_spec(defs, t));
    }
}

/// One more repetition extends the joined string by a separator and one
/// more copy.
pub proof fn lemma_repeat_join_push(s: Seq<char>, n: nat)
    ensures
        n == 0 ==> repeat_join(s, n + 1) == s,
        n > 0 ==> repeat_join(s, n + 1) == repeat_join(s, n) + ", "@ + s,
    decreases n,
{
    if n > 1 {
        lemma_repeat_join_push(s, (n - 1) as nat);
        assert(s + ", "@ + (repeat_join(s, (n - 1) as nat) + ", "@ + s) =~= (s + ", "@
            + repeat_join(s, (n - 1) as nat)) + ", "@ + s);
    }
}

impl Registry {
    /// Whether the reference is well-formed against this registry.
    pub fn check_ty(&self, t: &TypeRef) -> (r: bool)
        ensures
            r == wf_ty(self@, t@),
        decreases *t,
    {
        match t {
            TypeRef::Prim { .. } => true,
            TypeRef::Optional { inner } => self.check_ty(inner),
            TypeRef::List { inner } => self.check_ty(inner),
            TypeRef::FixedList { inner, .. } => self.check_ty(inner),
            TypeRef::Tuple { items } => self.check_tys(items),
            TypeRef::Record { key, value } => self.check_ty(key) && self.check_ty(value),
            TypeRef::Wrapper { inner } => self.check_ty(inner),
            TypeRef::Named { id, args } => {
                if *id >= self.defs.len() {
                    proof {
                        assert(!wf_ty(self@, t@));
                    }
                    false
                } else {
                    let ok = args.len() == self.defs[*id].generics.len() && self.check_tys(args);
                    proof {
                        assert(self@[*id as int] == def_view(self.defs@[*id as int]));
                        assert(self@[*id as int].generics.len() == self.defs@[*id as int]
                            .generics@.len());
                        lemma_tys_view(args@);
                    }
                    ok
                }
            },
            TypeRef::Param { .. } => true,
        }
    }

    /// Whether every reference of the list is well-formed against this
    /// registry.
    pub fn check_tys(&self, ts: &Vec<TypeRef>) -> (r: bool)
        ensures
            r == wf_tys(self@, tys_view(ts@)),
        decreases *ts,
    {
        let mut i: usize = 0;
        let mut ok = true;
        proof {
            lemma_tys_view(ts@);
            lemma_wf_tys(self@, tys_view(ts@));
        }
        while i < ts.len()
            invariant
                i <= ts@.len(),
                ok == forall|j: int| 0 <= j < i ==> wf_ty(self@, ty_view(#[trigger] ts@[j])),
            decreases ts@.len() - i,
        {
            let c = self.check_ty(&ts[i]);
            ok = ok && c;
            i = i + 1;
        }
        proof {
            lemma_tys_view(ts@);
            lemma_wf_tys(self@, tys_view(ts@));
            if ok {
                assert forall|j: int| 0 <= j < tys_view(ts@).len() implies wf_ty(
                    self@,
                    #[trigger] tys_view(ts@)[j],
                ) by {
                    assert(tys_view(ts@)[j] == ty_view(ts@[j]));
                }
            } else {
                let j = choose|j: int| 0 <= j < ts@.len() && !wf_ty(self@, ty_view(#[trigger] ts@[j]));
                assert(!wf_ty(self@, tys_view(ts@)[j]));
            }
        }
        ok
    }

    /// The display name of the type, generic argument names included.
    #[verifier::loop_isolation(false)]
    pub fn name_of(&self, t: &TypeRef) -> (r: String)
        requires
            wf_ty(self@, t@),
        ensures
            r@ == name_spec(self@, t@),
        decreases *t,
    {
        match t {
            TypeRef::Prim { name } => name.clone(),
            TypeRef::Optional { inner } => {
                let mut r = self.name_of(inner);
                r.append(" | null");
                r
            },
            TypeRef::List { inner } => {
                let mut r = String::new();
                r.append("Array<");
                let n = self.name_of(inner);
                r.append(n.as_str());
                r.append(">");
                r
            },
            TypeRef::FixedList { inner, len } => {
                if *len > ARRAY_TUPLE_LIMIT {
                    let mut r = String::new();
                    r.append("Array<");
                    let n = self.name_of(inner);
                    r.append(n.as_str());
                    r.append(">");
                    r
                } else {
                    let n = self.name_of(inner);
                    let mut r = String::new();
                    r.append("[");
                    let mut i: usize = 0;
                    while i < *len
                        invariant
                            i <= *len,
                            r@ == "["@ + repeat_join(n@, i as nat),
                        decreases *len - i,
                    {
                        if i > 0 {
                            r.append(", ");
                        }
                        r.append(n.as_str());
                        proof {
                            lemma_repeat_join_push(n@, i as nat);
                        }
                        i = i + 1;
                    }
                    r.append("]");
                    r
                }
            },
            TypeRef::Tuple { items } => {
                let mut r = String::new();
                r.append("[");
                let joined = self.names_of(items);
                r.append(joined.as_str());
                r.append("]");
                r
            },
            TypeRef::Record { key, value } => {
                let mut r = String::new();
                r.append("{ [key: ");
                let k = self.name_of(key);
                r.append(k.as_str());
                r.append("]: ");
                let v = self.name_of(value);
                r.append(v.as_str());
                r.append(" }");
                r
            },
            TypeRef::Wrapper { inner } => self.name_of(inner),
            TypeRef::Named { id, args } => {
                proof {
                    assert(self@[*id as int] == def_view(self.defs@[*id as int]));
                    lemma_tys_view(args@);
                }
                let mut r = self.defs[*id].ts_name.clone();
                if args.len() > 0 {
                    r.append("<");
                    let joined = self.names_of(args);
                    r.append(joined.as_str());
                    r.append(">");
                }
                r
            },
            TypeRef::Param { name } => name.clone(),
        }
    }

    /// The display names of the references, joined with `, `.
    #[verifier::loop_isolation(false)]
    pub fn names_of(&self, ts: &Vec<TypeRef>) -> (r: String)
        requires
            wf_tys(self@, tys_view(ts@)),
        ensures
            r@ == names_join(self@, tys_view(ts@)),
        decreases *ts,
    {
        proof {
            lemma_tys_view(ts@);
            lemma_wf_tys(self@, tys_view(ts@));
        }
        let ghost vts = tys_view(ts@);
        let mut r = String::new();
        let mut i: usize = 0;
        while i < ts.len()
            invariant
                i <= ts@.len(),
                r@ == names_join(self@, vts.take(i as int)),
            decreases ts@.len() - i,
        {
            if i > 0 {
                r.append(", ");
            }
            let n = self.name_of(&ts[i]);
            r.append(n.as_str());
            proof {
                assert(vts.take(i + 1) =~= vts.take(i as int).push(vts[i as int]));
                lemma_names_join_push(self@, vts.take(i as int), vts[i as int]);
                assert(vts[i as int] == ty_view(ts@[i as int]));
            }
            i = i + 1;
        }
        proof {
            assert(vts.take(ts@.len() as int) =~= vts);
        }
        r
    }
}

/// The index of the first `<` in the string, or its length if there is
/// none.
pub open spec fn first_lt(s: Seq<char>) -> int
    decreases s.len(),
{
    if s.len() == 0 {
        0
    } else if s[0] == '<' {
        0
    } else {
        1 + first_lt(s.drop_first())
    }
}

/// Where the first `<` stands: nothing before it is a `<`, and the position
/// itself holds one unless the string has none.
pub proof fn lemma_first_lt(s: Seq<char>)
    ensures
        0 <= first_lt(s) <= s.len(),
        forall|j: int| 0 <= j < first_lt(s) ==> s[j] != '<',
        first_lt(s) < s.len() ==> s[first_lt(s)] == '<',
    decreases s.len(),
{
    if s.len() > 0 && s[0] != '<' {
        lemma_first_lt(s.drop_first());
        assert(forall|j: int| 1 <= j < s.len() ==> s[j] == s.drop_first()[j - 1]);
    }
}

/// The bare identifier of a type: for a declared type its name without
/// generics; for the built-in shapes, the display name cut at the first `<`.
pub open spec fn ident_spec(defs: Seq<DefV>, t: TyV) -> Seq<char> {
    match t {
        TyV::Named { id, .. } => if id < defs.len() {
            defs[id as int].ts_name
        } else {
            Seq::empty()
        },
        _ => {
            let n = name_spec(defs, t);
            n.take(first_lt(n))
        },
    }
}

impl Registry {
    /// The bare identifier of the type, without generic arguments.
    ///
    /// A keyed map has no identifier; it is left out here, as its display
    /// form cannot stand where an identifier is needed.
    #[verifier::loop_isolation(false)]
    pub fn ident_of(&self, t: &TypeRef) -> (r: String)
        requires
            wf_ty(self@, t@),
            !(t@ is Record),
        ensures
            r@ == ident_spec(self@, t@),
    {
        match t {
            TypeRef::Named { id, .. } => {
                proof {
                    assert(self@[*id as int] == def_view(self.defs@[*id as int]));
                }
                self.defs[*id].ts_name.clone()
            },
            _ => {
                let n = self.name_of(t);
                let s = n.as_str();
                let len = s.unicode_len();
                let mut k: usize = 0;
                while k < len && s.get_char(k) != '<'
                    invariant
                        k <= len,
                        forall|j: int| 0 <= j < k ==> n@[j] != '<',
                    decreases len - k,
                {
                    k = k + 1;
                }
                proof {
                    lemma_first_lt(n@);
                    if k < len {
                        assert(n@[k as int] == '<');
                        assert(first_lt(n@) == k as int);
                    } else {
                        assert(first_lt(n@) == k as int);
                    }
                }
                let r = s.substring_char(0, k);
                proof {
                    assert(n@.subrange(0, k as int) =~= n@.take(k as int));
                }
                r.to_owned()
            },
        }
    }
}

/// A copy of the reference with the same contents.
#[verifier::loop_isolation(false)]
pub fn clone_ty(t: &TypeRef) -> (r: TypeRef)
    ensures
        r@ == t@,
    decreases *t,
{
    match t {
        TypeRef::Prim { name } => TypeRef::Prim { name: name.clone() },
        TypeRef::Optional { inner } => TypeRef::Optional { inner: Box::new(clone_ty(inner)) },
        TypeRef::List { inner } => TypeRef::List { inner: Box::new(clone_ty(inner)) },
        TypeRef::FixedList { inner, len } => TypeRef::FixedList {
            inner: Box::new(clone_ty(inner)),
            len: *len,
        },
        TypeRef::Tuple { items } => {
            let cloned = clone_tys(items);
            TypeRef::Tuple { items: cloned }
        },
        TypeRef::Record { key, value } => TypeRef::Record {
            key: Box::new(clone_ty(key)),
            value: Box::new(clone_ty(value)),
        },
        TypeRef::Wrapper { inner } => TypeRef::Wrapper { inner: Box::new(clone_ty(inner)) },
        TypeRef::Named { id, args } => {
            let cloned = clone_tys(args);
            TypeRef::Named { id: *id, args: cloned }
        },
        TypeRef::Param { name } => TypeRef::Param { name: name.clone() },
    }
}

/// A copy of the list with the same contents.
#[verifier::loop_isolation(false)]
pub fn clone_tys(ts: &Vec<TypeRef>) -> (r: Vec<TypeRef>)
    ensures
        tys_view(r@) == tys_view(ts@),
    decreases *ts,
{
    let mut r: Vec<TypeRef> = Vec::new();
    let mut i: usize = 0;
    while i < ts.len()
        invariant
            i <= ts@.len(),
            r@.len() == i,
            forall|j: int| 0 <= j < i ==> ty_view(#[trigger] r@[j]) == ty_view(ts@[j]),
        decreases ts@.len() - i,
    {
        r.push(clone_ty(&ts[i]));
        i = i + 1;
    }
    proof {
        lemma_tys_view(r@);
        lemma_tys_view(ts@);
        assert forall|j: int| 0 <= j < ts@.len() implies tys_view(r@)[j] == tys_view(ts@)[j] by {
            assert(tys_view(r@)[j] == ty_view(r@[j]));
            assert(tys_view(ts@)[j] == ty_view(ts@[j]));
        }
        assert(tys_view(r@) =~= tys_view(ts@));
    }
    r
}

impl Registry {
    /// Whether every field's type is well-formed against this registry.
    #[verifier::loop_isolation(false)]
    fn check_fields(&self, fs: &Vec<Field>) -> (r: bool)
        ensures
            r == wf_fields(self@, fields_view(fs@)),
    {
        let mut i: usize = 0;
        let mut ok = true;
        while i < fs.len()
            invariant
                i <= fs@.len(),
                ok == forall|j: int| 0 <= j < i ==> wf_ty(self@, ty_view((#[trigger] fs@[j]).ty)),
            decreases fs@.len() - i,
        {
            let c = self.check_ty(&fs[i].ty);
            ok = ok && c;
            i = i + 1;
        }
        proof {
            lemma_fields_view(fs@);
            if ok {
                assert forall|j: int| 0 <= j < fields_view(fs@).len() implies wf_ty(
                    self@,
                    (#[trigger] fields_view(fs@)[j]).ty,
                ) by {
                    assert(fields_view(fs@)[j] == field_view(fs@[j]));
                }
            } else {
                let j = choose|j: int|
                    0 <= j < fs@.len() && !wf_ty(self@, ty_view((#[trigger] fs@[j]).ty));
                assert(fields_view(fs@)[j] == field_view(fs@[j]));
                assert(!wf_ty(self@, (fields_view(fs@)[j]).ty));
            }
        }
        ok
    }

    /// Whether the payload's types are well-formed against this registry.
    fn check_payload(&self, p: &Payload) -> (r: bool)
        ensures
            r == wf_payload(self@, payload_view(*p)),
    {
        match p {
            Payload::Unit => true,
            Payload::Newtype { ty } => self.check_ty(ty),
            Payload::Tuple { items } => self.check_tys(items),
            Payload::Struct { fields } => self.check_fields(fields),
        }
    }

    /// Whether the declaration's shape and generic defaults are well-formed
    /// against this registry.
    #[verifier::loop_isolation(false)]
    fn check_def(&self, d: &TypeDef) -> (r: bool)
        ensures
            r == wf_def(self@, def_view(*d)),
    {
        let shape_ok = match &d.shape {
            Shape::Struct { fields } => self.check_fields(fields),
            Shape::Enum { variants } => {
                let mut i: usize = 0;
                let mut ok = true;
                while i < variants.len()
                    invariant
                        i <= variants@.len(),
                        ok == forall|j: int|
                            0 <= j < i ==> wf_payload(
                                self@,
                                payload_view((#[trigger] variants@[j]).payload),
                            ),
                    decreases variants@.len() - i,
                {
                    let c = self.check_payload(&variants[i].payload);
                    ok = ok && c;
                    i = i + 1;
                }
                proof {
                    lemma_variants_view(variants@);
                    if ok {
                        assert forall|j: int| 0 <= j < variants_view(variants@).len() implies
                            wf_payload(
                            self@,
                            (#[trigger] variants_view(variants@)[j]).payload,
                        ) by {
                            assert(variants_view(variants@)[j] == variant_view(variants@[j]));
                        }
                    } else {
                        let j = choose|j: int|
                            0 <= j < variants@.len() && !wf_payload(
                                self@,
                                payload_view((#[trigger] variants@[j]).payload),
                            );
                        assert(variants_view(variants@)[j] == variant_view(variants@[j]));
                        assert(!wf_payload(self@, (variants_view(variants@)[j]).payload));
                    }
                }
                ok
            },
        };
        let mut i: usize = 0;
        let mut gen_ok = true;
        while i < d.generics.len()
            invariant
                i <= d.generics@.len(),
                gen_ok == forall|j: int|
                    0 <= j < i ==> match (#[trigger] d.generics@[j]).default {
                        Some(t) => wf_ty(self@, ty_view(t)),
                        None => true,
                    },
            decreases d.generics@.len() - i,
        {
            let c = match &d.generics[i].default {
                Some(t) => self.check_ty(t),
                None => true,
            };
            gen_ok = gen_ok && c;
            i = i + 1;
        }
        proof {
            let gv = generics_view(d.generics@);
            if gen_ok {
                assert forall|j: int| 0 <= j < gv.len() implies match (#[trigger] gv[j]).default {
                    Some(t) => wf_ty(self@, t),
                    None => true,
                } by {
                    assert(gv[j] == generic_view(d.generics@[j]));
                }
            } else {
                let j = choose|j: int|
                    0 <= j < d.generics@.len() && !(match (#[trigger] d.generics@[j]).default {
                        Some(t) => wf_ty(self@, ty_view(t)),
                        None => true,
                    });
                assert(gv[j] == generic_view(d.generics@[j]));
            }
        }
        shape_ok && gen_ok
    }

    /// Whether the whole registry is well-formed.
    #[verifier::loop_isolation(false)]
    pub fn check(&self) -> (r: bool)
        ensures
            r == self.wf(),
    {
        let mut i: usize = 0;
        let mut ok = true;
        while i < self.defs.len()
            invariant
                i <= self.defs@.len(),
                ok == forall|j: int| 0 <= j < i ==> wf_def(self@, def_view(#[trigger] self.defs@[j])),
            decreases self.defs@.len() - i,
        {
            let c = self.check_def(&self.defs[i]);
            ok = ok && c;
            i = i + 1;
        }
        proof {
            if ok {
                assert forall|j: int| 0 <= j < self@.len() implies wf_def(
                    self@,
                    #[trigger] self@[j],
                ) by {
                    assert(self@[j] == def_view(self.defs@[j]));
                }
            } else {
                let j = choose|j: int|
                    0 <= j < self.defs@.len() && !wf_def(self@, def_view(#[trigger] self.defs@[j]));
                assert(self@[j] == def_view(self.defs@[j]));
            }
        }
        ok
    }

    /// Builds a registry after checking that every reference in the given
    /// declarations points at an entry and carries the right number of
    /// generic arguments.
    pub fn new(defs: Vec<TypeDef>) -> (r: Result<Registry, Error>)
        ensures
            match r {
                Ok(reg) => reg.wf() && reg@ == defs@.map_values(|d: TypeDef| def_view(d)),
                Err(e) => !wf_reg(defs@.map_values(|d: TypeDef| def_view(d))) && e matches Error::InvalidSchema(_),
            },
    {
        let reg = Registry { defs };
        if reg.check() {
            Ok(reg)
        } else {
            Err(
                Error::InvalidSchema(
                    "a type reference points outside the registry or carries the wrong number of generic arguments".to_owned(),
                ),
            )
        }
    }
}

/// The index of the first name equal to `n`, or `-1` if there is none.
pub open spec fn index_of_name(names: Seq<Seq<char>>, n: Seq<char>) -> int
    decreases names,
{
    if names.len() == 0 {
        -1
    } else if names[0] == n {
        0
    } else {
        let j = index_of_name(names.drop_first(), n);
        if j < 0 {
            -1
        } else {
            1 + j
        }
    }
}

/// Where the first occurrence of the name stands, if anywhere.
pub proof fn lemma_index_of_name(names: Seq<Seq<char>>, n: Seq<char>)
    ensures
        index_of_name(names, n) == -1 <==> (forall|j: int|
            0 <= j < names.len() ==> #[trigger] names[j] != n),
        index_of_name(names, n) >= 0 ==> ({
            let i = index_of_name(names, n);
            0 <= i < names.len() && names[i] == n && (forall|j: int|
                0 <= j < i ==> #[trigger] names[j] != n)
        }),
    decreases names,
{
    if names.len() > 0 && names[0] != n {
        lemma_index_of_name(names.drop_first(), n);
        assert(forall|j: int| 1 <= j < names.len() ==> names.drop_first()[j - 1] == #[trigger] names[j]);
    }
}

/// The reference with every occurrence of a generic parameter replaced by
/// the argument the parameter name is paired with. Parameters that name
/// nothing in the list stay as they are.
pub open spec fn subst_spec(t: TyV, names: Seq<Seq<char>>, args: Seq<TyV>) -> TyV
    decreases t,
{
    match t {
        TyV::Prim { .. } => t,
        TyV::Optional { inner } => TyV::Optional { inner: Box::new(subst_spec(*inner, names, args)) },
        TyV::List { inner } => TyV::List { inner: Box::new(subst_spec(*inner, names, args)) },
        TyV::FixedList { inner, len } => TyV::FixedList {
            inner: Box::new(subst_spec(*inner, names, args)),
            len,
        },
        TyV::Tuple { items } => TyV::Tuple { items: substs_spec(items, names, args) },
        TyV::Record { key, value } => TyV::Record {
            key: Box::new(subst_spec(*key, names, args)),
            value: Box::new(subst_spec(*value, names, args)),
        },
        TyV::Wrapper { inner } => TyV::Wrapper { inner: Box::new(subst_spec(*inner, names, args)) },
        TyV::Named { id, args: targs } => TyV::Named {
            id,
            args: substs_spec(targs, names, args),
        },
        TyV::Param { name } => {
            let i = index_of_name(names, name);
            if 0 <= i < args.len() {
                args[i]
            } else {
                t
            }
        },
    }
}

/// The substitution applied to every reference of the list.
pub open spec fn substs_spec(ts: Seq<TyV>, names: Seq<Seq<char>>, args: Seq<TyV>) -> Seq<TyV>
    decreases ts,
{
    if ts.len() == 0 {
        Seq::empty()
    } else {
        seq![subst_spec(ts[0], names, args)] + substs_spec(ts.drop_first(), names, args)
    }
}

/// The substituted list, element by element.
pub proof fn lemma_substs_spec(ts: Seq<TyV>, names: Seq<Seq<char>>, args: Seq<TyV>)
    ensures
        substs_spec(ts, names, args).len() == ts.len(),
        forall|i: int|
            0 <= i < ts.len() ==> substs_spec(ts, names, args)[i] == subst_spec(
                #[trigger] ts[i],
                names,
                args,
            ),
    decreases ts,
{
    if ts.len() > 0 {
        lemma_substs_spec(ts.drop_first(), names, args);
        assert(forall|i: int| 1 <= i < ts.len() ==> ts.drop_first()[i - 1] == #[trigger] ts[i]);
    }
}

/// Substitution preserves well-formedness: when the reference and every
/// argument are well-formed, so is the substituted reference.
pub proof fn lemma_subst_wf(defs: Seq<DefV>, t: TyV, names: Seq<Seq<char>>, args: Seq<TyV>)
    requires
        wf_ty(defs, t),
        wf_tys(defs, args),
    ensures
        wf_ty(defs, subst_spec(t, names, args)),
    decreases t,
{
    match t {
        TyV::Tuple { items } => {
            lemma_substs_wf(defs, items, names, args);
        },
        TyV::Named { id, args: targs } => {
            lemma_substs_wf(defs, targs, names, args);
            lemma_substs_spec(targs, names, args);
        },
        TyV::Param { name } => {
            let i = index_of_name(names, name);
            if 0 <= i < args.len() {
                lemma_wf_tys(defs, args);
            }
        },
        _ => {
            match t {
                TyV::Optional { inner } => lemma_subst_wf(defs, *inner, names, args),
                TyV::List { inner } => lemma_subst_wf(defs, *inner, names, args),
                TyV::FixedList { inner, .. } => lemma_subst_wf(defs, *inner, names, args),
                TyV::Record { key, value } => {
                    lemma_subst_wf(defs, *key, names, args);
                    lemma_subst_wf(defs, *value, names, args);
                },
                TyV::Wrapper { inner } => lemma_subst_wf(defs, *inner, names, args),
                _ => {},
            }
        },
    }
}

/// Substitution preserves well-formedness across a list.
pub proof fn lemma_substs_wf(defs: Seq<DefV>, ts: Seq<TyV>, names: Seq<Seq<char>>, args: Seq<TyV>)
    requires
        wf_tys(defs, ts),
        wf_tys(defs, args),
    ensures
        wf_tys(defs, substs_spec(ts, names, args)),
    decreases ts,
{
    if ts.len() > 0 {
        lemma_subst_wf(defs, ts[0], names, args);
        lemma_substs_wf(defs, ts.drop_first(), names, args);
        assert(substs_spec(ts, names, args).drop_first() =~= substs_spec(
            ts.drop_first(),
            names,
            args,
        ));
        assert(substs_spec(ts, names, args)[0] == subst_spec(ts[0], names, args));
    }
}

/// Applies the substitution pairing `names` with `args` to the reference.
#[verifier::loop_isolation(false)]
pub fn subst_ty(t: &TypeRef, names: &Vec<String>, args: &Vec<TypeRef>) -> (r: TypeRef)
    requires
        names@.len() == args@.len(),
    ensures
        r@ == subst_spec(t@, names@.map_values(|s: String| s@), tys_view(args@)),
    decreases *t,
{
    let ghost gnames = names@.map_values(|s: String| s@);
    let ghost gargs = tys_view(args@);
    match t {
        TypeRef::Prim { name } => TypeRef::Prim { name: name.clone() },
        TypeRef::Optional { inner } => TypeRef::Optional {
            inner: Box::new(subst_ty(inner, names, args)),
        },
        TypeRef::List { inner } => TypeRef::List { inner: Box::new(subst_ty(inner, names, args)) },
        TypeRef::FixedList { inner, len } => TypeRef::FixedList {
            inner: Box::new(subst_ty(inner, names, args)),
            len: *len,
        },
        TypeRef::Tuple { items } => {
            let subbed = subst_tys(items, names, args);
            TypeRef::Tuple { items: subbed }
        },
        TypeRef::Record { key, value } => TypeRef::Record {
            key: Box::new(subst_ty(key, names, args)),
            value: Box::new(subst_ty(value, names, args)),
        },
        TypeRef::Wrapper { inner } => TypeRef::Wrapper {
            inner: Box::new(subst_ty(inner, names, args)),
        },
        TypeRef::Named { id, args: targs } => {
            let subbed = subst_tys(targs, names, args);
            TypeRef::Named { id: *id, args: subbed }
        },
        TypeRef::Param { name } => {
            let mut i: usize = 0;
            while i < names.len()
                invariant
                    i <= names@.len(),
                    forall|j: int| 0 <= j < i ==> #[trigger] gnames[j] != name@,
                decreases names@.len() - i,
            {
                if names[i] == *name {
                    proof {
                        lemma_index_of_name(gnames, name@);
                        assert(gnames[i as int] == name@);
                        assert(index_of_name(gnames, name@) == i as int);
                        lemma_tys_view(args@);
                    }
                    return clone_ty(&args[i]);
                }
                i = i + 1;
            }
            proof {
                lemma_index_of_name(gnames, name@);
            }
            TypeRef::Param { name: name.clone() }
        },
    }
}

/// Applies the substitution to every reference of the list.
#[verifier::loop_isolation(false)]
pub fn subst_tys(ts: &Vec<TypeRef>, names: &Vec<String>, args: &Vec<TypeRef>) -> (r: Vec<TypeRef>)
    requires
        names@.len() == args@.len(),
    ensures
        tys_view(r@) == substs_spec(
            tys_view(ts@),
            names@.map_values(|s: String| s@),
            tys_view(args@),
        ),
    decreases *ts,
{
    let ghost gnames = names@.map_values(|s: String| s@);
    let ghost gargs = tys_view(args@);
    let mut r: Vec<TypeRef> = Vec::new();
    let mut i: usize = 0;
    while i < ts.len()
        invariant
            i <= ts@.len(),
            r@.len() == i,
            forall|j: int|
                0 <= j < i ==> ty_view(#[trigger] r@[j]) == subst_spec(
                    ty_view(ts@[j]),
                    gnames,
                    gargs,
                ),
        decreases ts@.len() - i,
    {
        r.push(subst_ty(&ts[i], names, args));
        i = i + 1;
    }
    proof {
        lemma_tys_view(r@);
        lemma_tys_view(ts@);
        lemma_substs_spec(tys_view(ts@), gnames, gargs);
        assert forall|j: int| 0 <= j < ts@.len() implies tys_view(r@)[j] == substs_spec(
            tys_view(ts@),
            gnames,
            gargs,
        )[j] by {
            assert(tys_view(r@)[j] == ty_view(r@[j]));
            assert(tys_view(ts@)[j] == ty_view(ts@[j]));
        }
        assert(tys_view(r@) =~= substs_spec(tys_view(ts@), gnames, gargs));
    }
    r
}

} // verus!
