//! The attribute model: per-item configuration for containers, fields and
//! variants, parsed from structured key/value occurrences in two dialects.
//! The native dialect is authoritative and fails on unknown keys; the
//! compatibility dialect degrades softly, turning unparseable entries into
//! warnings. Merging is right-biased: later occurrences override earlier
//! ones field by field.

use vstd::prelude::*;

use crate::error::Error;
use crate::inflection::Inflection;
use crate::naming::str_is;

verus! {

/// One raw attribute occurrence: a key, optionally with a string value.
#[derive(Debug, Clone)]
pub struct AttrEntry {
    pub key: String,
    pub value: Option<String>,
}

/// Container-level attributes, shared by structs and enums. A merged set is
/// checked against its owning shape before compilation proceeds.
#[derive(Debug, Clone)]
pub struct ContainerAttr {
    /// Path to the defining module, for re-export scenarios.
    pub crate_rename: Option<String>,
    /// Replacement for the container's own name.
    pub rename: Option<String>,
    /// Convention applied to every field or variant name.
    pub rename_all: Option<Inflection>,
    /// Convention applied to the fields of every struct variant (enums).
    pub rename_all_fields: Option<Inflection>,
    /// Tag key: on an enum selects internal tagging, on a struct synthesizes
    /// a literal discriminant field.
    pub tag: Option<String>,
    /// Content key: together with `tag` selects adjacent tagging (enums).
    pub content: Option<String>,
    /// Bare union of variant shapes, no discriminant (enums).
    pub untagged: bool,
    /// Whether the type takes part in automatic exporting.
    pub export: bool,
    /// Where the declaration is exported to.
    pub export_to: Option<String>,
    /// Replaces the computed definition text entirely.
    pub type_override: Option<String>,
    /// Display name of a substitute type to compute the definition from.
    pub as_override: Option<String>,
    /// Explicit generic where-clause override, kept as written.
    pub bound: Option<String>,
}

/// Field-level attributes.
#[derive(Debug, Clone)]
pub struct FieldAttr {
    /// Replacement for the field's key.
    pub rename: Option<String>,
    /// Replaces the field's computed type text entirely.
    pub type_override: Option<String>,
    /// Display name of a substitute type to compute the type from.
    pub as_override: Option<String>,
    /// Inline the field's type, replacing its name with its definition.
    pub inline: bool,
    /// Omit the field from the generated type.
    pub skip: bool,
    /// On a field of optional type: mark the key with `?` instead of
    /// `| null`.
    pub optional: bool,
    /// With `optional`: keep both the `?` suffix and the `| null`.
    pub nullable: bool,
    /// Merge the keys of the field's type into the parent object.
    pub flatten: bool,
}

/// Variant-level attributes.
#[derive(Debug, Clone)]
pub struct VariantAttr {
    /// Replacement for the variant's discriminant name.
    pub rename: Option<String>,
    /// Convention applied to the fields of this struct variant.
    pub rename_all: Option<Inflection>,
    /// Omit the variant from the generated union.
    pub skip: bool,
    /// Compile this variant as a bare shape, whatever the container's
    /// tagging strategy.
    pub untagged: bool,
}

/// The empty container attribute set.
pub open spec fn container_default() -> ContainerAttr {
    ContainerAttr {
        crate_rename: None,
        rename: None,
        rename_all: None,
        rename_all_fields: None,
        tag: None,
        content: None,
        untagged: false,
        export: false,
        export_to: None,
        type_override: None,
        as_override: None,
        bound: None,
    }
}

/// The empty field attribute set.
pub open spec fn field_default() -> FieldAttr {
    FieldAttr {
        rename: None,
        type_override: None,
        as_override: None,
        inline: false,
        skip: false,
        optional: false,
        nullable: false,
        flatten: false,
    }
}

/// The empty variant attribute set.
pub open spec fn variant_default() -> VariantAttr {
    VariantAttr { rename: None, rename_all: None, skip: false, untagged: false }
}

impl Default for ContainerAttr {
    fn default() -> (r: Self)
        ensures
            r == container_default(),
    {
        ContainerAttr {
            crate_rename: None,
            rename: None,
            rename_all: None,
            rename_all_fields: None,
            tag: None,
            content: None,
            untagged: false,
            export: false,
            export_to: None,
            type_override: None,
            as_override: None,
            bound: None,
        }
    }
}

impl Default for FieldAttr {
    fn default() -> (r: Self)
        ensures
            r == field_default(),
    {
        FieldAttr {
            rename: None,
            type_override: None,
            as_override: None,
            inline: false,
            skip: false,
            optional: false,
            nullable: false,
            flatten: false,
        }
    }
}

impl Default for VariantAttr {
    fn default() -> (r: Self)
        ensures
            r == variant_default(),
    {
        VariantAttr { rename: None, rename_all: None, skip: false, untagged: false }
    }
}

/// The second option when set, otherwise the first.
pub open spec fn right_or<T>(a: Option<T>, b: Option<T>) -> Option<T> {
    if b is Some {
        b
    } else {
        a
    }
}

impl ContainerAttr {
    /// What [`ContainerAttr::merge`] returns: fields set in `other` override
    /// those in `self`; boolean flags accumulate.
    pub open spec fn merge_spec(self, other: Self) -> Self {
        ContainerAttr {
            crate_rename: right_or(self.crate_rename, other.crate_rename),
            rename: right_or(self.rename, other.rename),
            rename_all: right_or(self.rename_all, other.rename_all),
            rename_all_fields: right_or(self.rename_all_fields, other.rename_all_fields),
            tag: right_or(self.tag, other.tag),
            content: right_or(self.content, other.content),
            untagged: self.untagged || other.untagged,
            export: self.export || other.export,
            export_to: right_or(self.export_to, other.export_to),
            type_override: right_or(self.type_override, other.type_override),
            as_override: right_or(self.as_override, other.as_override),
            bound: right_or(self.bound, other.bound),
        }
    }

    /// Right-biased merge: fields set in `other` override those in `self`;
    /// boolean flags accumulate.
    pub fn merge(self, other: Self) -> (r: Self)
        ensures
            r == self.merge_spec(other),
    {
        ContainerAttr {
            crate_rename: or_opt(other.crate_rename, self.crate_rename),
            rename: or_opt(other.rename, self.rename),
            rename_all: or_infl(other.rename_all, self.rename_all),
            rename_all_fields: or_infl(other.rename_all_fields, self.rename_all_fields),
            tag: or_opt(other.tag, self.tag),
            content: or_opt(other.content, self.content),
            untagged: self.untagged || other.untagged,
            export: self.export || other.export,
            export_to: or_opt(other.export_to, self.export_to),
            type_override: or_opt(other.type_override, self.type_override),
            as_override: or_opt(other.as_override, self.as_override),
            bound: or_opt(other.bound, self.bound),
        }
    }
}

impl FieldAttr {
    /// What [`FieldAttr::merge`] returns: fields set in `other` override
    /// those in `self`; boolean flags accumulate.
    pub open spec fn merge_spec(self, other: Self) -> Self {
        FieldAttr {
            rename: right_or(self.rename, other.rename),
            type_override: right_or(self.type_override, other.type_override),
            as_override: right_or(self.as_override, other.as_override),
            inline: self.inline || other.inline,
            skip: self.skip || other.skip,
            optional: self.optional || other.optional,
            nullable: self.nullable || other.nullable,
            flatten: self.flatten || other.flatten,
        }
    }

    /// Right-biased merge: fields set in `other` override those in `self`;
    /// boolean flags accumulate.
    pub fn merge(self, other: Self) -> (r: Self)
        ensures
            r == self.merge_spec(other),
    {
        FieldAttr {
            rename: or_opt(other.rename, self.rename),
            type_override: or_opt(other.type_override, self.type_override),
            as_override: or_opt(other.as_override, self.as_override),
            inline: self.inline || other.inline,
            skip: self.skip || other.skip,
            optional: self.optional || other.optional,
            nullable: self.nullable || other.nullable,
            flatten: self.flatten || other.flatten,
        }
    }
}

impl VariantAttr {
    /// What [`VariantAttr::merge`] returns: fields set in `other` override
    /// those in `self`; boolean flags accumulate.
    pub open spec fn merge_spec(self, other: Self) -> Self {
        VariantAttr {
            rename: right_or(self.rename, other.rename),
            rename_all: right_or(self.rename_all, other.rename_all),
            skip: self.skip || other.skip,
            untagged: self.untagged || other.untagged,
        }
    }

    /// Right-biased merge: fields set in `other` override those in `self`;
    /// boolean flags accumulate.
    pub fn merge(self, other: Self) -> (r: Self)
        ensures
            r == self.merge_spec(other),
    {
        VariantAttr {
            rename: or_opt(other.rename, self.rename),
            rename_all: or_infl(other.rename_all, self.rename_all),
            skip: self.skip || other.skip,
            untagged: self.untagged || other.untagged,
        }
    }
}

/// The first option when set, otherwise the second.
fn or_opt(a: Option<String>, b: Option<String>) -> (r: Option<String>)
    ensures
        r == if a is Some {
            a
        } else {
            b
        },
{
    match a {
        Some(v) => Some(v),
        None => b,
    }
}

/// The first option when set, otherwise the second.
fn or_infl(a: Option<Inflection>, b: Option<Inflection>) -> (r: Option<Inflection>)
    ensures
        r == if a is Some {
            a
        } else {
            b
        },
{
    match a {
        Some(v) => Some(v),
        None => b,
    }
}

/// The convention named by a `rename_all` value, if any.
pub open spec fn inflection_name(s: Seq<char>) -> Option<Inflection> {
    if s == "lowercase"@ {
        Some(Inflection::Lower)
    } else if s == "UPPERCASE"@ {
        Some(Inflection::Upper)
    } else if s == "camelCase"@ {
        Some(Inflection::Camel)
    } else if s == "snake_case"@ {
        Some(Inflection::Snake)
    } else if s == "PascalCase"@ {
        Some(Inflection::Pascal)
    } else if s == "SCREAMING_SNAKE_CASE"@ {
        Some(Inflection::ScreamingSnake)
    } else if s == "kebab-case"@ {
        Some(Inflection::Kebab)
    } else if s == "SCREAMING-KEBAB-CASE"@ {
        Some(Inflection::ScreamingKebab)
    } else {
        None
    }
}

/// Looks up the convention named by a `rename_all` value.
pub fn parse_inflection(value: &String) -> (r: Option<Inflection>)
    ensures
        r == inflection_name(value@),
{
    if str_is(value, "lowercase") {
        Some(Inflection::Lower)
    } else if str_is(value, "UPPERCASE") {
        Some(Inflection::Upper)
    } else if str_is(value, "camelCase") {
        Some(Inflection::Camel)
    } else if str_is(value, "snake_case") {
        Some(Inflection::Snake)
    } else if str_is(value, "PascalCase") {
        Some(Inflection::Pascal)
    } else if str_is(value, "SCREAMING_SNAKE_CASE") {
        Some(Inflection::ScreamingSnake)
    } else if str_is(value, "kebab-case") {
        Some(Inflection::Kebab)
    } else if str_is(value, "SCREAMING-KEBAB-CASE") {
        Some(Inflection::ScreamingKebab)
    } else {
        None
    }
}

/// A failed attribute parse, as the contracts model it: an unknown key with
/// the list of accepted keys, or a malformed value or combination with its
/// description.
pub enum AttrFail {
    Unknown { key: Seq<char>, allowed: Seq<char> },
    Invalid { msg: Seq<char> },
}

/// Whether the error value renders the modeled failure.
pub open spec fn fail_matches(f: AttrFail, e: Error) -> bool {
    match f {
        AttrFail::Unknown { key, allowed } => match e {
            Error::UnknownAttribute(k, al) => k@ == key && al@ == allowed,
            _ => false,
        },
        AttrFail::Invalid { msg } => match e {
            Error::InvalidAttribute(m) => m@ == msg,
            _ => false,
        },
    }
}

/// The accepted container-level keys, as listed in an unknown-key error.
pub open spec fn container_allowed() -> Seq<char> {
    "crate, export, export_to, as, type, rename, rename_all, rename_all_fields, tag, content, untagged, bound"@
}

/// The accepted field-level keys, as listed in an unknown-key error.
pub open spec fn field_allowed() -> Seq<char> {
    "type, as, rename, inline, skip, optional, flatten"@
}

/// The accepted variant-level keys, as listed in an unknown-key error.
pub open spec fn variant_allowed() -> Seq<char> {
    "rename, rename_all, skip, untagged"@
}

/// The complaint for a key that expects a string value but got none.
pub open spec fn msg_expects_value() -> Seq<char> {
    "this attribute expects a string value"@
}

/// The complaint for a flag key that got a value.
pub open spec fn msg_no_value() -> Seq<char> {
    "this attribute does not take a value"@
}

/// The complaint for a `rename_all` value that names no convention.
pub open spec fn msg_bad_inflection(v: Seq<char>) -> Seq<char> {
    "Value \""@ + v
        + "\" is not a valid inflection. Accepted values are: \"lowercase\", \"UPPERCASE\", \"camelCase\", \"snake_case\", \"PascalCase\", \"SCREAMING_SNAKE_CASE\", \"kebab-case\" and \"SCREAMING-KEBAB-CASE\""@
}

/// The complaint for an `optional` value other than `nullable`.
pub open spec fn msg_bad_optional() -> Seq<char> {
    "attribute \"optional\" expects no value or \"nullable\""@
}

/// What one native-dialect container entry does to the attribute set.
pub open spec fn container_entry_spec(a: ContainerAttr, e: AttrEntry) -> Result<
    ContainerAttr,
    AttrFail,
> {
    let k = e.key@;
    if k == "crate"@ {
        match e.value {
            Some(v) => Ok(ContainerAttr { crate_rename: Some(v), ..a }),
            None => Err(AttrFail::Invalid { msg: msg_expects_value() }),
        }
    } else if k == "export"@ {
        match e.value {
            Some(v) => Err(AttrFail::Invalid { msg: msg_no_value() }),
            None => Ok(ContainerAttr { export: true, ..a }),
        }
    } else if k == "export_to"@ {
        match e.value {
            Some(v) => Ok(ContainerAttr { export_to: Some(v), ..a }),
            None => Err(AttrFail::Invalid { msg: msg_expects_value() }),
        }
    } else if k == "as"@ {
        match e.value {
            Some(v) => Ok(ContainerAttr { as_override: Some(v), ..a }),
            None => Err(AttrFail::Invalid { msg: msg_expects_value() }),
        }
    } else if k == "type"@ {
        match e.value {
            Some(v) => Ok(ContainerAttr { type_override: Some(v), ..a }),
            None => Err(AttrFail::Invalid { msg: msg_expects_value() }),
        }
    } else if k == "rename"@ {
        match e.value {
            Some(v) => Ok(ContainerAttr { rename: Some(v), ..a }),
            None => Err(AttrFail::Invalid { msg: msg_expects_value() }),
        }
    } else if k == "rename_all"@ {
        match e.value {
            Some(v) => match inflection_name(v@) {
                Some(i) => Ok(ContainerAttr { rename_all: Some(i), ..a }),
                None => Err(AttrFail::Invalid { msg: msg_bad_inflection(v@) }),
            },
            None => Err(AttrFail::Invalid { msg: msg_expects_value() }),
        }
    } else if k == "rename_all_fields"@ {
        match e.value {
            Some(v) => match inflection_name(v@) {
                Some(i) => Ok(ContainerAttr { rename_all_fields: Some(i), ..a }),
                None => Err(AttrFail::Invalid { msg: msg_bad_inflection(v@) }),
            },
            None => Err(AttrFail::Invalid { msg: msg_expects_value() }),
        }
    } else if k == "tag"@ {
        match e.value {
            Some(v) => Ok(ContainerAttr { tag: Some(v), ..a }),
            None => Err(AttrFail::Invalid { msg: msg_expects_value() }),
        }
    } else if k == "content"@ {
        match e.value {
            Some(v) => Ok(ContainerAttr { content: Some(v), ..a }),
            None => Err(AttrFail::Invalid { msg: msg_expects_value() }),
        }
    } else if k == "untagged"@ {
        match e.value {
            Some(v) => Err(AttrFail::Invalid { msg: msg_no_value() }),
            None => Ok(ContainerAttr { untagged: true, ..a }),
        }
    } else if k == "bound"@ {
        match e.value {
            Some(v) => Ok(ContainerAttr { bound: Some(v), ..a }),
            None => Err(AttrFail::Invalid { msg: msg_expects_value() }),
        }
    } else {
        Err(AttrFail::Unknown { key: k, allowed: container_allowed() })
    }
}

/// The native-dialect container entries folded left to right.
pub open spec fn container_parse_spec(a: ContainerAttr, entries: Seq<AttrEntry>) -> Result<
    ContainerAttr,
    AttrFail,
>
    decreases entries.len(),
{
    if entries.len() == 0 {
        Ok(a)
    } else {
        match container_entry_spec(a, entries[0]) {
            Ok(b) => container_parse_spec(b, entries.drop_first()),
            Err(f) => Err(f),
        }
    }
}

/// What one native-dialect field entry does to the attribute set.
pub open spec fn field_entry_spec(a: FieldAttr, e: AttrEntry) -> Result<FieldAttr, AttrFail> {
    let k = e.key@;
    if k == "type"@ {
        match e.value {
            Some(v) => Ok(FieldAttr { type_override: Some(v), ..a }),
            None => Err(AttrFail::Invalid { msg: msg_expects_value() }),
        }
    } else if k == "as"@ {
        match e.value {
            Some(v) => Ok(FieldAttr { as_override: Some(v), ..a }),
            None => Err(AttrFail::Invalid { msg: msg_expects_value() }),
        }
    } else if k == "rename"@ {
        match e.value {
            Some(v) => Ok(FieldAttr { rename: Some(v), ..a }),
            None => Err(AttrFail::Invalid { msg: msg_expects_value() }),
        }
    } else if k == "inline"@ {
        match e.value {
            Some(v) => Err(AttrFail::Invalid { msg: msg_no_value() }),
            None => Ok(FieldAttr { inline: true, ..a }),
        }
    } else if k == "skip"@ {
        match e.value {
            Some(v) => Err(AttrFail::Invalid { msg: msg_no_value() }),
            None => Ok(FieldAttr { skip: true, ..a }),
        }
    } else if k == "optional"@ {
        match e.value {
            Some(v) => if v@ == "nullable"@ {
                Ok(FieldAttr { optional: true, nullable: true, ..a })
            } else {
                Err(AttrFail::Invalid { msg: msg_bad_optional() })
            },
            None => Ok(FieldAttr { optional: true, ..a }),
        }
    } else if k == "flatten"@ {
        match e.value {
            Some(v) => Err(AttrFail::Invalid { msg: msg_no_value() }),
            None => Ok(FieldAttr { flatten: true, ..a }),
        }
    } else {
        Err(AttrFail::Unknown { key: k, allowed: field_allowed() })
    }
}

/// The native-dialect field entries folded left to right.
pub open spec fn field_parse_spec(a: FieldAttr, entries: Seq<AttrEntry>) -> Result<
    FieldAttr,
    AttrFail,
>
    decreases entries.len(),
{
    if entries.len() == 0 {
        Ok(a)
    } else {
        match field_entry_spec(a, entries[0]) {
            Ok(b) => field_parse_spec(b, entries.drop_first()),
            Err(f) => Err(f),
        }
    }
}

/// What one native-dialect variant entry does to the attribute set.
pub open spec fn variant_entry_spec(a: VariantAttr, e: AttrEntry) -> Result<VariantAttr, AttrFail> {
    let k = e.key@;
    if k == "rename"@ {
        match e.value {
            Some(v) => Ok(VariantAttr { rename: Some(v), ..a }),
            None => Err(AttrFail::Invalid { msg: msg_expects_value() }),
        }
    } else if k == "rename_all"@ {
        match e.value {
            Some(v) => match inflection_name(v@) {
                Some(i) => Ok(VariantAttr { rename_all: Some(i), ..a }),
                None => Err(AttrFail::Invalid { msg: msg_bad_inflection(v@) }),
            },
            None => Err(AttrFail::Invalid { msg: msg_expects_value() }),
        }
    } else if k == "skip"@ {
        match e.value {
            Some(v) => Err(AttrFail::Invalid { msg: msg_no_value() }),
            None => Ok(VariantAttr { skip: true, ..a }),
        }
    } else if k == "untagged"@ {
        match e.value {
            Some(v) => Err(AttrFail::Invalid { msg: msg_no_value() }),
            None => Ok(VariantAttr { untagged: true, ..a }),
        }
    } else {
        Err(AttrFail::Unknown { key: k, allowed: variant_allowed() })
    }
}

/// The native-dialect variant entries folded left to right.
pub open spec fn variant_parse_spec(a: VariantAttr, entries: Seq<AttrEntry>) -> Result<
    VariantAttr,
    AttrFail,
>
    decreases entries.len(),
{
    if entries.len() == 0 {
        Ok(a)
    } else {
        match variant_entry_spec(a, entries[0]) {
            Ok(b) => variant_parse_spec(b, entries.drop_first()),
            Err(f) => Err(f),
        }
    }
}

/// The string value of the entry, or the missing-value error.
fn take_value(e: AttrEntry) -> (r: Result<String, Error>)
    ensures
        match e.value {
            Some(v) => r == Ok::<String, Error>(v),
            None => match r {
                Ok(_) => false,
                Err(er) => fail_matches(AttrFail::Invalid { msg: msg_expects_value() }, er),
            },
        },
{
    match e.value {
        Some(v) => Ok(v),
        None => Err(Error::InvalidAttribute("this attribute expects a string value".to_owned())),
    }
}

/// The flag-key check: no value may be present.
fn take_flag(e: AttrEntry) -> (r: Result<(), Error>)
    ensures
        match e.value {
            Some(_) => match r {
                Ok(_) => false,
                Err(er) => fail_matches(AttrFail::Invalid { msg: msg_no_value() }, er),
            },
            None => r == Ok::<(), Error>(()),
        },
{
    match e.value {
        Some(_) => Err(Error::InvalidAttribute("this attribute does not take a value".to_owned())),
        None => Ok(()),
    }
}

/// The bad-inflection error for the given value.
fn bad_inflection_error(v: &String) -> (r: Error)
    ensures
        fail_matches(AttrFail::Invalid { msg: msg_bad_inflection(v@) }, r),
{
    let mut m = String::new();
    m.append("Value \"");
    m.append(v.as_str());
    m.append(
        "\" is not a valid inflection. Accepted values are: \"lowercase\", \"UPPERCASE\", \"camelCase\", \"snake_case\", \"PascalCase\", \"SCREAMING_SNAKE_CASE\", \"kebab-case\" and \"SCREAMING-KEBAB-CASE\"",
    );
    Error::InvalidAttribute(m)
}

/// Applies one native-dialect container entry.
fn apply_container_entry(a: ContainerAttr, e: AttrEntry) -> (r: Result<ContainerAttr, Error>)
    ensures
        match container_entry_spec(a, e) {
            Ok(b) => r == Ok::<ContainerAttr, Error>(b),
            Err(f) => match r {
                Ok(_) => false,
                Err(er) => fail_matches(f, er),
            },
        },
{
    if str_is(&e.key, "crate") {
        let v = take_value(e)?;
        Ok(ContainerAttr { crate_rename: Some(v), ..a })
    } else if str_is(&e.key, "export") {
        take_flag(e)?;
        Ok(ContainerAttr { export: true, ..a })
    } else if str_is(&e.key, "export_to") {
        let v = take_value(e)?;
        Ok(ContainerAttr { export_to: Some(v), ..a })
    } else if str_is(&e.key, "as") {
        let v = take_value(e)?;
        Ok(ContainerAttr { as_override: Some(v), ..a })
    } else if str_is(&e.key, "type") {
        let v = take_value(e)?;
        Ok(ContainerAttr { type_override: Some(v), ..a })
    } else if str_is(&e.key, "rename") {
        let v = take_value(e)?;
        Ok(ContainerAttr { rename: Some(v), ..a })
    } else if str_is(&e.key, "rename_all") {
        let v = take_value(e)?;
        match parse_inflection(&v) {
            Some(i) => Ok(ContainerAttr { rename_all: Some(i), ..a }),
            None => Err(bad_inflection_error(&v)),
        }
    } else if str_is(&e.key, "rename_all_fields") {
        let v = take_value(e)?;
        match parse_inflection(&v) {
            Some(i) => Ok(ContainerAttr { rename_all_fields: Some(i), ..a }),
            None => Err(bad_inflection_error(&v)),
        }
    } else if str_is(&e.key, "tag") {
        let v = take_value(e)?;
        Ok(ContainerAttr { tag: Some(v), ..a })
    } else if str_is(&e.key, "content") {
        let v = take_value(e)?;
        Ok(ContainerAttr { content: Some(v), ..a })
    } else if str_is(&e.key, "untagged") {
        take_flag(e)?;
        Ok(ContainerAttr { untagged: true, ..a })
    } else if str_is(&e.key, "bound") {
        let v = take_value(e)?;
        Ok(ContainerAttr { bound: Some(v), ..a })
    } else {
        Err(
            Error::UnknownAttribute(
                e.key,
                "crate, export, export_to, as, type, rename, rename_all, rename_all_fields, tag, content, untagged, bound".to_owned(),
            ),
        )
    }
}

/// Applies one native-dialect field entry.
fn apply_field_entry(a: FieldAttr, e: AttrEntry) -> (r: Result<FieldAttr, Error>)
    ensures
        match field_entry_spec(a, e) {
            Ok(b) => r == Ok::<FieldAttr, Error>(b),
            Err(f) => match r {
                Ok(_) => false,
                Err(er) => fail_matches(f, er),
            },
        },
{
    if str_is(&e.key, "type") {
        let v = take_value(e)?;
        Ok(FieldAttr { type_override: Some(v), ..a })
    } else if str_is(&e.key, "as") {
        let v = take_value(e)?;
        Ok(FieldAttr { as_override: Some(v), ..a })
    } else if str_is(&e.key, "rename") {
        let v = take_value(e)?;
        Ok(FieldAttr { rename: Some(v), ..a })
    } else if str_is(&e.key, "inline") {
        take_flag(e)?;
        Ok(FieldAttr { inline: true, ..a })
    } else if str_is(&e.key, "skip") {
        take_flag(e)?;
        Ok(FieldAttr { skip: true, ..a })
    } else if str_is(&e.key, "optional") {
        match e.value {
            Some(v) => {
                if str_is(&v, "nullable") {
                    Ok(FieldAttr { optional: true, nullable: true, ..a })
                } else {
                    Err(
                        Error::InvalidAttribute(
                            "attribute \"optional\" expects no value or \"nullable\"".to_owned(),
                        ),
                    )
                }
            },
            None => Ok(FieldAttr { optional: true, ..a }),
        }
    } else if str_is(&e.key, "flatten") {
        take_flag(e)?;
        Ok(FieldAttr { flatten: true, ..a })
    } else {
        Err(
            Error::UnknownAttribute(
                e.key,
                "type, as, rename, inline, skip, optional, flatten".to_owned(),
            ),
        )
    }
}

/// Applies one native-dialect variant entry.
fn apply_variant_entry(a: VariantAttr, e: AttrEntry) -> (r: Result<VariantAttr, Error>)
    ensures
        match variant_entry_spec(a, e) {
            Ok(b) => r == Ok::<VariantAttr, Error>(b),
            Err(f) => match r {
                Ok(_) => false,
                Err(er) => fail_matches(f, er),
            },
        },
{
    if str_is(&e.key, "rename") {
        let v = take_value(e)?;
        Ok(VariantAttr { rename: Some(v), ..a })
    } else if str_is(&e.key, "rename_all") {
        let v = take_value(e)?;
        match parse_inflection(&v) {
            Some(i) => Ok(VariantAttr { rename_all: Some(i), ..a }),
            None => Err(bad_inflection_error(&v)),
        }
    } else if str_is(&e.key, "skip") {
        take_flag(e)?;
        Ok(VariantAttr { skip: true, ..a })
    } else if str_is(&e.key, "untagged") {
        take_flag(e)?;
        Ok(VariantAttr { untagged: true, ..a })
    } else {
        Err(Error::UnknownAttribute(e.key, "rename, rename_all, skip, untagged".to_owned()))
    }
}

/// Parses all native-dialect container entries, folding them left to right
/// over the empty set. Fails on the first unknown key or malformed value.
#[verifier::loop_isolation(false)]
pub fn parse_container_attrs(mut entries: Vec<AttrEntry>) -> (r: Result<ContainerAttr, Error>)
    ensures
        match container_parse_spec(container_default(), entries@) {
            Ok(b) => r == Ok::<ContainerAttr, Error>(b),
            Err(f) => match r {
                Ok(_) => false,
                Err(er) => fail_matches(f, er),
            },
        },
{
    let ghost all = entries@;
    let mut a = ContainerAttr::default();
    while entries.len() > 0
        invariant
            container_parse_spec(container_default(), all) == container_parse_spec(a, entries@),
        decreases entries@.len(),
    {
        let ghost prev = entries@;
        let ghost olda = a;
        let e = entries.remove(0);
        proof {
            assert(prev.drop_first() =~= entries@);
            assert(container_parse_spec(olda, prev) == match container_entry_spec(olda, prev[0]) {
                Ok(b) => container_parse_spec(b, prev.drop_first()),
                Err(f) => Err(f),
            });
        }
        match apply_container_entry(a, e) {
            Ok(b) => {
                a = b;
            },
            Err(er) => {
                return Err(er);
            },
        }
    }
    Ok(a)
}

/// Parses all native-dialect field entries, folding them left to right over
/// the empty set. Fails on the first unknown key or malformed value.
#[verifier::loop_isolation(false)]
pub fn parse_field_attrs(mut entries: Vec<AttrEntry>) -> (r: Result<FieldAttr, Error>)
    ensures
        match field_parse_spec(field_default(), entries@) {
            Ok(b) => r == Ok::<FieldAttr, Error>(b),
            Err(f) => match r {
                Ok(_) => false,
                Err(er) => fail_matches(f, er),
            },
        },
{
    let ghost all = entries@;
    let mut a = FieldAttr::default();
    while entries.len() > 0
        invariant
            field_parse_spec(field_default(), all) == field_parse_spec(a, entries@),
        decreases entries@.len(),
    {
        let ghost prev = entries@;
        let ghost olda = a;
        let e = entries.remove(0);
        proof {
            assert(prev.drop_first() =~= entries@);
            assert(field_parse_spec(olda, prev) == match field_entry_spec(olda, prev[0]) {
                Ok(b) => field_parse_spec(b, prev.drop_first()),
                Err(f) => Err(f),
            });
        }
        match apply_field_entry(a, e) {
            Ok(b) => {
                a = b;
            },
            Err(er) => {
                return Err(er);
            },
        }
    }
    Ok(a)
}

/// The warning recorded for a compatibility-dialect entry that could not be
/// used.
pub open spec fn serde_warning(k: Seq<char>) -> Seq<char> {
    "failed to parse serde attribute \""@ + k + "\". It will be ignored."@
}

/// What one compatibility-dialect container entry does: either an update, or
/// a warning while the entry is dropped. Never a failure.
pub open spec fn serde_container_entry_spec(a: ContainerAttr, e: AttrEntry) -> (
    ContainerAttr,
    Option<Seq<char>>,
) {
    let k = e.key@;
    let warn = (a, Some(serde_warning(k)));
    if k == "rename"@ {
        match e.value {
            Some(v) => (ContainerAttr { rename: Some(v), ..a }, None),
            None => warn,
        }
    } else if k == "rename_all"@ {
        match e.value {
            Some(v) => match inflection_name(v@) {
                Some(i) => (ContainerAttr { rename_all: Some(i), ..a }, None),
                None => warn,
            },
            None => warn,
        }
    } else if k == "rename_all_fields"@ {
        match e.value {
            Some(v) => match inflection_name(v@) {
                Some(i) => (ContainerAttr { rename_all_fields: Some(i), ..a }, None),
                None => warn,
            },
            None => warn,
        }
    } else if k == "tag"@ {
        match e.value {
            Some(v) => (ContainerAttr { tag: Some(v), ..a }, None),
            None => warn,
        }
    } else if k == "content"@ {
        match e.value {
            Some(v) => (ContainerAttr { content: Some(v), ..a }, None),
            None => warn,
        }
    } else if k == "untagged"@ {
        match e.value {
            Some(_) => warn,
            None => (ContainerAttr { untagged: true, ..a }, None),
        }
    } else if k == "default"@ {
        (a, None)
    } else {
        warn
    }
}

/// The compatibility-dialect container entries folded left to right, with
/// the warnings they produced.
pub open spec fn serde_container_parse_spec(a: ContainerAttr, entries: Seq<AttrEntry>) -> (
    ContainerAttr,
    Seq<Seq<char>>,
)
    decreases entries.len(),
{
    if entries.len() == 0 {
        (a, Seq::empty())
    } else {
        let (b, w) = serde_container_entry_spec(a, entries[0]);
        let (c, ws) = serde_container_parse_spec(b, entries.drop_first());
        match w {
            Some(m) => (c, seq![m] + ws),
            None => (c, ws),
        }
    }
}

/// What one compatibility-dialect field entry does.
pub open spec fn serde_field_entry_spec(a: FieldAttr, e: AttrEntry) -> (
    FieldAttr,
    Option<Seq<char>>,
) {
    let k = e.key@;
    let warn = (a, Some(serde_warning(k)));
    if k == "rename"@ {
        match e.value {
            Some(v) => (FieldAttr { rename: Some(v), ..a }, None),
            None => warn,
        }
    } else if k == "skip"@ {
        match e.value {
            Some(_) => warn,
            None => (FieldAttr { skip: true, ..a }, None),
        }
    } else if k == "flatten"@ {
        match e.value {
            Some(_) => warn,
            None => (FieldAttr { flatten: true, ..a }, None),
        }
    } else if k == "default"@ || k == "skip_serializing"@ || k == "skip_deserializing"@ || k
        == "skip_serializing_if"@ {
        (a, None)
    } else {
        warn
    }
}

/// The compatibility-dialect field entries folded left to right, with the
/// warnings they produced.
pub open spec fn serde_field_parse_spec(a: FieldAttr, entries: Seq<AttrEntry>) -> (
    FieldAttr,
    Seq<Seq<char>>,
)
    decreases entries.len(),
{
    if entries.len() == 0 {
        (a, Seq::empty())
    } else {
        let (b, w) = serde_field_entry_spec(a, entries[0]);
        let (c, ws) = serde_field_parse_spec(b, entries.drop_first());
        match w {
            Some(m) => (c, seq![m] + ws),
            None => (c, ws),
        }
    }
}

/// What one compatibility-dialect variant entry does.
pub open spec fn serde_variant_entry_spec(a: VariantAttr, e: AttrEntry) -> (
    VariantAttr,
    Option<Seq<char>>,
) {
    let k = e.key@;
    let warn = (a, Some(serde_warning(k)));
    if k == "rename"@ {
        match e.value {
            Some(v) => (VariantAttr { rename: Some(v), ..a }, None),
            None => warn,
        }
    } else if k == "rename_all"@ {
        match e.value {
            Some(v) => match inflection_name(v@) {
                Some(i) => (VariantAttr { rename_all: Some(i), ..a }, None),
                None => warn,
            },
            None => warn,
        }
    } else if k == "skip"@ {
        match e.value {
            Some(_) => warn,
            None => (VariantAttr { skip: true, ..a }, None),
        }
    } else if k == "untagged"@ {
        match e.value {
            Some(_) => warn,
            None => (VariantAttr { untagged: true, ..a }, None),
        }
    } else if k == "default"@ {
        (a, None)
    } else {
        warn
    }
}

/// The compatibility-dialect variant entries folded left to right, with the
/// warnings they produced.
pub open spec fn serde_variant_parse_spec(a: VariantAttr, entries: Seq<AttrEntry>) -> (
    VariantAttr,
    Seq<Seq<char>>,
)
    decreases entries.len(),
{
    if entries.len() == 0 {
        (a, Seq::empty())
    } else {
        let (b, w) = serde_variant_entry_spec(a, entries[0]);
        let (c, ws) = serde_variant_parse_spec(b, entries.drop_first());
        match w {
            Some(m) => (c, seq![m] + ws),
            None => (c, ws),
        }
    }
}

/// Builds the warning text for a dropped compatibility-dialect entry.
fn serde_warning_text(key: &String) -> (r: String)
    ensures
        r@ == serde_warning(key@),
{
    let mut m = String::new();
    m.append("failed to parse serde attribute \"");
    m.append(key.as_str());
    m.append("\". It will be ignored.");
    m
}

/// Applies one compatibility-dialect container entry, pushing a warning when
/// the entry cannot be used.
fn apply_serde_container_entry(a: ContainerAttr, e: AttrEntry, warnings: &mut Vec<String>) -> (r:
    ContainerAttr)
    ensures
        ({
            let (b, w) = serde_container_entry_spec(a, e);
            r == b && match w {
                Some(m) => final(warnings)@.map_values(|x: String| x@) == old(
                    warnings,
                )@.map_values(|x: String| x@).push(m),
                None => final(warnings)@ == old(warnings)@,
            }
        }),
{
    let ghost w0 = warnings@.map_values(|x: String| x@);
    if str_is(&e.key, "rename") {
        match e.value {
            Some(v) => ContainerAttr { rename: Some(v), ..a },
            None => {
                warnings.push(serde_warning_text(&e.key));
                proof {
                    assert(warnings@.map_values(|x: String| x@) =~= w0.push(serde_warning(e.key@)));
                }
                a
            },
        }
    } else if str_is(&e.key, "rename_all") {
        match e.value {
            Some(v) => match parse_inflection(&v) {
                Some(i) => ContainerAttr { rename_all: Some(i), ..a },
                None => {
                    warnings.push(serde_warning_text(&e.key));
                    proof {
                        assert(warnings@.map_values(|x: String| x@) =~= w0.push(
                            serde_warning(e.key@),
                        ));
                    }
                    a
                },
            },
            None => {
                warnings.push(serde_warning_text(&e.key));
                proof {
                    assert(warnings@.map_values(|x: String| x@) =~= w0.push(serde_warning(e.key@)));
                }
                a
            },
        }
    } else if str_is(&e.key, "rename_all_fields") {
        match e.value {
            Some(v) => match parse_inflection(&v) {
                Some(i) => ContainerAttr { rename_all_fields: Some(i), ..a },
                None => {
                    warnings.push(serde_warning_text(&e.key));
                    proof {
                        assert(warnings@.map_values(|x: String| x@) =~= w0.push(
                            serde_warning(e.key@),
                        ));
                    }
                    a
                },
            },
            None => {
                warnings.push(serde_warning_text(&e.key));
                proof {
                    assert(warnings@.map_values(|x: String| x@) =~= w0.push(serde_warning(e.key@)));
                }
                a
            },
        }
    } else if str_is(&e.key, "tag") {
        match e.value {
            Some(v) => ContainerAttr { tag: Some(v), ..a },
            None => {
                warnings.push(serde_warning_text(&e.key));
                proof {
                    assert(warnings@.map_values(|x: String| x@) =~= w0.push(serde_warning(e.key@)));
                }
                a
            },
        }
    } else if str_is(&e.key, "content") {
        match e.value {
            Some(v) => ContainerAttr { content: Some(v), ..a },
            None => {
                warnings.push(serde_warning_text(&e.key));
                proof {
                    assert(warnings@.map_values(|x: String| x@) =~= w0.push(serde_warning(e.key@)));
                }
                a
            },
        }
    } else if str_is(&e.key, "untagged") {
        match e.value {
            Some(_) => {
                warnings.push(serde_warning_text(&e.key));
                proof {
                    assert(warnings@.map_values(|x: String| x@) =~= w0.push(serde_warning(e.key@)));
                }
                a
            },
            None => ContainerAttr { untagged: true, ..a },
        }
    } else if str_is(&e.key, "default") {
        a
    } else {
        warnings.push(serde_warning_text(&e.key));
        proof {
            assert(warnings@.map_values(|x: String| x@) =~= w0.push(serde_warning(e.key@)));
        }
        a
    }
}

/// Parses all compatibility-dialect container entries. Unusable entries are
/// dropped with a warning; this parse never fails.
#[verifier::loop_isolation(false)]
pub fn parse_serde_container_attrs(mut entries: Vec<AttrEntry>) -> (r: (ContainerAttr, Vec<String>))
    ensures
        ({
            let (b, ws) = serde_container_parse_spec(container_default(), entries@);
            r.0 == b && r.1@.map_values(|x: String| x@) == ws
        }),
{
    let ghost all = entries@;
    let mut a = ContainerAttr::default();
    let mut warnings: Vec<String> = Vec::new();
    while entries.len() > 0
        invariant
            serde_container_parse_spec(container_default(), all).0 == serde_container_parse_spec(
                a,
                entries@,
            ).0,
            serde_container_parse_spec(container_default(), all).1 == warnings@.map_values(
                |x: String| x@,
            ) + serde_container_parse_spec(a, entries@).1,
        decreases entries@.len(),
    {
        let ghost prev = entries@;
        let ghost wprev = warnings@.map_values(|x: String| x@);
        let ghost olda = a;
        let e = entries.remove(0);
        proof {
            assert(prev.drop_first() =~= entries@);
        }
        a = apply_serde_container_entry(a, e, &mut warnings);
        proof {
            let (b, w) = serde_container_entry_spec(olda, prev[0]);
            match w {
                Some(m) => {
                    assert(wprev.push(m) + serde_container_parse_spec(a, entries@).1 =~= wprev + (seq![
                        m,
                    ] + serde_container_parse_spec(a, entries@).1));
                },
                None => {},
            }
        }
    }
    proof {
        assert(warnings@.map_values(|x: String| x@) + Seq::<Seq<char>>::empty() =~= warnings@
            .map_values(|x: String| x@));
    }
    (a, warnings)
}

/// Applies one compatibility-dialect field entry, pushing a warning when the
/// entry cannot be used.
fn apply_serde_field_entry(a: FieldAttr, e: AttrEntry, warnings: &mut Vec<String>) -> (r:
    FieldAttr)
    ensures
        ({
            let (b, w) = serde_field_entry_spec(a, e);
            r == b && match w {
                Some(m) => final(warnings)@.map_values(|x: String| x@) == old(
                    warnings,
                )@.map_values(|x: String| x@).push(m),
                None => final(warnings)@ == old(warnings)@,
            }
        }),
{
    let ghost w0 = warnings@.map_values(|x: String| x@);
    if str_is(&e.key, "rename") {
        match e.value {
            Some(v) => FieldAttr { rename: Some(v), ..a },
            None => {
                warnings.push(serde_warning_text(&e.key));
                proof {
                    assert(warnings@.map_values(|x: String| x@) =~= w0.push(serde_warning(e.key@)));
                }
                a
            },
        }
    } else if str_is(&e.key, "skip") {
        match e.value {
            Some(_) => {
                warnings.push(serde_warning_text(&e.key));
                proof {
                    assert(warnings@.map_values(|x: String| x@) =~= w0.push(serde_warning(e.key@)));
                }
                a
            },
            None => FieldAttr { skip: true, ..a },
        }
    } else if str_is(&e.key, "flatten") {
        match e.value {
            Some(_) => {
                warnings.push(serde_warning_text(&e.key));
                proof {
                    assert(warnings@.map_values(|x: String| x@) =~= w0.push(serde_warning(e.key@)));
                }
                a
            },
            None => FieldAttr { flatten: true, ..a },
        }
    } else if str_is(&e.key, "default") || str_is(&e.key, "skip_serializing") || str_is(
        &e.key,
        "skip_deserializing",
    ) || str_is(&e.key, "skip_serializing_if") {
        a
    } else {
        warnings.push(serde_warning_text(&e.key));
        proof {
            assert(warnings@.map_values(|x: String| x@) =~= w0.push(serde_warning(e.key@)));
        }
        a
    }
}

/// Parses all compatibility-dialect field entries. Unusable entries are
/// dropped with a warning; this parse never fails.
#[verifier::loop_isolation(false)]
pub fn parse_serde_field_attrs(mut entries: Vec<AttrEntry>) -> (r: (FieldAttr, Vec<String>))
    ensures
        ({
            let (b, ws) = serde_field_parse_spec(field_default(), entries@);
            r.0 == b && r.1@.map_values(|x: String| x@) == ws
        }),
{
    let ghost all = entries@;
    let mut a = FieldAttr::default();
    let mut warnings: Vec<String> = Vec::new();
    while entries.len() > 0
        invariant
            serde_field_parse_spec(field_default(), all).0 == serde_field_parse_spec(a, entries@).0,
            serde_field_parse_spec(field_default(), all).1 == warnings@.map_values(|x: String| x@)
                + serde_field_parse_spec(a, entries@).1,
        decreases entries@.len(),
    {
        let ghost prev = entries@;
        let ghost wprev = warnings@.map_values(|x: String| x@);
        let ghost olda = a;
        let e = entries.remove(0);
        proof {
            assert(prev.drop_first() =~= entries@);
        }
        a = apply_serde_field_entry(a, e, &mut warnings);
        proof {
            let (b, w) = serde_field_entry_spec(olda, prev[0]);
            match w {
                Some(m) => {
                    assert(wprev.push(m) + serde_field_parse_spec(a, entries@).1 =~= wprev + (seq![m]
                        + serde_field_parse_spec(a, entries@).1));
                },
                None => {},
            }
        }
    }
    proof {
        assert(warnings@.map_values(|x: String| x@) + Seq::<Seq<char>>::empty() =~= warnings@
            .map_values(|x: String| x@));
    }
    (a, warnings)
}

/// Applies one compatibility-dialect variant entry, pushing a warning when
/// the entry cannot be used.
fn apply_serde_variant_entry(a: VariantAttr, e: AttrEntry, warnings: &mut Vec<String>) -> (r:
    VariantAttr)
    ensures
        ({
            let (b, w) = serde_variant_entry_spec(a, e);
            r == b && match w {
                Some(m) => final(warnings)@.map_values(|x: String| x@) == old(
                    warnings,
                )@.map_values(|x: String| x@).push(m),
                None => final(warnings)@ == old(warnings)@,
            }
        }),
{
    let ghost w0 = warnings@.map_values(|x: String| x@);
    if str_is(&e.key, "rename") {
        match e.value {
            Some(v) => VariantAttr { rename: Some(v), ..a },
            None => {
                warnings.push(serde_warning_text(&e.key));
                proof {
                    assert(warnings@.map_values(|x: String| x@) =~= w0.push(serde_warning(e.key@)));
                }
                a
            },
        }
    } else if str_is(&e.key, "rename_all") {
        match e.value {
            Some(v) => match parse_inflection(&v) {
                Some(i) => VariantAttr { rename_all: Some(i), ..a },
                None => {
                    warnings.push(serde_warning_text(&e.key));
                    proof {
                        assert(warnings@.map_values(|x: String| x@) =~= w0.push(
                            serde_warning(e.key@),
                        ));
                    }
                    a
                },
            },
            None => {
                warnings.push(serde_warning_text(&e.key));
                proof {
                    assert(warnings@.map_values(|x: String| x@) =~= w0.push(serde_warning(e.key@)));
                }
                a
            },
        }
    } else if str_is(&e.key, "skip") {
        match e.value {
            Some(_) => {
                warnings.push(serde_warning_text(&e.key));
                proof {
                    assert(warnings@.map_values(|x: String| x@) =~= w0.push(serde_warning(e.key@)));
                }
                a
            },
            None => VariantAttr { skip: true, ..a },
        }
    } else if str_is(&e.key, "untagged") {
        match e.value {
            Some(_) => {
                warnings.push(serde_warning_text(&e.key));
                proof {
                    assert(warnings@.map_values(|x: String| x@) =~= w0.push(serde_warning(e.key@)));
                }
                a
            },
            None => VariantAttr { untagged: true, ..a },
        }
    } else if str_is(&e.key, "default") {
        a
    } else {
        warnings.push(serde_warning_text(&e.key));
        proof {
            assert(warnings@.map_values(|x: String| x@) =~= w0.push(serde_warning(e.key@)));
        }
        a
    }
}

/// Parses all compatibility-dialect variant entries. Unusable entries are
/// dropped with a warning; this parse never fails.
#[verifier::loop_isolation(false)]
pub fn parse_serde_variant_attrs(mut entries: Vec<AttrEntry>) -> (r: (VariantAttr, Vec<String>))
    ensures
        ({
            let (b, ws) = serde_variant_parse_spec(variant_default(), entries@);
            r.0 == b && r.1@.map_values(|x: String| x@) == ws
        }),
{
    let ghost all = entries@;
    let mut a = VariantAttr::default();
    let mut warnings: Vec<String> = Vec::new();
    while entries.len() > 0
        invariant
            serde_variant_parse_spec(variant_default(), all).0 == serde_variant_parse_spec(
                a,
                entries@,
            ).0,
            serde_variant_parse_spec(variant_default(), all).1 == warnings@.map_values(
                |x: String| x@,
            ) + serde_variant_parse_spec(a, entries@).1,
        decreases entries@.len(),
    {
        let ghost prev = entries@;
        let ghost wprev = warnings@.map_values(|x: String| x@);
        let ghost olda = a;
        let e = entries.remove(0);
        proof {
            assert(prev.drop_first() =~= entries@);
        }
        a = apply_serde_variant_entry(a, e, &mut warnings);
        proof {
            let (b, w) = serde_variant_entry_spec(olda, prev[0]);
            match w {
                Some(m) => {
                    assert(wprev.push(m) + serde_variant_parse_spec(a, entries@).1 =~= wprev + (seq![
                        m,
                    ] + serde_variant_parse_spec(a, entries@).1));
                },
                None => {},
            }
        }
    }
    proof {
        assert(warnings@.map_values(|x: String| x@) + Seq::<Seq<char>>::empty() =~= warnings@
            .map_values(|x: String| x@));
    }
    (a, warnings)
}

/// Parses all native-dialect variant entries, folding them left to right
/// over the empty set. Fails on the first unknown key or malformed value.
#[verifier::loop_isolation(false)]
pub fn parse_variant_attrs(mut entries: Vec<AttrEntry>) -> (r: Result<VariantAttr, Error>)
    ensures
        match variant_parse_spec(variant_default(), entries@) {
            Ok(b) => r == Ok::<VariantAttr, Error>(b),
            Err(f) => match r {
                Ok(_) => false,
                Err(er) => fail_matches(f, er),
            },
        },
{
    let ghost all = entries@;
    let mut a = VariantAttr::default();
    while entries.len() > 0
        invariant
            variant_parse_spec(variant_default(), all) == variant_parse_spec(a, entries@),
        decreases entries@.len(),
    {
        let ghost prev = entries@;
        let ghost olda = a;
        let e = entries.remove(0);
        proof {
            assert(prev.drop_first() =~= entries@);
            assert(variant_parse_spec(olda, prev) == match variant_entry_spec(olda, prev[0]) {
                Ok(b) => variant_parse_spec(b, prev.drop_first()),
                Err(f) => Err(f),
            });
        }
        match apply_variant_entry(a, e) {
            Ok(b) => {
                a = b;
            },
            Err(er) => {
                return Err(er);
            },
        }
    }
    Ok(a)
}

/// The first shape constraint a merged container attribute set violates, if
/// any: the description names the offending attribute.
pub open spec fn container_validity(a: ContainerAttr, is_enum: bool) -> Option<Seq<char>> {
    if a.type_override is Some && a.as_override is Some {
        Some("attributes \"type\" and \"as\" are mutually exclusive"@)
    } else if a.untagged && a.tag is Some {
        Some("attributes \"tag\" and \"untagged\" are mutually exclusive"@)
    } else if a.untagged && a.content is Some {
        Some("attributes \"content\" and \"untagged\" are mutually exclusive"@)
    } else if a.content is Some && a.tag is None {
        Some("attribute \"content\" requires \"tag\""@)
    } else if !is_enum && a.untagged {
        Some("attribute \"untagged\" is not valid for a struct"@)
    } else if !is_enum && a.content is Some {
        Some("attribute \"content\" is not valid for a struct"@)
    } else if !is_enum && a.rename_all_fields is Some {
        Some("attribute \"rename_all_fields\" is not valid for a struct"@)
    } else {
        None
    }
}

/// The first shape constraint a merged field attribute set violates, if any.
pub open spec fn field_validity(a: FieldAttr) -> Option<Seq<char>> {
    if a.type_override is Some && a.as_override is Some {
        Some("attributes \"type\" and \"as\" are mutually exclusive on a field"@)
    } else if a.flatten && (a.type_override is Some || a.as_override is Some) {
        Some("attribute \"flatten\" is not compatible with \"type\" or \"as\""@)
    } else if a.flatten && a.inline {
        Some("attribute \"flatten\" is not compatible with \"inline\""@)
    } else if a.flatten && a.optional {
        Some("attribute \"flatten\" is not compatible with \"optional\""@)
    } else if a.nullable && !a.optional {
        Some("attribute \"nullable\" requires \"optional\""@)
    } else {
        None
    }
}

impl ContainerAttr {
    /// Checks the merged set against its owning shape; run once, after both
    /// dialects are merged.
    pub fn assert_validity(&self, is_enum: bool) -> (r: Result<(), Error>)
        ensures
            match container_validity(*self, is_enum) {
                Some(msg) => match r {
                    Ok(_) => false,
                    Err(er) => fail_matches(AttrFail::Invalid { msg }, er),
                },
                None => r == Ok::<(), Error>(()),
            },
    {
        if self.type_override.is_some() && self.as_override.is_some() {
            Err(
                Error::InvalidAttribute(
                    "attributes \"type\" and \"as\" are mutually exclusive".to_owned(),
                ),
            )
        } else if self.untagged && self.tag.is_some() {
            Err(
                Error::InvalidAttribute(
                    "attributes \"tag\" and \"untagged\" are mutually exclusive".to_owned(),
                ),
            )
        } else if self.untagged && self.content.is_some() {
            Err(
                Error::InvalidAttribute(
                    "attributes \"content\" and \"untagged\" are mutually exclusive".to_owned(),
                ),
            )
        } else if self.content.is_some() && self.tag.is_none() {
            Err(Error::InvalidAttribute("attribute \"content\" requires \"tag\"".to_owned()))
        } else if !is_enum && self.untagged {
            Err(
                Error::InvalidAttribute(
                    "attribute \"untagged\" is not valid for a struct".to_owned(),
                ),
            )
        } else if !is_enum && self.content.is_some() {
            Err(
                Error::InvalidAttribute(
                    "attribute \"content\" is not valid for a struct".to_owned(),
                ),
            )
        } else if !is_enum && self.rename_all_fields.is_some() {
            Err(
                Error::InvalidAttribute(
                    "attribute \"rename_all_fields\" is not valid for a struct".to_owned(),
                ),
            )
        } else {
            Ok(())
        }
    }
}

impl FieldAttr {
    /// Checks the merged set for conflicting combinations; run once, after
    /// both dialects are merged.
    pub fn assert_validity(&self) -> (r: Result<(), Error>)
        ensures
            match field_validity(*self) {
                Some(msg) => match r {
                    Ok(_) => false,
                    Err(er) => fail_matches(AttrFail::Invalid { msg }, er),
                },
                None => r == Ok::<(), Error>(()),
            },
    {
        if self.type_override.is_some() && self.as_override.is_some() {
            Err(
                Error::InvalidAttribute(
                    "attributes \"type\" and \"as\" are mutually exclusive on a field".to_owned(),
                ),
            )
        } else if self.flatten && (self.type_override.is_some() || self.as_override.is_some()) {
            Err(
                Error::InvalidAttribute(
                    "attribute \"flatten\" is not compatible with \"type\" or \"as\"".to_owned(),
                ),
            )
        } else if self.flatten && self.inline {
            Err(
                Error::InvalidAttribute(
                    "attribute \"flatten\" is not compatible with \"inline\"".to_owned(),
                ),
            )
        } else if self.flatten && self.optional {
            Err(
                Error::InvalidAttribute(
                    "attribute \"flatten\" is not compatible with \"optional\"".to_owned(),
                ),
            )
        } else if self.nullable && !self.optional {
            Err(Error::InvalidAttribute("attribute \"nullable\" requires \"optional\"".to_owned()))
        } else {
            Ok(())
        }
    }
}

/// Parses both dialects for a container and merges them: the native dialect
/// is folded first and always wins on conflict; the compatibility dialect
/// fills only fields the native dialect left unset, and its unusable entries
/// come back as warnings.
pub fn parse_and_merge_container(native: Vec<AttrEntry>, compat: Vec<AttrEntry>) -> (r: Result<
    (ContainerAttr, Vec<String>),
    Error,
>)
    ensures
        match container_parse_spec(container_default(), native@) {
            Ok(n) => match r {
                Ok((merged, warnings)) => {
                    let (s, ws) = serde_container_parse_spec(container_default(), compat@);
                    merged == s.merge_spec(n) && warnings@.map_values(|x: String| x@) == ws
                },
                Err(_) => false,
            },
            Err(f) => match r {
                Ok(_) => false,
                Err(er) => fail_matches(f, er),
            },
        },
{
    let n = parse_container_attrs(native)?;
    let (s, warnings) = parse_serde_container_attrs(compat);
    Ok((s.merge(n), warnings))
}

/// Parses both dialects for a field and merges them, native dialect winning.
pub fn parse_and_merge_field(native: Vec<AttrEntry>, compat: Vec<AttrEntry>) -> (r: Result<
    (FieldAttr, Vec<String>),
    Error,
>)
    ensures
        match field_parse_spec(field_default(), native@) {
            Ok(n) => match r {
                Ok((merged, warnings)) => {
                    let (s, ws) = serde_field_parse_spec(field_default(), compat@);
                    merged == s.merge_spec(n) && warnings@.map_values(|x: String| x@) == ws
                },
                Err(_) => false,
            },
            Err(f) => match r {
                Ok(_) => false,
                Err(er) => fail_matches(f, er),
            },
        },
{
    let n = parse_field_attrs(native)?;
    let (s, warnings) = parse_serde_field_attrs(compat);
    Ok((s.merge(n), warnings))
}

/// Parses both dialects for a variant and merges them, native dialect
/// winning.
pub fn parse_and_merge_variant(native: Vec<AttrEntry>, compat: Vec<AttrEntry>) -> (r: Result<
    (VariantAttr, Vec<String>),
    Error,
>)
    ensures
        match variant_parse_spec(variant_default(), native@) {
            Ok(n) => match r {
                Ok((merged, warnings)) => {
                    let (s, ws) = serde_variant_parse_spec(variant_default(), compat@);
                    merged == s.merge_spec(n) && warnings@.map_values(|x: String| x@) == ws
                },
                Err(_) => false,
            },
            Err(f) => match r {
                Ok(_) => false,
                Err(er) => fail_matches(f, er),
            },
        },
{
    let n = parse_variant_attrs(native)?;
    let (s, warnings) = parse_serde_variant_attrs(compat);
    Ok((s.merge(n), warnings))
}

/// The mathematical content of an optional string.
pub open spec fn opt_view(o: Option<String>) -> Option<Seq<char>> {
    match o {
        Some(s) => Some(s@),
        None => None,
    }
}

/// The mathematical content of a field attribute set.
pub struct FieldAttrV {
    pub rename: Option<Seq<char>>,
    pub type_override: Option<Seq<char>>,
    pub as_override: Option<Seq<char>>,
    pub inline: bool,
    pub skip: bool,
    pub optional: bool,
    pub nullable: bool,
    pub flatten: bool,
}

impl View for FieldAttr {
    type V = FieldAttrV;

    open spec fn view(&self) -> FieldAttrV {
        FieldAttrV {
            rename: opt_view(self.rename),
            type_override: opt_view(self.type_override),
            as_override: opt_view(self.as_override),
            inline: self.inline,
            skip: self.skip,
            optional: self.optional,
            nullable: self.nullable,
            flatten: self.flatten,
        }
    }
}

/// The mathematical content of a variant attribute set.
pub struct VariantAttrV {
    pub rename: Option<Seq<char>>,
    pub rename_all: Option<Inflection>,
    pub skip: bool,
    pub untagged: bool,
}

impl View for VariantAttr {
    type V = VariantAttrV;

    open spec fn view(&self) -> VariantAttrV {
        VariantAttrV {
            rename: opt_view(self.rename),
            rename_all: self.rename_all,
            skip: self.skip,
            untagged: self.untagged,
        }
    }
}

/// The mathematical content of a container attribute set.
pub struct ContainerAttrV {
    pub crate_rename: Option<Seq<char>>,
    pub rename: Option<Seq<char>>,
    pub rename_all: Option<Inflection>,
    pub rename_all_fields: Option<Inflection>,
    pub tag: Option<Seq<char>>,
    pub content: Option<Seq<char>>,
    pub untagged: bool,
    pub export: bool,
    pub export_to: Option<Seq<char>>,
    pub type_override: Option<Seq<char>>,
    pub as_override: Option<Seq<char>>,
    pub bound: Option<Seq<char>>,
}

impl View for ContainerAttr {
    type V = ContainerAttrV;

    open spec fn view(&self) -> ContainerAttrV {
        ContainerAttrV {
            crate_rename: opt_view(self.crate_rename),
            rename: opt_view(self.rename),
            rename_all: self.rename_all,
            rename_all_fields: self.rename_all_fields,
            tag: opt_view(self.tag),
            content: opt_view(self.content),
            untagged: self.untagged,
            export: self.export,
            export_to: opt_view(self.export_to),
            type_override: opt_view(self.type_override),
            as_override: opt_view(self.as_override),
            bound: opt_view(self.bound),
        }
    }
}

} // verus!
