//! What the bytes of an encoded value are.
//!
//! A value is brought into its canonical form, and the canonical form is laid out byte by byte. The
//! layout is tagged: the first byte tells the kind of the value. Every text stands in a length frame and
//! every list behind its count, so no part can run into the next.

use vstd::prelude::*;
use crate::bytes;
use crate::model::{
    ArmModel, AttrDeclModel, DepsetModel, FunctionModel, IdModel, InstanceModel, ProviderModel,
    RuleModel, ValueModel,
};
use crate::order;
use crate::provider;
use crate::values;
use crate::values::AttrType;

verus! {

// ---- canonical form ----

/// The sort key of a named value: its name.
pub open spec fn by_name<V>() -> spec_fn((Seq<char>, V)) -> order::Key {
    |f: (Seq<char>, V)| order::text_key(f.0)
}

/// The form that all values share which the encoding does not tell apart: the fields of a struct and the
/// conditions of a branch are sorted by name, and a depset does not name the type of its elements.
pub open spec fn canonical(v: ValueModel) -> ValueModel
    decreases v,
{
    match v {
        ValueModel::List(items) => ValueModel::List(canonical_values(items)),
        ValueModel::Depset(d) => ValueModel::Depset(canonical_depset(d)),
        ValueModel::Struct(fields) => ValueModel::Struct(
            order::sorted_by(canonical_fields(fields), by_name()),
        ),
        ValueModel::Dict(pairs) => ValueModel::Dict(canonical_pairs(pairs)),
        ValueModel::Tuple(items) => ValueModel::Tuple(canonical_values(items)),
        ValueModel::Select(arms) => ValueModel::Select(canonical_arms(arms)),
        _ => v,
    }
}

pub open spec fn canonical_arm(arm: ArmModel) -> ArmModel
    decreases arm,
{
    match arm {
        ArmModel::Concrete(v) => ArmModel::Concrete(canonical(v)),
        ArmModel::Branch { conditions, no_match_error } => ArmModel::Branch {
            conditions: order::sorted_by(canonical_fields(conditions), by_name()),
            no_match_error,
        },
    }
}

pub open spec fn canonical_depset(d: DepsetModel) -> DepsetModel
    decreases d,
{
    DepsetModel {
        order: d.order,
        elem: None,
        direct: canonical_values(d.direct),
        transitive: canonical_depsets(d.transitive),
    }
}

/// Each value of a list in canonical form.
pub open spec fn canonical_values(items: Seq<ValueModel>) -> Seq<ValueModel>
    decreases items,
{
    if items.len() == 0 {
        seq![]
    } else {
        canonical_values(items.drop_last()).push(canonical(items.last()))
    }
}

/// Each named value in canonical form, in the given order.
pub open spec fn canonical_fields(fields: Seq<(Seq<char>, ValueModel)>) -> Seq<
    (Seq<char>, ValueModel),
>
    decreases fields,
{
    if fields.len() == 0 {
        seq![]
    } else {
        canonical_fields(fields.drop_last()).push((fields.last().0, canonical(fields.last().1)))
    }
}

/// Each key and each value of a dict in canonical form, in the given order.
pub open spec fn canonical_pairs(pairs: Seq<(ValueModel, ValueModel)>) -> Seq<
    (ValueModel, ValueModel),
>
    decreases pairs,
{
    if pairs.len() == 0 {
        seq![]
    } else {
        canonical_pairs(pairs.drop_last()).push(
            (canonical(pairs.last().0), canonical(pairs.last().1)),
        )
    }
}

/// Each arm in canonical form.
pub open spec fn canonical_arms(arms: Seq<ArmModel>) -> Seq<ArmModel>
    decreases arms,
{
    if arms.len() == 0 {
        seq![]
    } else {
        canonical_arms(arms.drop_last()).push(canonical_arm(arms.last()))
    }
}

/// Each depset in canonical form.
pub open spec fn canonical_depsets(list: Seq<DepsetModel>) -> Seq<DepsetModel>
    decreases list,
{
    if list.len() == 0 {
        seq![]
    } else {
        canonical_depsets(list.drop_last()).push(canonical_depset(list.last()))
    }
}

// ---- layout ----

/// The tag of a value: the first byte of its layout. A tag never changes once it is given.
pub open spec fn tag(v: ValueModel) -> u8 {
    match v {
        ValueModel::Nil => 0,
        ValueModel::Bool(_) => 1,
        ValueModel::Int(_) => 2,
        ValueModel::Str(_) => 3,
        ValueModel::List(_) => 4,
        ValueModel::Rule(_) => 5,
        ValueModel::Provider(_) => 6,
        ValueModel::Depset(_) => 7,
        ValueModel::File(_) => 8,
        ValueModel::Struct(_) => 9,
        ValueModel::FunctionRef(_) => 10,
        ValueModel::Label(_) => 11,
        ValueModel::Dict(_) => 12,
        ValueModel::AttrDecl(_) => 13,
        ValueModel::Tuple(_) => 14,
        ValueModel::Select(_) => 15,
    }
}

/// The parts of an attribute schema: of each attribute, its framed name and the code of its type.
pub open spec fn schema_parts(attrs: Seq<(Seq<char>, AttrType)>) -> Seq<Seq<u8>> {
    attrs.map_values(
        |a: (Seq<char>, AttrType)| bytes::text_frame(a.0) + seq![values::attr_code(a.1)],
    )
}

/// A rule: where it is defined, its name, its attribute schema and its toolchain types.
pub open spec fn rule_payload(r: RuleModel) -> Seq<u8> {
    bytes::text_frame(r.bzl) + (bytes::text_frame(r.name) + (bytes::count_bytes(r.attrs.len()) + (
    bytes::concat(schema_parts(r.attrs)) + bytes::texts_bytes(r.toolchains))))
}

/// A provider's identity: `0` for a provider that a module declares, the optional defining module, and
/// the name.
pub open spec fn identity_bytes(id: IdModel) -> Seq<u8> {
    seq![0u8] + (bytes::opt_text_bytes(id.bzl) + bytes::text_frame(id.name))
}

/// A provider type: its identity and the names of its fields.
pub open spec fn provider_payload(p: ProviderModel) -> Seq<u8> {
    identity_bytes(p.id) + bytes::texts_bytes(p.fields)
}

/// A function: the module, the name, and the digest of the module's content.
pub open spec fn function_payload(f: FunctionModel) -> Seq<u8> {
    bytes::text_frame(f.module) + (bytes::text_frame(f.name) + f.defining_digest)
}

/// An optional list of texts: `0` when there is none, else `1` and the list.
pub open spec fn opt_texts_bytes(texts: Option<Seq<Seq<char>>>) -> Seq<u8> {
    match texts {
        None => seq![0u8],
        Some(t) => seq![1u8] + bytes::texts_bytes(t),
    }
}

/// An attribute declaration, member by member.
pub open spec fn attr_decl_payload(a: AttrDeclModel) -> Seq<u8> {
    seq![a.code] + (opt_texts_bytes(a.allow_files) + (bytes::texts_bytes(a.providers) + (
    seq![bytes::bool_byte(a.mandatory)] + bytes::opt_text_bytes(a.default))))
}

/// The bytes of a value, taken as it is: its tag and its payload.
pub open spec fn layout(v: ValueModel) -> Seq<u8>
    decreases v, 1nat,
{
    seq![tag(v)] + payload(v)
}

/// What follows the tag.
pub open spec fn payload(v: ValueModel) -> Seq<u8>
    decreases v, 0nat,
{
    match v {
        ValueModel::Nil => seq![],
        ValueModel::Bool(x) => seq![bytes::bool_byte(x)],
        ValueModel::Int(i) => bytes::be_bytes(bytes::twos_complement(i)),
        ValueModel::Str(s) => bytes::text_frame(s),
        ValueModel::List(items) => bytes::count_bytes(items.len()) + bytes::concat(
            value_parts(items),
        ),
        ValueModel::Rule(r) => rule_payload(r),
        ValueModel::Provider(p) => provider_payload(p),
        ValueModel::Depset(d) => depset_payload(d),
        ValueModel::File(p) => bytes::text_frame(p),
        ValueModel::Struct(fields) => bytes::count_bytes(fields.len()) + bytes::concat(
            field_parts(fields),
        ),
        ValueModel::FunctionRef(f) => function_payload(f),
        ValueModel::Label(s) => bytes::text_frame(s),
        ValueModel::Dict(pairs) => bytes::count_bytes(pairs.len()) + bytes::concat(
            pair_parts(pairs),
        ),
        ValueModel::AttrDecl(a) => attr_decl_payload(a),
        ValueModel::Tuple(items) => bytes::count_bytes(items.len()) + bytes::concat(
            value_parts(items),
        ),
        ValueModel::Select(arms) => bytes::count_bytes(arms.len()) + bytes::concat(arm_parts(arms)),
    }
}

/// The bytes of a depset: its tag, the code of its order, its own values, and the depsets below it.
pub open spec fn depset_layout(d: DepsetModel) -> Seq<u8>
    decreases d, 1nat,
{
    seq![7u8] + depset_payload(d)
}

/// What follows the tag of a depset.
pub open spec fn depset_payload(d: DepsetModel) -> Seq<u8>
    decreases d, 0nat,
{
    seq![provider::order_code(d.order)] + ((bytes::count_bytes(d.direct.len()) + bytes::concat(
        value_parts(d.direct),
    )) + (bytes::count_bytes(d.transitive.len()) + bytes::concat(depset_parts(d.transitive))))
}

/// The bytes of an arm: `0` and the value, or `1`, the conditions and the error message.
pub open spec fn arm_layout(arm: ArmModel) -> Seq<u8>
    decreases arm, 1nat,
{
    match arm {
        ArmModel::Concrete(v) => seq![0u8] + layout(v),
        ArmModel::Branch { conditions, no_match_error } => seq![1u8] + ((bytes::count_bytes(
            conditions.len(),
        ) + bytes::concat(field_parts(conditions))) + bytes::text_frame(no_match_error)),
    }
}

/// The layout of each value.
pub open spec fn value_parts(items: Seq<ValueModel>) -> Seq<Seq<u8>>
    decreases items, 0nat,
{
    if items.len() == 0 {
        seq![]
    } else {
        value_parts(items.drop_last()).push(layout(items.last()))
    }
}

/// Of each named value, the framed name and the value's layout.
pub open spec fn field_parts(fields: Seq<(Seq<char>, ValueModel)>) -> Seq<Seq<u8>>
    decreases fields, 0nat,
{
    if fields.len() == 0 {
        seq![]
    } else {
        field_parts(fields.drop_last()).push(
            bytes::text_frame(fields.last().0) + layout(fields.last().1),
        )
    }
}

/// Of each pair, the layout of the key and that of the value.
pub open spec fn pair_parts(pairs: Seq<(ValueModel, ValueModel)>) -> Seq<Seq<u8>>
    decreases pairs, 0nat,
{
    if pairs.len() == 0 {
        seq![]
    } else {
        pair_parts(pairs.drop_last()).push(layout(pairs.last().0) + layout(pairs.last().1))
    }
}

/// The layout of each arm.
pub open spec fn arm_parts(arms: Seq<ArmModel>) -> Seq<Seq<u8>>
    decreases arms, 0nat,
{
    if arms.len() == 0 {
        seq![]
    } else {
        arm_parts(arms.drop_last()).push(arm_layout(arms.last()))
    }
}

/// The layout of each depset.
pub open spec fn depset_parts(list: Seq<DepsetModel>) -> Seq<Seq<u8>>
    decreases list, 0nat,
{
    if list.len() == 0 {
        seq![]
    } else {
        depset_parts(list.drop_last()).push(depset_layout(list.last()))
    }
}

// ---- encoding ----

/// The encoding of a value: the layout of its canonical form.
pub open spec fn encoding(v: ValueModel) -> Seq<u8> {
    layout(canonical(v))
}

/// The encoding of a depset.
pub open spec fn depset_encoding(d: DepsetModel) -> Seq<u8> {
    depset_layout(canonical_depset(d))
}

/// The encoding of an arm.
pub open spec fn arm_encoding(arm: ArmModel) -> Seq<u8> {
    arm_layout(canonical_arm(arm))
}

/// A named value in bytes: the framed name and the encoded value.
pub open spec fn field_bytes(f: (Seq<char>, ValueModel)) -> Seq<u8> {
    bytes::text_frame(f.0) + encoding(f.1)
}

/// The encoding of a provider instance: the provider's identity, then the number of fields and each
/// field's framed name and encoded value, in the given order.
pub open spec fn instance_encoding(p: InstanceModel) -> Seq<u8> {
    identity_bytes(p.provider) + (bytes::count_bytes(p.fields.len()) + bytes::concat(
        field_parts(canonical_fields(p.fields)),
    ))
}

// ---- sizes ----

/// The name and the module of an identity fit into frames.
pub open spec fn identity_sized(id: IdModel) -> bool {
    &&& bytes::text_fits(id.name)
    &&& id.bzl matches Some(b) ==> bytes::text_fits(b)
}

/// Every length and every count in the value fits into eight bytes, and every module digest has 32
/// bytes. If `bare`, no depset in it names the type of its elements.
pub open spec fn sized(v: ValueModel, bare: bool) -> bool
    decreases v,
{
    match v {
        ValueModel::Nil => true,
        ValueModel::Bool(_) => true,
        ValueModel::Int(_) => true,
        ValueModel::Str(s) => bytes::text_fits(s),
        ValueModel::List(items) => {
            &&& bytes::fits(items.len())
            &&& forall|i: int| 0 <= i < items.len() ==> sized(#[trigger] items[i], bare)
        },
        ValueModel::Rule(r) => {
            &&& bytes::text_fits(r.bzl)
            &&& bytes::text_fits(r.name)
            &&& bytes::fits(r.attrs.len())
            &&& forall|i: int| 0 <= i < r.attrs.len() ==> bytes::text_fits((#[trigger] r.attrs[i]).0)
            &&& bytes::texts_fit(r.toolchains)
        },
        ValueModel::Provider(p) => {
            &&& identity_sized(p.id)
            &&& bytes::texts_fit(p.fields)
        },
        ValueModel::Depset(d) => depset_sized(d, bare),
        ValueModel::File(p) => bytes::text_fits(p),
        ValueModel::Struct(fields) => {
            &&& bytes::fits(fields.len())
            &&& forall|i: int|
                0 <= i < fields.len() ==> bytes::text_fits((#[trigger] fields[i]).0) && sized(
                    fields[i].1,
                    bare,
                )
        },
        ValueModel::FunctionRef(f) => {
            &&& bytes::text_fits(f.module)
            &&& bytes::text_fits(f.name)
            &&& f.defining_digest.len() == 32
        },
        ValueModel::Label(s) => bytes::text_fits(s),
        ValueModel::Dict(pairs) => {
            &&& bytes::fits(pairs.len())
            &&& forall|i: int|
                0 <= i < pairs.len() ==> sized((#[trigger] pairs[i]).0, bare) && sized(
                    pairs[i].1,
                    bare,
                )
        },
        ValueModel::AttrDecl(a) => {
            &&& a.allow_files matches Some(exts) ==> bytes::texts_fit(exts)
            &&& bytes::texts_fit(a.providers)
            &&& a.default matches Some(d) ==> bytes::text_fits(d)
        },
        ValueModel::Tuple(items) => {
            &&& bytes::fits(items.len())
            &&& forall|i: int| 0 <= i < items.len() ==> sized(#[trigger] items[i], bare)
        },
        ValueModel::Select(arms) => {
            &&& bytes::fits(arms.len())
            &&& forall|i: int| 0 <= i < arms.len() ==> arm_sized(#[trigger] arms[i], bare)
        },
    }
}

pub open spec fn arm_sized(arm: ArmModel, bare: bool) -> bool
    decreases arm,
{
    match arm {
        ArmModel::Concrete(v) => sized(v, bare),
        ArmModel::Branch { conditions, no_match_error } => {
            &&& bytes::fits(conditions.len())
            &&& forall|i: int|
                0 <= i < conditions.len() ==> bytes::text_fits((#[trigger] conditions[i]).0)
                    && sized(conditions[i].1, bare)
            &&& bytes::text_fits(no_match_error)
        },
    }
}

pub open spec fn depset_sized(d: DepsetModel, bare: bool) -> bool
    decreases d,
{
    &&& bare ==> d.elem is None
    &&& bytes::fits(d.direct.len())
    &&& forall|i: int| 0 <= i < d.direct.len() ==> sized(#[trigger] d.direct[i], bare)
    &&& bytes::fits(d.transitive.len())
    &&& forall|i: int|
        0 <= i < d.transitive.len() ==> depset_sized(#[trigger] d.transitive[i], bare)
}

/// A value that memory can hold: every length and every count in it fits into eight bytes, and every
/// module digest has 32 bytes.
pub open spec fn representable(v: ValueModel) -> bool {
    sized(v, false)
}

/// The names fit, and so does each value.
pub open spec fn fields_sized(fields: Seq<(Seq<char>, ValueModel)>, bare: bool) -> bool {
    &&& bytes::fits(fields.len())
    &&& forall|i: int|
        0 <= i < fields.len() ==> bytes::text_fits((#[trigger] fields[i]).0) && sized(
            fields[i].1,
            bare,
        )
}

/// A provider instance that memory can hold.
pub open spec fn instance_representable(p: InstanceModel) -> bool {
    &&& identity_sized(p.provider)
    &&& fields_sized(p.fields, false)
}

// ---- parts and canonical forms, index by index ----

pub(crate) proof fn lemma_value_parts(items: Seq<ValueModel>)
    ensures
        value_parts(items).len() == items.len(),
        forall|i: int| 0 <= i < items.len() ==> #[trigger] value_parts(items)[i] == layout(items[i]),
    decreases items.len(),
{
    if items.len() > 0 {
        lemma_value_parts(items.drop_last());
        assert(value_parts(items) == value_parts(items.drop_last()).push(layout(items.last())));
    }
}

pub(crate) proof fn lemma_field_parts(fields: Seq<(Seq<char>, ValueModel)>)
    ensures
        field_parts(fields).len() == fields.len(),
        forall|i: int|
            0 <= i < fields.len() ==> #[trigger] field_parts(fields)[i] == bytes::text_frame(
                fields[i].0,
            ) + layout(fields[i].1),
    decreases fields.len(),
{
    if fields.len() > 0 {
        lemma_field_parts(fields.drop_last());
        assert(field_parts(fields) == field_parts(fields.drop_last()).push(
            bytes::text_frame(fields.last().0) + layout(fields.last().1),
        ));
    }
}

pub(crate) proof fn lemma_pair_parts(pairs: Seq<(ValueModel, ValueModel)>)
    ensures
        pair_parts(pairs).len() == pairs.len(),
        forall|i: int|
            0 <= i < pairs.len() ==> #[trigger] pair_parts(pairs)[i] == layout(pairs[i].0) + layout(
                pairs[i].1,
            ),
    decreases pairs.len(),
{
    if pairs.len() > 0 {
        lemma_pair_parts(pairs.drop_last());
        assert(pair_parts(pairs) == pair_parts(pairs.drop_last()).push(
            layout(pairs.last().0) + layout(pairs.last().1),
        ));
    }
}

pub(crate) proof fn lemma_arm_parts(arms: Seq<ArmModel>)
    ensures
        arm_parts(arms).len() == arms.len(),
        forall|i: int| 0 <= i < arms.len() ==> #[trigger] arm_parts(arms)[i] == arm_layout(arms[i]),
    decreases arms.len(),
{
    if arms.len() > 0 {
        lemma_arm_parts(arms.drop_last());
        assert(arm_parts(arms) == arm_parts(arms.drop_last()).push(arm_layout(arms.last())));
    }
}

pub(crate) proof fn lemma_depset_parts(list: Seq<DepsetModel>)
    ensures
        depset_parts(list).len() == list.len(),
        forall|i: int|
            0 <= i < list.len() ==> #[trigger] depset_parts(list)[i] == depset_layout(list[i]),
    decreases list.len(),
{
    if list.len() > 0 {
        lemma_depset_parts(list.drop_last());
        assert(depset_parts(list) == depset_parts(list.drop_last()).push(
            depset_layout(list.last()),
        ));
    }
}

pub(crate) proof fn lemma_canonical_values(items: Seq<ValueModel>)
    ensures
        canonical_values(items).len() == items.len(),
        forall|i: int|
            0 <= i < items.len() ==> #[trigger] canonical_values(items)[i] == canonical(items[i]),
    decreases items.len(),
{
    if items.len() > 0 {
        lemma_canonical_values(items.drop_last());
        assert(canonical_values(items) == canonical_values(items.drop_last()).push(
            canonical(items.last()),
        ));
    }
}

/// A named value with the value in canonical form.
pub open spec fn canonical_field() -> spec_fn((Seq<char>, ValueModel)) -> (Seq<char>, ValueModel) {
    |f: (Seq<char>, ValueModel)| (f.0, canonical(f.1))
}

pub(crate) proof fn lemma_canonical_fields(fields: Seq<(Seq<char>, ValueModel)>)
    ensures
        canonical_fields(fields) == fields.map_values(canonical_field()),
    decreases fields.len(),
{
    if fields.len() > 0 {
        lemma_canonical_fields(fields.drop_last());
        assert(canonical_fields(fields) == canonical_fields(fields.drop_last()).push(
            (fields.last().0, canonical(fields.last().1)),
        ));
    }
    assert(canonical_fields(fields) =~= fields.map_values(canonical_field()));
}

pub(crate) proof fn lemma_canonical_pairs(pairs: Seq<(ValueModel, ValueModel)>)
    ensures
        canonical_pairs(pairs).len() == pairs.len(),
        forall|i: int|
            0 <= i < pairs.len() ==> #[trigger] canonical_pairs(pairs)[i] == (
                canonical(pairs[i].0),
                canonical(pairs[i].1),
            ),
    decreases pairs.len(),
{
    if pairs.len() > 0 {
        lemma_canonical_pairs(pairs.drop_last());
        assert(canonical_pairs(pairs) == canonical_pairs(pairs.drop_last()).push(
            (canonical(pairs.last().0), canonical(pairs.last().1)),
        ));
    }
}

pub(crate) proof fn lemma_canonical_arms(arms: Seq<ArmModel>)
    ensures
        canonical_arms(arms).len() == arms.len(),
        forall|i: int|
            0 <= i < arms.len() ==> #[trigger] canonical_arms(arms)[i] == canonical_arm(arms[i]),
    decreases arms.len(),
{
    if arms.len() > 0 {
        lemma_canonical_arms(arms.drop_last());
        assert(canonical_arms(arms) == canonical_arms(arms.drop_last()).push(
            canonical_arm(arms.last()),
        ));
    }
}

pub(crate) proof fn lemma_canonical_depsets(list: Seq<DepsetModel>)
    ensures
        canonical_depsets(list).len() == list.len(),
        forall|i: int|
            0 <= i < list.len() ==> #[trigger] canonical_depsets(list)[i] == canonical_depset(
                list[i],
            ),
    decreases list.len(),
{
    if list.len() > 0 {
        lemma_canonical_depsets(list.drop_last());
        assert(canonical_depsets(list) == canonical_depsets(list.drop_last()).push(
            canonical_depset(list.last()),
        ));
    }
}

} // verus!
