//! The canonical codec: the one place where values and providers are turned into bytes.

use vstd::prelude::*;
use crate::bytes;
use crate::bytes::{
    append_byte, append_bytes, append_count, append_int, byte_of, framed_list, framed_opt,
    framed_text,
};
use crate::encoding;
use crate::model::{ArmModel, FieldModel, ValueModel};
use crate::order;
use crate::order::sorted_positions;
use crate::provider;
use crate::provider::{Depset, ProviderDef, ProviderId, ProviderInstance};
use crate::values;
use crate::values::{AttrDecl, AttrType, BzlValue, FunctionRef, RuleDef, SelectArm};

verus! {

// ---- values that hold no others ----

/// Writes an optional list of texts: `0` when there is none, else `1` and the list.
fn encode_opt_texts(texts: &Option<Vec<String>>, b: &mut Vec<u8>)
    ensures
        final(b)@ == old(b)@ + encoding::opt_texts_bytes(bytes::opt_texts(*texts)),
        bytes::opt_texts(*texts) matches Some(t) ==> bytes::texts_fit(t),
{
    broadcast use bytes::lemma_join;

    match texts {
        None => {
            append_byte(b, 0);
        },
        Some(exts) => {
            append_byte(b, 1);
            framed_list(b, exts.as_slice());
        },
    }
}

/// Writes an attribute declaration behind its tag.
fn encode_attr_decl(a: &AttrDecl, b: &mut Vec<u8>)
    ensures
        final(b)@ == old(b)@ + encoding::encoding(ValueModel::AttrDecl(a@)),
        encoding::representable(ValueModel::AttrDecl(a@)),
{
    broadcast use bytes::lemma_join;

    append_byte(b, 13);
    append_byte(b, a.code);
    encode_opt_texts(&a.allow_files, b);
    framed_list(b, a.providers.as_slice());
    append_byte(b, byte_of(a.mandatory));
    framed_opt(b, &a.default);
}

/// Writes a function behind its tag: the module, the name and the digest of the module's content.
fn encode_function_ref(f: &FunctionRef, b: &mut Vec<u8>)
    ensures
        final(b)@ == old(b)@ + encoding::encoding(ValueModel::FunctionRef(f@)),
        encoding::representable(ValueModel::FunctionRef(f@)),
{
    broadcast use bytes::lemma_join;

    append_byte(b, 10);
    framed_text(b, f.module.as_str());
    framed_text(b, f.name.as_str());
    append_bytes(b, f.defining_digest.as_slice());
}

/// Writes a provider's identity: `0` for a provider that a module declares (`1` is kept for built-in
/// ones), the optional defining module, and the name.
fn encode_provider_identity(id: &ProviderId, b: &mut Vec<u8>)
    ensures
        final(b)@ == old(b)@ + encoding::identity_bytes(id@),
        encoding::identity_sized(id@),
{
    broadcast use bytes::lemma_join;

    append_byte(b, 0x00);
    framed_opt(b, &id.bzl);
    framed_text(b, id.name.as_str());
}

/// Writes a provider type behind its tag.
fn encode_provider_def(pd: &ProviderDef, b: &mut Vec<u8>)
    ensures
        final(b)@ == old(b)@ + encoding::encoding(ValueModel::Provider(pd@)),
        encoding::representable(ValueModel::Provider(pd@)),
{
    broadcast use bytes::lemma_join;

    append_byte(b, 6);
    encode_provider_identity(&pd.id, b);
    framed_list(b, pd.fields.as_slice());
}

/// Writes an attribute schema behind its length.
fn encode_schema(attrs: &[(String, AttrType)], b: &mut Vec<u8>)
    ensures
        final(b)@ == old(b)@ + (bytes::count_bytes(attrs@.len()) + bytes::concat(
            encoding::schema_parts(values::schema_of(attrs@)),
        )),
        bytes::fits(attrs@.len()),
        forall|i: int|
            0 <= i < attrs@.len() ==> bytes::text_fits(
                (#[trigger] values::schema_of(attrs@)[i]).0,
            ),
{
    let ghost b0 = b@;
    let ghost models = values::schema_of(attrs@);
    let ghost parts = encoding::schema_parts(models);
    let n: usize = attrs.len();
    append_count(b, n);
    let ghost b1 = b@;
    proof {
        bytes::lemma_concat_ends(b1, parts);
    }
    for i in 0..n
        invariant
            n == attrs@.len(),
            models == values::schema_of(attrs@),
            parts == encoding::schema_parts(models),
            b@ == b1 + bytes::concat(parts.take(i as int)),
            forall|j: int| 0 <= j < i ==> bytes::text_fits((#[trigger] models[j]).0),
    {
        let ghost before = b@;
        framed_text(b, attrs[i].0.as_str());
        append_byte(b, attrs[i].1.code());
        proof {
            let a = models[i as int];
            assert(a == (attrs@[i as int].0@, attrs@[i as int].1));
            bytes::lemma_join(before, bytes::text_frame(a.0), seq![values::attr_code(a.1)]);
            bytes::lemma_concat_step(b1, parts, i as int);
        }
    }
    proof {
        bytes::lemma_join(b0, bytes::count_bytes(n as nat), bytes::concat(parts));
    }
}

/// Writes a rule behind its tag.
fn encode_rule(rd: &RuleDef, b: &mut Vec<u8>)
    ensures
        final(b)@ == old(b)@ + encoding::encoding(ValueModel::Rule(rd@)),
        encoding::representable(ValueModel::Rule(rd@)),
{
    broadcast use bytes::lemma_join;

    append_byte(b, 5);
    framed_text(b, rd.bzl.as_str());
    framed_text(b, rd.name.as_str());
    encode_schema(rd.attrs.as_slice(), b);
    framed_list(b, rd.toolchains.as_slice());
}

// ---- runs of values ----

/// Writes values behind their number.
fn encode_values(items: &[BzlValue], b: &mut Vec<u8>)
    ensures
        final(b)@ == old(b)@ + (bytes::count_bytes(items@.len()) + bytes::concat(
            encoding::value_parts(encoding::canonical_values(values::values_of(items@))),
        )),
        bytes::fits(items@.len()),
        forall|i: int|
            0 <= i < items@.len() ==> encoding::representable(
                #[trigger] values::values_of(items@)[i],
            ),
    decreases items@, 0nat,
{
    let ghost b0 = b@;
    let ghost models = values::values_of(items@);
    let ghost canon = encoding::canonical_values(models);
    let ghost parts = encoding::value_parts(canon);
    let n: usize = items.len();
    append_count(b, n);
    let ghost b1 = b@;
    proof {
        encoding::lemma_canonical_values(models);
        encoding::lemma_value_parts(canon);
        bytes::lemma_concat_ends(b1, parts);
    }
    for i in 0..n
        invariant
            n == items@.len(),
            models == values::values_of(items@),
            parts.len() == n,
            forall|j: int| 0 <= j < n ==> #[trigger] parts[j] == encoding::encoding(models[j]),
            b@ == b1 + bytes::concat(parts.take(i as int)),
            forall|j: int| 0 <= j < i ==> encoding::representable(#[trigger] models[j]),
    {
        encode_bzl_value(&items[i], b);
        proof {
            assert(models[i as int] == items@[i as int]@);
            bytes::lemma_concat_step(b1, parts, i as int);
        }
    }
    proof {
        bytes::lemma_join(b0, bytes::count_bytes(n as nat), bytes::concat(parts));
    }
}

/// A named value that memory can hold.
spec fn field_fits(f: FieldModel) -> bool {
    bytes::text_fits(f.0) && encoding::representable(f.1)
}

/// Writes a name and its value.
fn encode_field(field: &(String, BzlValue), b: &mut Vec<u8>)
    ensures
        final(b)@ == old(b)@ + encoding::field_bytes((field.0@, field.1@)),
        field_fits((field.0@, field.1@)),
    decreases field, 0nat,
{
    broadcast use bytes::lemma_join;

    framed_text(b, field.0.as_str());
    encode_bzl_value(&field.1, b);
}

/// Writes named values behind their number, in the given order.
fn encode_fields(fields: &[(String, BzlValue)], b: &mut Vec<u8>)
    ensures
        final(b)@ == old(b)@ + (bytes::count_bytes(fields@.len()) + bytes::concat(
            encoding::field_parts(encoding::canonical_fields(values::fields_of(fields@))),
        )),
        encoding::fields_sized(values::fields_of(fields@), false),
{
    let ghost b0 = b@;
    let ghost models = values::fields_of(fields@);
    let ghost canon = encoding::canonical_fields(models);
    let ghost parts = encoding::field_parts(canon);
    let n: usize = fields.len();
    append_count(b, n);
    let ghost b1 = b@;
    proof {
        encoding::lemma_canonical_fields(models);
        encoding::lemma_field_parts(canon);
        bytes::lemma_concat_ends(b1, parts);
    }
    for i in 0..n
        invariant
            n == fields@.len(),
            models == values::fields_of(fields@),
            parts.len() == n,
            forall|j: int| 0 <= j < n ==> #[trigger] parts[j] == encoding::field_bytes(models[j]),
            b@ == b1 + bytes::concat(parts.take(i as int)),
            forall|j: int| 0 <= j < i ==> field_fits(#[trigger] models[j]),
    {
        encode_field(&fields[i], b);
        proof {
            assert(models[i as int] == (fields@[i as int].0@, fields@[i as int].1@));
            bytes::lemma_concat_step(b1, parts, i as int);
        }
    }
    proof {
        bytes::lemma_join(b0, bytes::count_bytes(n as nat), bytes::concat(parts));
    }
}

/// Writes named values behind their number, sorted by name.
fn encode_sorted_fields(fields: &[(String, BzlValue)], b: &mut Vec<u8>)
    ensures
        final(b)@ == old(b)@ + (bytes::count_bytes(fields@.len()) + bytes::concat(
            encoding::field_parts(
                order::sorted_by(
                    encoding::canonical_fields(values::fields_of(fields@)),
                    encoding::by_name(),
                ),
            ),
        )),
        encoding::fields_sized(values::fields_of(fields@), false),
    decreases fields@, 0nat,
{
    let ghost b0 = b@;
    let ghost models = values::fields_of(fields@);
    let ghost sorted = order::sorted_by(encoding::canonical_fields(models), encoding::by_name());
    let ghost parts = encoding::field_parts(sorted);
    let n: usize = fields.len();
    let positions = sorted_positions(fields);
    append_count(b, n);
    let ghost b1 = b@;
    proof {
        lemma_sorted_fields(fields@, positions@);
        encoding::lemma_field_parts(sorted);
        bytes::lemma_concat_ends(b1, parts);
        assert forall|j: int| 0 <= j < n implies #[trigger] parts[j] == encoding::field_bytes(
            models[positions@[j] as int],
        ) by {
            assert(sorted[j].0 == models[positions@[j] as int].0);
        }
    }
    for i in 0..n
        invariant
            n == fields@.len(),
            positions@.len() == n,
            forall|j: int| 0 <= j < n ==> #[trigger] positions@[j] < n,
            models == values::fields_of(fields@),
            parts.len() == n,
            forall|j: int|
                0 <= j < n ==> #[trigger] parts[j] == encoding::field_bytes(models[positions@[j] as int]),
            b@ == b1 + bytes::concat(parts.take(i as int)),
            forall|j: int| 0 <= j < i ==> field_fits(models[#[trigger] positions@[j] as int]),
    {
        let at: usize = positions[i];
        encode_field(&fields[at], b);
        proof {
            assert(models[at as int] == (fields@[at as int].0@, fields@[at as int].1@));
            assert(parts[i as int] == encoding::field_bytes(models[at as int]));
            bytes::lemma_concat_step(b1, parts, i as int);
        }
    }
    proof {
        bytes::lemma_join(b0, bytes::count_bytes(n as nat), bytes::concat(parts));
        assert forall|i: int| 0 <= i < models.len() implies field_fits(#[trigger] models[i]) by {
            assert(positions@.contains(i as usize));
            let j = choose|j: int| 0 <= j < positions@.len() && positions@[j] == i as usize;
            assert(models[positions@[j] as int] == models[i]);
        }
    }
}

/// What stands at the sorted positions, in canonical form, is the canonical fields in sorted order.
proof fn lemma_sorted_fields(fields: Seq<(String, BzlValue)>, positions: Seq<usize>)
    requires
        positions.len() == fields.len(),
        forall|i: int| 0 <= i < positions.len() ==> #[trigger] positions[i] < fields.len(),
        order::picked(fields, positions) == order::sorted_by(
            fields,
            order::key_of::<(String, BzlValue)>(),
        ),
    ensures
        ({
            let sorted = order::sorted_by(
                encoding::canonical_fields(values::fields_of(fields)),
                encoding::by_name(),
            );
            &&& sorted.len() == fields.len()
            &&& forall|j: int|
                0 <= j < fields.len() ==> #[trigger] sorted[j] == (
                    fields[positions[j] as int].0@,
                    encoding::canonical(fields[positions[j] as int].1@),
                )
        }),
{
    let f = |x: (String, BzlValue)| (x.0@, encoding::canonical(x.1@));
    let models = values::fields_of(fields);
    encoding::lemma_canonical_fields(models);
    assert(encoding::canonical_fields(models) =~= fields.map_values(f));
    order::lemma_sorted_by_map(
        fields,
        f,
        order::key_of::<(String, BzlValue)>(),
        encoding::by_name(),
    );
    let sorted = order::sorted_by(encoding::canonical_fields(models), encoding::by_name());
    assert(sorted == order::picked(fields, positions).map_values(f));
}

/// A key and its value in bytes.
spec fn pair_bytes(p: (ValueModel, ValueModel)) -> Seq<u8> {
    encoding::encoding(p.0) + encoding::encoding(p.1)
}

/// A key and its value that memory can hold.
spec fn pair_fits(p: (ValueModel, ValueModel)) -> bool {
    encoding::representable(p.0) && encoding::representable(p.1)
}

/// Writes a key and its value.
fn encode_pair(pair: &(BzlValue, BzlValue), b: &mut Vec<u8>)
    ensures
        final(b)@ == old(b)@ + pair_bytes((pair.0@, pair.1@)),
        pair_fits((pair.0@, pair.1@)),
    decreases pair, 0nat,
{
    broadcast use bytes::lemma_join;

    encode_bzl_value(&pair.0, b);
    encode_bzl_value(&pair.1, b);
}

/// Writes keys and values behind their number, in the order of insertion.
fn encode_pairs(pairs: &[(BzlValue, BzlValue)], b: &mut Vec<u8>)
    ensures
        final(b)@ == old(b)@ + (bytes::count_bytes(pairs@.len()) + bytes::concat(
            encoding::pair_parts(encoding::canonical_pairs(values::pairs_of(pairs@))),
        )),
        bytes::fits(pairs@.len()),
        forall|i: int| 0 <= i < pairs@.len() ==> pair_fits(#[trigger] values::pairs_of(pairs@)[i]),
    decreases pairs@, 0nat,
{
    let ghost b0 = b@;
    let ghost models = values::pairs_of(pairs@);
    let ghost canon = encoding::canonical_pairs(models);
    let ghost parts = encoding::pair_parts(canon);
    let n: usize = pairs.len();
    append_count(b, n);
    let ghost b1 = b@;
    proof {
        encoding::lemma_canonical_pairs(models);
        encoding::lemma_pair_parts(canon);
        bytes::lemma_concat_ends(b1, parts);
        assert forall|j: int| 0 <= j < n implies #[trigger] parts[j] == pair_bytes(models[j]) by {
            assert(canon[j].0 == encoding::canonical(models[j].0));
        }
    }
    for i in 0..n
        invariant
            n == pairs@.len(),
            models == values::pairs_of(pairs@),
            parts.len() == n,
            forall|j: int| 0 <= j < n ==> #[trigger] parts[j] == pair_bytes(models[j]),
            b@ == b1 + bytes::concat(parts.take(i as int)),
            forall|j: int| 0 <= j < i ==> pair_fits(#[trigger] models[j]),
    {
        encode_pair(&pairs[i], b);
        proof {
            assert(models[i as int] == (pairs@[i as int].0@, pairs@[i as int].1@));
            bytes::lemma_concat_step(b1, parts, i as int);
        }
    }
    proof {
        bytes::lemma_join(b0, bytes::count_bytes(n as nat), bytes::concat(parts));
    }
}

/// Writes one arm: `0` and the value, or `1`, the conditions sorted by label and the error message.
fn encode_arm(arm: &SelectArm, b: &mut Vec<u8>)
    ensures
        final(b)@ == old(b)@ + encoding::arm_layout(encoding::canonical_arm(arm@)),
        encoding::arm_sized(arm@, false),
    decreases arm, 0nat,
{
    broadcast use bytes::lemma_join;

    proof {
        values::lemma_arm_view(*arm);
    }
    match arm {
        SelectArm::Concrete(v) => {
            append_byte(b, 0x00);
            encode_bzl_value(v, b);
            assert(encoding::canonical_arm(arm@) == ArmModel::Concrete(encoding::canonical(v@)));
        },
        SelectArm::Branch { conditions, no_match_error } => {
            append_byte(b, 0x01);
            encode_sorted_fields(conditions.as_slice(), b);
            framed_text(b, no_match_error.as_str());
            proof {
                lemma_sorted_len(values::fields_of(conditions@));
            }
        },
    }
}

/// Sorting the canonical fields keeps their number.
proof fn lemma_sorted_len(fields: Seq<FieldModel>)
    ensures
        order::sorted_by(encoding::canonical_fields(fields), encoding::by_name()).len()
            == fields.len(),
{
    encoding::lemma_canonical_fields(fields);
    order::law_sorting_orders_and_keeps_items(
        encoding::canonical_fields(fields),
        encoding::by_name(),
    );
}

/// Writes arms behind their number.
fn encode_arms(arms: &[SelectArm], b: &mut Vec<u8>)
    ensures
        final(b)@ == old(b)@ + (bytes::count_bytes(arms@.len()) + bytes::concat(
            encoding::arm_parts(encoding::canonical_arms(values::arms_of(arms@))),
        )),
        bytes::fits(arms@.len()),
        forall|i: int|
            0 <= i < arms@.len() ==> encoding::arm_sized(
                #[trigger] values::arms_of(arms@)[i],
                false,
            ),
    decreases arms@, 0nat,
{
    let ghost b0 = b@;
    let ghost models = values::arms_of(arms@);
    let ghost canon = encoding::canonical_arms(models);
    let ghost parts = encoding::arm_parts(canon);
    let n: usize = arms.len();
    append_count(b, n);
    let ghost b1 = b@;
    proof {
        encoding::lemma_canonical_arms(models);
        encoding::lemma_arm_parts(canon);
        bytes::lemma_concat_ends(b1, parts);
    }
    for i in 0..n
        invariant
            n == arms@.len(),
            models == values::arms_of(arms@),
            parts.len() == n,
            forall|j: int|
                0 <= j < n ==> #[trigger] parts[j] == encoding::arm_layout(
                    encoding::canonical_arm(models[j]),
                ),
            b@ == b1 + bytes::concat(parts.take(i as int)),
            forall|j: int| 0 <= j < i ==> encoding::arm_sized(#[trigger] models[j], false),
    {
        encode_arm(&arms[i], b);
        proof {
            assert(models[i as int] == arms@[i as int]@);
            bytes::lemma_concat_step(b1, parts, i as int);
        }
    }
    proof {
        bytes::lemma_join(b0, bytes::count_bytes(n as nat), bytes::concat(parts));
    }
}

/// Writes a depset behind its tag: the code of its order, its own values, and the depsets below it.
fn encode_depset(d: &Depset, b: &mut Vec<u8>)
    ensures
        final(b)@ == old(b)@ + encoding::depset_encoding(d@),
        encoding::depset_sized(d@, false),
    decreases d, 0nat,
{
    broadcast use bytes::lemma_join;

    proof {
        provider::lemma_depset_view(*d);
        encoding::lemma_canonical_values(d@.direct);
        encoding::lemma_canonical_depsets(d@.transitive);
    }
    append_byte(b, 7);
    append_byte(b, d.order.code());
    encode_values(d.direct.as_slice(), b);
    encode_depsets(d.transitive.as_slice(), b);
}

/// Writes depsets behind their number.
fn encode_depsets(list: &[Depset], b: &mut Vec<u8>)
    ensures
        final(b)@ == old(b)@ + (bytes::count_bytes(list@.len()) + bytes::concat(
            encoding::depset_parts(encoding::canonical_depsets(provider::depsets_of(list@))),
        )),
        bytes::fits(list@.len()),
        forall|i: int|
            0 <= i < list@.len() ==> encoding::depset_sized(
                #[trigger] provider::depsets_of(list@)[i],
                false,
            ),
    decreases list@, 0nat,
{
    let ghost b0 = b@;
    let ghost models = provider::depsets_of(list@);
    let ghost canon = encoding::canonical_depsets(models);
    let ghost parts = encoding::depset_parts(canon);
    let n: usize = list.len();
    append_count(b, n);
    let ghost b1 = b@;
    proof {
        encoding::lemma_canonical_depsets(models);
        encoding::lemma_depset_parts(canon);
        bytes::lemma_concat_ends(b1, parts);
    }
    for i in 0..n
        invariant
            n == list@.len(),
            models == provider::depsets_of(list@),
            parts.len() == n,
            forall|j: int|
                0 <= j < n ==> #[trigger] parts[j] == encoding::depset_encoding(models[j]),
            b@ == b1 + bytes::concat(parts.take(i as int)),
            forall|j: int| 0 <= j < i ==> encoding::depset_sized(#[trigger] models[j], false),
    {
        encode_depset(&list[i], b);
        proof {
            assert(models[i as int] == list@[i as int]@);
            bytes::lemma_concat_step(b1, parts, i as int);
        }
    }
    proof {
        bytes::lemma_join(b0, bytes::count_bytes(n as nat), bytes::concat(parts));
    }
}

// ---- values that hold others ----

/// Writes a list behind its tag.
fn encode_list(items: &[BzlValue], b: &mut Vec<u8>)
    ensures
        final(b)@ == old(b)@ + encoding::encoding(ValueModel::List(values::values_of(items@))),
        encoding::representable(ValueModel::List(values::values_of(items@))),
    decreases items@, 1nat,
{
    broadcast use bytes::lemma_join;

    append_byte(b, 4);
    encode_values(items, b);
    proof {
        encoding::lemma_canonical_values(values::values_of(items@));
    }
}

/// Writes a tuple behind its tag.
fn encode_tuple(items: &[BzlValue], b: &mut Vec<u8>)
    ensures
        final(b)@ == old(b)@ + encoding::encoding(ValueModel::Tuple(values::values_of(items@))),
        encoding::representable(ValueModel::Tuple(values::values_of(items@))),
    decreases items@, 1nat,
{
    broadcast use bytes::lemma_join;

    append_byte(b, 14);
    encode_values(items, b);
    proof {
        encoding::lemma_canonical_values(values::values_of(items@));
    }
}

/// Writes a struct behind its tag: its fields sorted by name.
fn encode_struct(fields: &[(String, BzlValue)], b: &mut Vec<u8>)
    ensures
        final(b)@ == old(b)@ + encoding::encoding(ValueModel::Struct(values::fields_of(fields@))),
        encoding::representable(ValueModel::Struct(values::fields_of(fields@))),
    decreases fields@, 1nat,
{
    broadcast use bytes::lemma_join;

    append_byte(b, 9);
    encode_sorted_fields(fields, b);
    proof {
        lemma_sorted_len(values::fields_of(fields@));
    }
}

/// Writes a dict behind its tag: its pairs in the order of insertion.
fn encode_dict(pairs: &[(BzlValue, BzlValue)], b: &mut Vec<u8>)
    ensures
        final(b)@ == old(b)@ + encoding::encoding(ValueModel::Dict(values::pairs_of(pairs@))),
        encoding::representable(ValueModel::Dict(values::pairs_of(pairs@))),
    decreases pairs@, 1nat,
{
    broadcast use bytes::lemma_join;

    append_byte(b, 12);
    encode_pairs(pairs, b);
    proof {
        encoding::lemma_canonical_pairs(values::pairs_of(pairs@));
    }
}

/// Writes a selection behind its tag: its arms, with the conditions of each sorted by label.
fn encode_select(arms: &[SelectArm], b: &mut Vec<u8>)
    ensures
        final(b)@ == old(b)@ + encoding::encoding(ValueModel::Select(values::arms_of(arms@))),
        encoding::representable(ValueModel::Select(values::arms_of(arms@))),
    decreases arms@, 1nat,
{
    broadcast use bytes::lemma_join;

    append_byte(b, 15);
    encode_arms(arms, b);
    proof {
        encoding::lemma_canonical_arms(values::arms_of(arms@));
    }
}

/// Appends the canonical encoding of a value to `b`.
pub fn encode_bzl_value(v: &BzlValue, b: &mut Vec<u8>)
    ensures
        final(b)@ == old(b)@ + encoding::encoding(v@),
        encoding::representable(v@),
    decreases v, 0nat,
{
    broadcast use bytes::lemma_join;

    proof {
        values::lemma_value_view(*v);
    }
    match v {
        BzlValue::Nil => {
            append_byte(b, 0);
            assert(seq![0u8] + Seq::<u8>::empty() =~= seq![0u8]);
        },
        BzlValue::Bool(x) => {
            append_byte(b, 1);
            append_byte(b, byte_of(*x));
        },
        BzlValue::Int(i) => {
            append_byte(b, 2);
            append_int(b, *i);
        },
        BzlValue::Str(s) => {
            append_byte(b, 3);
            framed_text(b, s.as_str());
        },
        BzlValue::List(items) => {
            encode_list(items.as_slice(), b);
        },
        BzlValue::Rule(rd) => {
            encode_rule(rd, b);
        },
        BzlValue::Provider(pd) => {
            encode_provider_def(pd, b);
        },
        BzlValue::Depset(d) => {
            encode_depset(d, b);
        },
        BzlValue::File(p) => {
            append_byte(b, 8);
            framed_text(b, p.as_str());
        },
        BzlValue::Struct(fields) => {
            encode_struct(fields.as_slice(), b);
        },
        BzlValue::FunctionRef(f) => {
            encode_function_ref(f, b);
        },
        BzlValue::Label(s) => {
            append_byte(b, 11);
            framed_text(b, s.as_str());
        },
        BzlValue::Dict(pairs) => {
            encode_dict(pairs.as_slice(), b);
        },
        BzlValue::AttrDecl(a) => {
            encode_attr_decl(a, b);
        },
        BzlValue::Tuple(items) => {
            encode_tuple(items.as_slice(), b);
        },
        BzlValue::Select(arms) => {
            encode_select(arms.as_slice(), b);
        },
    }
}

/// Appends the canonical encoding of a provider instance to `b`: the provider's identity, then its fields
/// in the given order.
pub fn encode_provider_instance(p: &ProviderInstance, b: &mut Vec<u8>)
    ensures
        final(b)@ == old(b)@ + encoding::instance_encoding(p@),
        encoding::instance_representable(p@),
{
    broadcast use bytes::lemma_join;

    encode_provider_identity(&p.provider, b);
    encode_fields(p.fields.as_slice(), b);
}

} // verus!
