//! What of a value is content: two values are encoded alike exactly when they are of one kind and agree, part
//! by part, in everything but what is no content.

use vstd::prelude::*;
use crate::encoding;
use crate::encoding_laws;
use crate::layout_laws;
use crate::model::{ArmModel, DepsetModel, FieldModel, InstanceModel, ValueModel};
use crate::order;

verus! {

// ---- what the canonical form keeps ----

/// The canonical form of a value that holds no others is the value; that of a list, a tuple, a dict, a
/// selection or a depset has as many parts, in the same order, each in canonical form; and that of a struct
/// has as many fields, each in canonical form, sorted by name.
pub proof fn law_canonical_form_keeps_every_part(v: ValueModel)
    ensures
        match v {
            ValueModel::List(items) => {
                &&& encoding::canonical(v) matches ValueModel::List(c)
                &&& c == items.map_values(|x: ValueModel| encoding::canonical(x))
            },
            ValueModel::Tuple(items) => {
                &&& encoding::canonical(v) matches ValueModel::Tuple(c)
                &&& c == items.map_values(|x: ValueModel| encoding::canonical(x))
            },
            ValueModel::Dict(pairs) => {
                &&& encoding::canonical(v) matches ValueModel::Dict(c)
                &&& c == pairs.map_values(
                    |p: (ValueModel, ValueModel)|
                        (encoding::canonical(p.0), encoding::canonical(p.1)),
                )
            },
            ValueModel::Select(arms) => {
                &&& encoding::canonical(v) matches ValueModel::Select(c)
                &&& c == arms.map_values(|a: ArmModel| encoding::canonical_arm(a))
            },
            ValueModel::Struct(fields) => {
                &&& encoding::canonical(v) matches ValueModel::Struct(c)
                &&& c == order::sorted_by(fields, encoding::by_name()).map_values(
                    |f: FieldModel| (f.0, encoding::canonical(f.1)),
                )
            },
            ValueModel::Depset(d) => encoding::canonical(v) == ValueModel::Depset(
                encoding::canonical_depset(d),
            ),
            _ => encoding::canonical(v) == v,
        },
{
    match v {
        ValueModel::List(items) => {
            encoding::lemma_canonical_values(items);
            assert(encoding::canonical_values(items) =~= items.map_values(
                |x: ValueModel| encoding::canonical(x),
            ));
        },
        ValueModel::Tuple(items) => {
            encoding::lemma_canonical_values(items);
            assert(encoding::canonical_values(items) =~= items.map_values(
                |x: ValueModel| encoding::canonical(x),
            ));
        },
        ValueModel::Dict(pairs) => {
            encoding::lemma_canonical_pairs(pairs);
            assert(encoding::canonical_pairs(pairs) =~= pairs.map_values(
                |p: (ValueModel, ValueModel)| (encoding::canonical(p.0), encoding::canonical(p.1)),
            ));
        },
        ValueModel::Select(arms) => {
            encoding::lemma_canonical_arms(arms);
            assert(encoding::canonical_arms(arms) =~= arms.map_values(
                |a: ArmModel| encoding::canonical_arm(a),
            ));
        },
        ValueModel::Struct(fields) => lemma_canonical_sorted(fields),
        _ => {},
    }
}

proof fn lemma_canonical_sorted(fields: Seq<FieldModel>)
    ensures
        order::sorted_by(encoding::canonical_fields(fields), encoding::by_name())
            == order::sorted_by(fields, encoding::by_name()).map_values(
            |f: FieldModel| (f.0, encoding::canonical(f.1)),
        ),
{
    layout_laws::lemma_sorted_run(fields);
    assert(encoding::canonical_field() =~= |f: FieldModel| (f.0, encoding::canonical(f.1)));
}

/// The canonical form of an arm is of the same kind: the value in canonical form, or the conditions, each in
/// canonical form and sorted by label, with the same error message.
pub proof fn law_canonical_arm_keeps_every_part(arm: ArmModel)
    ensures
        match arm {
            ArmModel::Concrete(v) => encoding::canonical_arm(arm) == ArmModel::Concrete(
                encoding::canonical(v),
            ),
            ArmModel::Branch { conditions, no_match_error } => encoding::canonical_arm(arm) == (
            ArmModel::Branch {
                conditions: order::sorted_by(conditions, encoding::by_name()).map_values(
                    |f: FieldModel| (f.0, encoding::canonical(f.1)),
                ),
                no_match_error,
            }),
        },
{
    if let ArmModel::Branch { conditions, no_match_error } = arm {
        lemma_canonical_sorted(conditions);
    }
}

/// The canonical form of a depset has the same order and does not name the type of its elements; its own
/// values and the depsets below it are as many, in the same order, each in canonical form.
pub proof fn law_canonical_depset_keeps_every_part(d: DepsetModel)
    ensures
        encoding::canonical_depset(d) == (DepsetModel {
            order: d.order,
            elem: None,
            direct: d.direct.map_values(|v: ValueModel| encoding::canonical(v)),
            transitive: d.transitive.map_values(|t: DepsetModel| encoding::canonical_depset(t)),
        }),
{
    let c = encoding::canonical_depset(d);
    encoding::lemma_canonical_values(d.direct);
    encoding::lemma_canonical_depsets(d.transitive);
    assert(c.direct =~= d.direct.map_values(|v: ValueModel| encoding::canonical(v)));
    assert(c.transitive =~= d.transitive.map_values(
        |t: DepsetModel| encoding::canonical_depset(t),
    ));
}

// ---- what is told apart ----

/// Values of different kinds are never encoded alike.
pub proof fn law_kinds_are_told_apart(a: ValueModel, b: ValueModel)
    requires
        encoding::encoding(a) == encoding::encoding(b),
    ensures
        a is Nil <==> b is Nil,
        a is Bool <==> b is Bool,
        a is Int <==> b is Int,
        a is Str <==> b is Str,
        a is List <==> b is List,
        a is Rule <==> b is Rule,
        a is Provider <==> b is Provider,
        a is Depset <==> b is Depset,
        a is File <==> b is File,
        a is Struct <==> b is Struct,
        a is FunctionRef <==> b is FunctionRef,
        a is Label <==> b is Label,
        a is Dict <==> b is Dict,
        a is AttrDecl <==> b is AttrDecl,
        a is Tuple <==> b is Tuple,
        a is Select <==> b is Select,
{
    encoding_laws::law_first_byte_is_the_tag(a, b);
}

proof fn lemma_values_content(a: Seq<ValueModel>, b: Seq<ValueModel>)
    requires
        forall|i: int| 0 <= i < a.len() ==> encoding::representable(#[trigger] a[i]),
        forall|i: int| 0 <= i < b.len() ==> encoding::representable(#[trigger] b[i]),
    ensures
        encoding::canonical_values(a) == encoding::canonical_values(b) <==> {
            &&& a.len() == b.len()
            &&& forall|i: int|
                0 <= i < a.len() ==> encoding::encoding(#[trigger] a[i]) == encoding::encoding(b[i])
        },
{
    let (c, d) = (encoding::canonical_values(a), encoding::canonical_values(b));
    encoding::lemma_canonical_values(a);
    encoding::lemma_canonical_values(b);
    if c == d {
        assert forall|i: int| 0 <= i < a.len() implies encoding::encoding(#[trigger] a[i])
            == encoding::encoding(b[i]) by {
            assert(c[i] == d[i]);
        }
    }
    if a.len() == b.len() && (forall|i: int|
        0 <= i < a.len() ==> encoding::encoding(#[trigger] a[i]) == encoding::encoding(b[i])) {
        assert forall|i: int| 0 <= i < c.len() implies #[trigger] c[i] == d[i] by {
            assert(encoding::encoding(a[i]) == encoding::encoding(b[i]));
            encoding_laws::law_encoding_is_injective(a[i], b[i]);
        }
        assert(c =~= d);
    }
}

/// Two lists are encoded alike exactly when they have as many elements and each element is encoded like its
/// counterpart: every element counts, and so does its place.
pub proof fn law_list_elements_are_content(items: Seq<ValueModel>, others: Seq<ValueModel>)
    requires
        encoding::representable(ValueModel::List(items)),
        encoding::representable(ValueModel::List(others)),
    ensures
        encoding::encoding(ValueModel::List(items)) == encoding::encoding(ValueModel::List(others))
            <==> {
            &&& items.len() == others.len()
            &&& forall|i: int|
                0 <= i < items.len() ==> encoding::encoding(#[trigger] items[i])
                    == encoding::encoding(others[i])
        },
{
    encoding_laws::law_encoding_is_injective(ValueModel::List(items), ValueModel::List(others));
    lemma_values_content(items, others);
}

/// Two tuples are encoded alike exactly when they have as many elements and each element is encoded like its
/// counterpart.
pub proof fn law_tuple_elements_are_content(items: Seq<ValueModel>, others: Seq<ValueModel>)
    requires
        encoding::representable(ValueModel::Tuple(items)),
        encoding::representable(ValueModel::Tuple(others)),
    ensures
        encoding::encoding(ValueModel::Tuple(items)) == encoding::encoding(
            ValueModel::Tuple(others),
        ) <==> {
            &&& items.len() == others.len()
            &&& forall|i: int|
                0 <= i < items.len() ==> encoding::encoding(#[trigger] items[i])
                    == encoding::encoding(others[i])
        },
{
    encoding_laws::law_encoding_is_injective(ValueModel::Tuple(items), ValueModel::Tuple(others));
    lemma_values_content(items, others);
}

/// Two dicts are encoded alike exactly when they have as many pairs and each key and each value is encoded
/// like its counterpart: the order of insertion counts.
pub proof fn law_dict_pairs_are_content(
    pairs: Seq<(ValueModel, ValueModel)>,
    others: Seq<(ValueModel, ValueModel)>,
)
    requires
        encoding::representable(ValueModel::Dict(pairs)),
        encoding::representable(ValueModel::Dict(others)),
    ensures
        encoding::encoding(ValueModel::Dict(pairs)) == encoding::encoding(ValueModel::Dict(others))
            <==> {
            &&& pairs.len() == others.len()
            &&& forall|i: int|
                0 <= i < pairs.len() ==> encoding::encoding((#[trigger] pairs[i]).0)
                    == encoding::encoding(others[i].0) && encoding::encoding(pairs[i].1)
                    == encoding::encoding(others[i].1)
        },
{
    encoding_laws::law_encoding_is_injective(ValueModel::Dict(pairs), ValueModel::Dict(others));
    let (c, d) = (encoding::canonical_pairs(pairs), encoding::canonical_pairs(others));
    encoding::lemma_canonical_pairs(pairs);
    encoding::lemma_canonical_pairs(others);
    if c == d {
        assert forall|i: int| 0 <= i < pairs.len() implies encoding::encoding(
            (#[trigger] pairs[i]).0,
        ) == encoding::encoding(others[i].0) && encoding::encoding(pairs[i].1)
            == encoding::encoding(others[i].1) by {
            assert(c[i] == d[i]);
        }
    }
    if pairs.len() == others.len() && (forall|i: int|
        0 <= i < pairs.len() ==> encoding::encoding((#[trigger] pairs[i]).0) == encoding::encoding(
            others[i].0,
        ) && encoding::encoding(pairs[i].1) == encoding::encoding(others[i].1)) {
        assert forall|i: int| 0 <= i < c.len() implies #[trigger] c[i] == d[i] by {
            assert(encoding::encoding(pairs[i].0) == encoding::encoding(others[i].0));
            assert(encoding::representable(others[i].0));
            encoding_laws::law_encoding_is_injective(pairs[i].0, others[i].0);
            encoding_laws::law_encoding_is_injective(pairs[i].1, others[i].1);
        }
        assert(c =~= d);
    }
}

/// The fields agree, one by one, in their names and in how their values are encoded.
spec fn fields_agree(a: Seq<FieldModel>, b: Seq<FieldModel>) -> bool {
    &&& a.len() == b.len()
    &&& forall|i: int|
        0 <= i < a.len() ==> (#[trigger] a[i]).0 == b[i].0 && encoding::encoding(a[i].1)
            == encoding::encoding(b[i].1)
}

proof fn lemma_fields_content(a: Seq<FieldModel>, b: Seq<FieldModel>)
    requires
        forall|i: int| 0 <= i < a.len() ==> encoding::representable((#[trigger] a[i]).1),
        forall|i: int| 0 <= i < b.len() ==> encoding::representable((#[trigger] b[i]).1),
    ensures
        a.map_values(encoding::canonical_field()) == b.map_values(encoding::canonical_field()) <==> (
        a.len() == b.len() && forall|i: int|
            0 <= i < a.len() ==> (#[trigger] a[i]).0 == b[i].0 && encoding::encoding(a[i].1)
                == encoding::encoding(b[i].1)),
{
    let f = encoding::canonical_field();
    let (c, d) = (a.map_values(f), b.map_values(f));
    assert(c.len() == a.len() && d.len() == b.len());
    if c == d {
        assert forall|i: int| 0 <= i < a.len() implies (#[trigger] a[i]).0 == b[i].0
            && encoding::encoding(a[i].1) == encoding::encoding(b[i].1) by {
            assert(c[i] == d[i]);
            assert(c[i] == f(a[i]) && d[i] == f(b[i]));
        }
    }
    if fields_agree(a, b) {
        assert forall|i: int| 0 <= i < c.len() implies #[trigger] c[i] == d[i] by {
            assert(a[i].0 == b[i].0);
            assert(encoding::representable(b[i].1));
            encoding_laws::law_encoding_is_injective(a[i].1, b[i].1);
        }
        assert(c =~= d);
    }
}

proof fn lemma_sorted_content(a: Seq<FieldModel>, b: Seq<FieldModel>)
    requires
        forall|i: int| 0 <= i < a.len() ==> encoding::representable((#[trigger] a[i]).1),
        forall|i: int| 0 <= i < b.len() ==> encoding::representable((#[trigger] b[i]).1),
    ensures
        order::sorted_by(encoding::canonical_fields(a), encoding::by_name()) == order::sorted_by(
            encoding::canonical_fields(b),
            encoding::by_name(),
        ) <==> fields_agree(
            order::sorted_by(a, encoding::by_name()),
            order::sorted_by(b, encoding::by_name()),
        ),
{
    let key = encoding::by_name::<ValueModel>();
    let (s, t) = (order::sorted_by(a, key), order::sorted_by(b, key));
    layout_laws::lemma_sorted_run(a);
    layout_laws::lemma_sorted_run(b);
    assert forall|i: int| 0 <= i < s.len() implies encoding::representable((#[trigger] s[i]).1) by {
        encoding_laws::lemma_sorted_from_given(a, i);
    }
    assert forall|i: int| 0 <= i < t.len() implies encoding::representable((#[trigger] t[i]).1) by {
        encoding_laws::lemma_sorted_from_given(b, i);
    }
    lemma_fields_content(s, t);
}

/// Two structs are encoded alike exactly when they have as many fields and, sorted by name, each field has the
/// name of its counterpart and is encoded like it: every field counts, and its name does.
pub proof fn law_struct_fields_are_content(fields: Seq<FieldModel>, others: Seq<FieldModel>)
    requires
        encoding::representable(ValueModel::Struct(fields)),
        encoding::representable(ValueModel::Struct(others)),
    ensures
        encoding::encoding(ValueModel::Struct(fields)) == encoding::encoding(
            ValueModel::Struct(others),
        ) <==> ({
            let s = order::sorted_by(fields, encoding::by_name());
            let t = order::sorted_by(others, encoding::by_name());
            &&& fields.len() == others.len()
            &&& forall|i: int|
                0 <= i < fields.len() ==> (#[trigger] s[i]).0 == t[i].0 && encoding::encoding(
                    s[i].1,
                ) == encoding::encoding(t[i].1)
        }),
{
    encoding_laws::law_encoding_is_injective(
        ValueModel::Struct(fields),
        ValueModel::Struct(others),
    );
    order::law_sorting_orders_and_keeps_items(fields, encoding::by_name());
    order::law_sorting_orders_and_keeps_items(others, encoding::by_name());
    lemma_sorted_content(fields, others);
}

/// Two arms are encoded alike exactly when both are values that are encoded alike, or both are branches with
/// the same error message whose conditions, sorted by label, agree in their labels and in how their values
/// are encoded.
pub proof fn law_arms_are_told_apart(arm: ArmModel, other: ArmModel)
    requires
        encoding::arm_sized(arm, false),
        encoding::arm_sized(other, false),
    ensures
        encoding::arm_encoding(arm) == encoding::arm_encoding(other) <==> match (arm, other) {
            (ArmModel::Concrete(v), ArmModel::Concrete(w)) => encoding::encoding(v)
                == encoding::encoding(w),
            (
                ArmModel::Branch { conditions: c, no_match_error: e },
                ArmModel::Branch { conditions: d, no_match_error: f },
            ) => {
                let s = order::sorted_by(c, encoding::by_name());
                let t = order::sorted_by(d, encoding::by_name());
                &&& e == f
                &&& c.len() == d.len()
                &&& forall|i: int|
                    0 <= i < c.len() ==> (#[trigger] s[i]).0 == t[i].0 && encoding::encoding(s[i].1)
                        == encoding::encoding(t[i].1)
            },
            _ => false,
        },
{
    let (p, q) = (encoding::canonical_arm(arm), encoding::canonical_arm(other));
    encoding_laws::lemma_canonical_arm_sized(arm);
    encoding_laws::lemma_canonical_arm_sized(other);
    let none = Seq::<u8>::empty();
    if encoding::arm_encoding(arm) == encoding::arm_encoding(other) {
        encoding_laws::lemma_arm_delimits(p, q, none, none);
    }
    match (arm, other) {
        (ArmModel::Concrete(v), ArmModel::Concrete(w)) => {
            encoding_laws::law_encoding_is_injective(v, w);
        },
        (
            ArmModel::Branch { conditions: c, no_match_error: e },
            ArmModel::Branch { conditions: d, no_match_error: f },
        ) => {
            order::law_sorting_orders_and_keeps_items(c, encoding::by_name());
            order::law_sorting_orders_and_keeps_items(d, encoding::by_name());
            lemma_sorted_content(c, d);
        },
        _ => {},
    }
}

/// Two selections are encoded alike exactly when they have as many arms and each arm is encoded like its
/// counterpart.
pub proof fn law_select_arms_are_content(arms: Seq<ArmModel>, others: Seq<ArmModel>)
    requires
        encoding::representable(ValueModel::Select(arms)),
        encoding::representable(ValueModel::Select(others)),
    ensures
        encoding::encoding(ValueModel::Select(arms)) == encoding::encoding(
            ValueModel::Select(others),
        ) <==> {
            &&& arms.len() == others.len()
            &&& forall|i: int|
                0 <= i < arms.len() ==> encoding::arm_encoding(#[trigger] arms[i])
                    == encoding::arm_encoding(others[i])
        },
{
    encoding_laws::law_select_structure_is_content(arms, others);
    if arms.len() == others.len() {
        assert forall|i: int|
            0 <= i < arms.len() implies (encoding::arm_encoding(#[trigger] arms[i])
            == encoding::arm_encoding(others[i]) <==> encoding::canonical_arm(arms[i])
            == encoding::canonical_arm(others[i])) by {
            if encoding::arm_encoding(arms[i]) == encoding::arm_encoding(others[i]) {
                assert(encoding::arm_sized(others[i], false));
                encoding_laws::lemma_canonical_arm_sized(arms[i]);
                encoding_laws::lemma_canonical_arm_sized(others[i]);
                let none = Seq::<u8>::empty();
                encoding_laws::lemma_arm_delimits(
                    encoding::canonical_arm(arms[i]),
                    encoding::canonical_arm(others[i]),
                    none,
                    none,
                );
            }
        }
    }
}

/// Two depsets are encoded alike exactly when they have the same order, as many values of their own and as
/// many depsets below them, and each of these is encoded like its counterpart: what is nested is told from
/// what is flat.
pub proof fn law_depset_parts_are_content(d: DepsetModel, e: DepsetModel)
    requires
        encoding::depset_sized(d, false),
        encoding::depset_sized(e, false),
    ensures
        encoding::depset_encoding(d) == encoding::depset_encoding(e) <==> {
            &&& d.order == e.order
            &&& d.direct.len() == e.direct.len()
            &&& forall|i: int|
                0 <= i < d.direct.len() ==> encoding::encoding(#[trigger] d.direct[i])
                    == encoding::encoding(e.direct[i])
            &&& d.transitive.len() == e.transitive.len()
            &&& forall|i: int|
                0 <= i < d.transitive.len() ==> encoding::depset_encoding(#[trigger] d.transitive[i])
                    == encoding::depset_encoding(e.transitive[i])
        },
{
    lemma_values_content(d.direct, e.direct);
    lemma_depset_injective(d, e);
    let (s, t) = (
        encoding::canonical_depsets(d.transitive),
        encoding::canonical_depsets(e.transitive),
    );
    encoding::lemma_canonical_depsets(d.transitive);
    encoding::lemma_canonical_depsets(e.transitive);
    if s == t {
        assert forall|i: int| 0 <= i < d.transitive.len() implies encoding::depset_encoding(
            #[trigger] d.transitive[i],
        ) == encoding::depset_encoding(e.transitive[i]) by {
            assert(s[i] == t[i]);
        }
    }
    if d.transitive.len() == e.transitive.len() && (forall|i: int|
        0 <= i < d.transitive.len() ==> encoding::depset_encoding(#[trigger] d.transitive[i])
            == encoding::depset_encoding(e.transitive[i])) {
        assert forall|i: int| 0 <= i < s.len() implies #[trigger] s[i] == t[i] by {
            assert(encoding::depset_encoding(d.transitive[i]) == encoding::depset_encoding(
                e.transitive[i],
            ));
            assert(encoding::depset_sized(e.transitive[i], false));
            lemma_depset_injective(d.transitive[i], e.transitive[i]);
        }
        assert(s =~= t);
    }
}

proof fn lemma_depset_injective(d: DepsetModel, e: DepsetModel)
    requires
        encoding::depset_sized(d, false),
        encoding::depset_sized(e, false),
    ensures
        encoding::depset_encoding(d) == encoding::depset_encoding(e) <==> encoding::canonical_depset(
            d,
        ) == encoding::canonical_depset(e),
{
    if encoding::depset_encoding(d) == encoding::depset_encoding(e) {
        let none = Seq::<u8>::empty();
        encoding_laws::lemma_canonical_depset_sized(d);
        encoding_laws::lemma_canonical_depset_sized(e);
        encoding_laws::lemma_tagged_depset_delimits(
            encoding::canonical_depset(d),
            encoding::canonical_depset(e),
            none,
            none,
        );
    }
}

/// Two provider instances are encoded alike exactly when their providers have one identity, name and module,
/// and their fields agree, in the given order, in their names and in how their values are encoded.
pub proof fn law_instance_parts_are_content(p: InstanceModel, q: InstanceModel)
    requires
        encoding::instance_representable(p),
        encoding::instance_representable(q),
    ensures
        encoding::instance_encoding(p) == encoding::instance_encoding(q) <==> {
            &&& p.provider.name == q.provider.name
            &&& p.provider.bzl == q.provider.bzl
            &&& p.fields.len() == q.fields.len()
            &&& forall|i: int|
                0 <= i < p.fields.len() ==> (#[trigger] p.fields[i]).0 == q.fields[i].0
                    && encoding::encoding(p.fields[i].1) == encoding::encoding(q.fields[i].1)
        },
{
    encoding::lemma_canonical_fields(p.fields);
    encoding::lemma_canonical_fields(q.fields);
    lemma_fields_content(p.fields, q.fields);
    if encoding::instance_encoding(p) == encoding::instance_encoding(q) {
        let none = Seq::<u8>::empty();
        encoding_laws::law_instance_encoding_is_self_delimiting(p, q, none, none);
    }
}

/// An encoding says where it ends: where two byte strings that start with one are equal, the two values are
/// encoded alike and what follows is the same.
pub proof fn law_encodings_end_where_they_end(
    a: ValueModel,
    b: ValueModel,
    x: Seq<u8>,
    y: Seq<u8>,
)
    requires
        encoding::representable(a),
        encoding::representable(b),
        encoding::encoding(a) + x == encoding::encoding(b) + y,
    ensures
        encoding::encoding(a) == encoding::encoding(b),
        x == y,
{
    encoding_laws::law_encoding_is_self_delimiting(a, b, x, y);
}

} // verus!
