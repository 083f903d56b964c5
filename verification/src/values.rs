//! The codec-neutral value model: what a `.bzl` module exports and what a BUILD file instantiates.

use vstd::prelude::*;
use crate::bytes;
use crate::model;
use crate::model::{
    ArmModel, AttrDeclModel, FunctionModel, ModuleModel, OriginModel, RuleModel, TargetModel,
    ValueModel,
};
use crate::provider::{Depset, ProviderDef};
use crate::text::same_text;

verus! {

/// The declared type of a rule attribute. What analysis needs from it is whether the attribute names
/// dependency targets.
#[derive(Clone, Copy, PartialEq, Eq, Debug, Structural)]
pub enum AttrType {
    Int,
    String,
    Bool,
    Label,
    LabelList,
    StringList,
    /// Labels that name source files, not targets.
    FileList,
    /// A map from strings to strings.
    StringDict,
    /// A map from strings to lists of strings.
    StringListDict,
    /// A map from labels to strings. Its keys are not resolved as dependencies.
    LabelKeyedStringDict,
}

/// The code of an attribute type. A code never changes once it is given.
pub open spec fn attr_code(t: AttrType) -> u8 {
    match t {
        AttrType::Int => 0,
        AttrType::String => 1,
        AttrType::Bool => 2,
        AttrType::Label => 3,
        AttrType::LabelList => 4,
        AttrType::StringList => 5,
        AttrType::FileList => 6,
        AttrType::StringDict => 7,
        AttrType::StringListDict => 8,
        AttrType::LabelKeyedStringDict => 9,
    }
}

/// The attribute type that has the code `c`.
pub open spec fn attr_of_code(c: u8) -> Option<AttrType> {
    match c {
        0 => Some(AttrType::Int),
        1 => Some(AttrType::String),
        2 => Some(AttrType::Bool),
        3 => Some(AttrType::Label),
        4 => Some(AttrType::LabelList),
        5 => Some(AttrType::StringList),
        6 => Some(AttrType::FileList),
        7 => Some(AttrType::StringDict),
        8 => Some(AttrType::StringListDict),
        9 => Some(AttrType::LabelKeyedStringDict),
        _ => None,
    }
}

/// Attribute types and their codes determine each other: a type is read back from its code, and a code
/// that names a type is that type's code.
pub proof fn law_attr_codes_round_trip(t: AttrType, c: u8)
    ensures
        attr_of_code(attr_code(t)) == Some(t),
        attr_of_code(c) == Some(t) ==> attr_code(t) == c,
        attr_of_code(c) is None <==> c > 9,
{
}

/// The code of each attribute type.
pub proof fn law_attr_codes()
    ensures
        attr_code(AttrType::Int) == 0,
        attr_code(AttrType::String) == 1,
        attr_code(AttrType::Bool) == 2,
        attr_code(AttrType::Label) == 3,
        attr_code(AttrType::LabelList) == 4,
        attr_code(AttrType::StringList) == 5,
        attr_code(AttrType::FileList) == 6,
        attr_code(AttrType::StringDict) == 7,
        attr_code(AttrType::StringListDict) == 8,
        attr_code(AttrType::LabelKeyedStringDict) == 9,
{
}

impl AttrType {
    /// Whether the attribute is a dependency edge: a label, or a list of labels, of targets. A file list
    /// is none: its entries are source files.
    pub fn is_label(self) -> (r: bool)
        ensures
            r == (self == AttrType::Label || self == AttrType::LabelList),
    {
        matches!(self, AttrType::Label | AttrType::LabelList)
    }

    /// The stable code of the type.
    pub fn code(self) -> (c: u8)
        ensures
            c == attr_code(self),
    {
        match self {
            AttrType::Int => 0,
            AttrType::String => 1,
            AttrType::Bool => 2,
            AttrType::Label => 3,
            AttrType::LabelList => 4,
            AttrType::StringList => 5,
            AttrType::FileList => 6,
            AttrType::StringDict => 7,
            AttrType::StringListDict => 8,
            AttrType::LabelKeyedStringDict => 9,
        }
    }

    /// The type with the given code; `None` for a code that no type has.
    pub fn from_code(c: u8) -> (r: Option<AttrType>)
        ensures
            r == attr_of_code(c),
    {
        match c {
            0 => Some(AttrType::Int),
            1 => Some(AttrType::String),
            2 => Some(AttrType::Bool),
            3 => Some(AttrType::Label),
            4 => Some(AttrType::LabelList),
            5 => Some(AttrType::StringList),
            6 => Some(AttrType::FileList),
            7 => Some(AttrType::StringDict),
            8 => Some(AttrType::StringListDict),
            9 => Some(AttrType::LabelKeyedStringDict),
            _ => None,
        }
    }
}

/// A rule definition's identity and attribute schema: where the rule is defined (`bzl`), under which
/// exported symbol (`name`), its attributes sorted by name, and the toolchain types that it requires. The
/// implementation function is not carried.
#[derive(PartialEq, Eq, Debug)]
pub struct RuleDef {
    pub bzl: String,
    pub name: String,
    pub attrs: Vec<(String, AttrType)>,
    /// Empty when the rule requires no toolchain.
    pub toolchains: Vec<String>,
}

/// The attribute schema that a list of named types is.
pub open spec fn schema_of(attrs: Seq<(String, AttrType)>) -> Seq<(Seq<char>, AttrType)> {
    attrs.map_values(|a: (String, AttrType)| (a.0@, a.1))
}

impl View for RuleDef {
    type V = RuleModel;

    open spec fn view(&self) -> RuleModel {
        RuleModel {
            bzl: self.bzl@,
            name: self.name@,
            attrs: schema_of(self.attrs@),
            toolchains: bytes::texts(self.toolchains@),
        }
    }
}

/// A value that a `.bzl` module can export. The set of variants is closed: a new variant has to be
/// handled wherever values are matched.
#[derive(PartialEq, Eq, Debug)]
pub enum BzlValue {
    /// Starlark's `None`.
    Nil,
    Bool(bool),
    Int(i64),
    Str(String),
    List(Vec<BzlValue>),
    /// A rule, by its identity and attribute schema.
    Rule(RuleDef),
    /// A provider type, by its identity and declared fields.
    Provider(ProviderDef),
    /// A depset: an ordered graph of values.
    Depset(Depset),
    /// A file, by its path below the execution root.
    File(String),
    /// A bag of named fields. The order in which they were given is not part of the value's encoding.
    Struct(Vec<(String, BzlValue)>),
    /// A function, by the module and the name of its definition.
    FunctionRef(FunctionRef),
    /// A label, by its canonical text.
    Label(String),
    /// A dict. The order of insertion is observable, and part of the encoding.
    Dict(Vec<(BzlValue, BzlValue)>),
    /// The declaration of an attribute.
    AttrDecl(AttrDecl),
    /// An immutable sequence, distinct from a list of the same elements.
    Tuple(Vec<BzlValue>),
    /// A selection that analysis resolves against a configuration: arms whose values are concatenated.
    Select(Vec<SelectArm>),
}

impl View for BzlValue {
    type V = ValueModel;

    open spec fn view(&self) -> ValueModel
        decreases self,
    {
        match self {
            BzlValue::Nil => ValueModel::Nil,
            BzlValue::Bool(x) => ValueModel::Bool(*x),
            BzlValue::Int(n) => ValueModel::Int(*n),
            BzlValue::Str(s) => ValueModel::Str(s@),
            BzlValue::List(items) => ValueModel::List(values_view(items@)),
            BzlValue::Rule(rd) => ValueModel::Rule(rd@),
            BzlValue::Provider(pd) => ValueModel::Provider(pd@),
            BzlValue::Depset(d) => ValueModel::Depset(d.view()),
            BzlValue::File(p) => ValueModel::File(p@),
            BzlValue::Struct(fields) => ValueModel::Struct(fields_view(fields@)),
            BzlValue::FunctionRef(f) => ValueModel::FunctionRef(f@),
            BzlValue::Label(s) => ValueModel::Label(s@),
            BzlValue::Dict(pairs) => ValueModel::Dict(pairs_view(pairs@)),
            BzlValue::AttrDecl(a) => ValueModel::AttrDecl(a@),
            BzlValue::Tuple(items) => ValueModel::Tuple(values_view(items@)),
            BzlValue::Select(arms) => ValueModel::Select(arms_view(arms@)),
        }
    }
}

/// The values of a list, one by one.
pub open spec fn values_view(items: Seq<BzlValue>) -> Seq<ValueModel>
    decreases items,
{
    if items.len() == 0 {
        seq![]
    } else {
        values_view(items.drop_last()).push(items.last().view())
    }
}

/// The fields of a list, one by one.
pub open spec fn fields_view(fields: Seq<(String, BzlValue)>) -> Seq<(Seq<char>, ValueModel)>
    decreases fields,
{
    if fields.len() == 0 {
        seq![]
    } else {
        fields_view(fields.drop_last()).push((fields.last().0@, fields.last().1.view()))
    }
}

/// The pairs of a list, one by one.
pub open spec fn pairs_view(pairs: Seq<(BzlValue, BzlValue)>) -> Seq<(ValueModel, ValueModel)>
    decreases pairs,
{
    if pairs.len() == 0 {
        seq![]
    } else {
        pairs_view(pairs.drop_last()).push((pairs.last().0.view(), pairs.last().1.view()))
    }
}

/// The arms of a list, one by one.
pub open spec fn arms_view(arms: Seq<SelectArm>) -> Seq<ArmModel>
    decreases arms,
{
    if arms.len() == 0 {
        seq![]
    } else {
        arms_view(arms.drop_last()).push(arms.last().view())
    }
}

/// The values that a list of values is.
pub open spec fn values_of(items: Seq<BzlValue>) -> Seq<ValueModel> {
    items.map_values(|v: BzlValue| v@)
}

/// The fields that a list of named values is.
pub open spec fn fields_of(fields: Seq<(String, BzlValue)>) -> Seq<(Seq<char>, ValueModel)> {
    fields.map_values(|f: (String, BzlValue)| (f.0@, f.1@))
}

/// The pairs that a list of keys and values is.
pub open spec fn pairs_of(pairs: Seq<(BzlValue, BzlValue)>) -> Seq<(ValueModel, ValueModel)> {
    pairs.map_values(|p: (BzlValue, BzlValue)| (p.0@, p.1@))
}

/// The arms that a list of arms is.
pub open spec fn arms_of(arms: Seq<SelectArm>) -> Seq<ArmModel> {
    arms.map_values(|a: SelectArm| a@)
}

pub(crate) proof fn lemma_values_view(items: Seq<BzlValue>)
    ensures
        values_view(items) == values_of(items),
    decreases items.len(),
{
    if items.len() > 0 {
        lemma_values_view(items.drop_last());
        assert(values_view(items) == values_view(items.drop_last()).push(items.last()@));
    }
    assert(values_view(items) =~= values_of(items));
}

pub(crate) proof fn lemma_fields_view(fields: Seq<(String, BzlValue)>)
    ensures
        fields_view(fields) == fields_of(fields),
    decreases fields.len(),
{
    if fields.len() > 0 {
        lemma_fields_view(fields.drop_last());
        assert(fields_view(fields) == fields_view(fields.drop_last()).push(
            (fields.last().0@, fields.last().1@),
        ));
    }
    assert(fields_view(fields) =~= fields_of(fields));
}

pub(crate) proof fn lemma_pairs_view(pairs: Seq<(BzlValue, BzlValue)>)
    ensures
        pairs_view(pairs) == pairs_of(pairs),
    decreases pairs.len(),
{
    if pairs.len() > 0 {
        lemma_pairs_view(pairs.drop_last());
        assert(pairs_view(pairs) == pairs_view(pairs.drop_last()).push(
            (pairs.last().0@, pairs.last().1@),
        ));
    }
    assert(pairs_view(pairs) =~= pairs_of(pairs));
}

pub(crate) proof fn lemma_arms_view(arms: Seq<SelectArm>)
    ensures
        arms_view(arms) == arms_of(arms),
    decreases arms.len(),
{
    if arms.len() > 0 {
        lemma_arms_view(arms.drop_last());
        assert(arms_view(arms) == arms_view(arms.drop_last()).push(arms.last()@));
    }
    assert(arms_view(arms) =~= arms_of(arms));
}

/// The view of a value that holds other values, in terms of theirs.
pub(crate) proof fn lemma_value_view(v: BzlValue)
    ensures
        v matches BzlValue::List(items) ==> v@ == ValueModel::List(values_of(items@)),
        v matches BzlValue::Tuple(items) ==> v@ == ValueModel::Tuple(values_of(items@)),
        v matches BzlValue::Struct(fields) ==> v@ == ValueModel::Struct(fields_of(fields@)),
        v matches BzlValue::Dict(pairs) ==> v@ == ValueModel::Dict(pairs_of(pairs@)),
        v matches BzlValue::Select(arms) ==> v@ == ValueModel::Select(arms_of(arms@)),
{
    match v {
        BzlValue::List(items) => lemma_values_view(items@),
        BzlValue::Tuple(items) => lemma_values_view(items@),
        BzlValue::Struct(fields) => lemma_fields_view(fields@),
        BzlValue::Dict(pairs) => lemma_pairs_view(pairs@),
        BzlValue::Select(arms) => lemma_arms_view(arms@),
        _ => {},
    }
}

/// One arm of a selection. The arms are resolved one by one and their values concatenated.
#[derive(PartialEq, Eq, Debug)]
pub enum SelectArm {
    /// A plain operand of a concatenation, which resolves to itself.
    Concrete(BzlValue),
    /// A `select({condition: value, ...})`. The order of the conditions plays no part in matching, nor in
    /// the encoding. `no_match_error` is empty where the default message is meant.
    Branch { conditions: Vec<(String, BzlValue)>, no_match_error: String },
}

impl View for SelectArm {
    type V = ArmModel;

    open spec fn view(&self) -> ArmModel
        decreases self,
    {
        match self {
            SelectArm::Concrete(v) => ArmModel::Concrete(v.view()),
            SelectArm::Branch { conditions, no_match_error } => ArmModel::Branch {
                conditions: fields_view(conditions@),
                no_match_error: no_match_error@,
            },
        }
    }
}

/// The view of a branch, in terms of its conditions.
pub(crate) proof fn lemma_arm_view(arm: SelectArm)
    ensures
        arm matches SelectArm::Branch { conditions, no_match_error } ==> arm@ == (
        ArmModel::Branch {
            conditions: fields_of(conditions@),
            no_match_error: no_match_error@,
        }),
{
    if let SelectArm::Branch { conditions, no_match_error } = arm {
        lemma_fields_view(conditions@);
    }
}

/// The declaration of an attribute.
#[derive(PartialEq, Eq, Debug)]
pub struct AttrDecl {
    /// The code of the attribute's [`AttrType`].
    pub code: u8,
    /// `None`: not a files attribute. `Some` of an empty list: any file. Else files with one of these
    /// extensions.
    pub allow_files: Option<Vec<String>>,
    /// The names of the providers that a dependency must publish.
    pub providers: Vec<String>,
    pub mandatory: bool,
    /// The default of a string attribute.
    pub default: Option<String>,
}

impl View for AttrDecl {
    type V = AttrDeclModel;

    open spec fn view(&self) -> AttrDeclModel {
        AttrDeclModel {
            code: self.code,
            allow_files: bytes::opt_texts(self.allow_files),
            providers: bytes::texts(self.providers@),
            mandatory: self.mandatory,
            default: bytes::opt_text(self.default),
        }
    }
}

/// The identity of a function that a `.bzl` module defines: the module, the name in it, and a digest of
/// the module's content. The body is never carried; a change of it shows in the digest.
#[derive(PartialEq, Eq, Hash, PartialOrd, Ord, Debug)]
pub struct FunctionRef {
    /// The path of the defining module.
    pub module: String,
    /// The name of the function in `module`.
    pub name: String,
    /// The digest of the defining module's content.
    pub defining_digest: [u8; 32],
}

impl View for FunctionRef {
    type V = FunctionModel;

    open spec fn view(&self) -> FunctionModel {
        FunctionModel {
            module: self.module@,
            name: self.name@,
            defining_digest: self.defining_digest@,
        }
    }
}

/// The exported bindings of an evaluated `.bzl`, sorted by name.
#[derive(PartialEq, Eq, Debug)]
pub struct BzlModule {
    pub bindings: Vec<(String, BzlValue)>,
}

impl View for BzlModule {
    type V = ModuleModel;

    open spec fn view(&self) -> ModuleModel {
        ModuleModel { bindings: fields_of(self.bindings@) }
    }
}

impl Default for BzlModule {
    /// A module without bindings.
    fn default() -> (m: BzlModule)
        ensures
            m@.bindings == Seq::<(Seq<char>, ValueModel)>::empty(),
    {
        let m = BzlModule { bindings: Vec::new() };
        assert(m@.bindings =~= Seq::<(Seq<char>, ValueModel)>::empty());
        m
    }
}

/// The value is that of the first field of the name, or there is no field of the name.
pub open spec fn is_first_of_name(
    fields: Seq<(String, BzlValue)>,
    name: Seq<char>,
    r: Option<&BzlValue>,
) -> bool {
    match r {
        Some(v) => exists|i: int|
            {
                &&& 0 <= i < fields.len()
                &&& (#[trigger] fields[i]).0@ == name
                &&& *v == fields[i].1
                &&& forall|j: int| 0 <= j < i ==> (#[trigger] fields[j]).0@ != name
            },
        None => forall|i: int| 0 <= i < fields.len() ==> (#[trigger] fields[i]).0@ != name,
    }
}

/// The value of the first field of the given name.
pub(crate) fn find_field<'a>(fields: &'a Vec<(String, BzlValue)>, name: &str) -> (r: Option<
    &'a BzlValue,
>)
    ensures
        model::found(r) == model::lookup(fields_of(fields@), name@),
        is_first_of_name(fields@, name@, r),
{
    let ghost all = fields_of(fields@);
    let n: usize = fields.len();
    assert(all.skip(0) =~= all);
    for i in 0..n
        invariant
            n == fields@.len(),
            all == fields_of(fields@),
            model::lookup(all, name@) == model::lookup(all.skip(i as int), name@),
            forall|j: int| 0 <= j < i ==> (#[trigger] fields@[j]).0@ != name@,
    {
        if same_text(fields[i].0.as_str(), name) {
            return Some(&fields[i].1);
        }
        assert(all.skip(i as int).drop_first() =~= all.skip(i + 1));
    }
    None
}

impl BzlModule {
    /// The value bound to `name`: that of its first binding.
    pub fn get(&self, name: &str) -> (r: Option<&BzlValue>)
        ensures
            model::found(r) == model::lookup(self@.bindings, name@),
            match r {
                Some(v) => exists|i: int|
                    {
                        &&& 0 <= i < self.bindings@.len()
                        &&& (#[trigger] self.bindings@[i]).0@ == name@
                        &&& *v == self.bindings@[i].1
                        &&& forall|j: int| 0 <= j < i ==> (#[trigger] self.bindings@[j]).0@ != name@
                    },
                None => forall|i: int|
                    0 <= i < self.bindings@.len() ==> (#[trigger] self.bindings@[i]).0@ != name@,
            },
    {
        find_field(&self.bindings, name)
    }
}

/// Where a target's rule is defined: the link that analysis follows to the rule's implementation.
#[derive(PartialEq, Eq, Debug)]
pub struct RuleOrigin {
    pub bzl: String,
    pub name: String,
}

impl View for RuleOrigin {
    type V = OriginModel;

    open spec fn view(&self) -> OriginModel {
        OriginModel { bzl: self.bzl@, name: self.name@ }
    }
}

/// A target that a BUILD file instantiates: its rule `kind`, its `name`, its attribute values sorted by
/// name, and where its rule is defined.
#[derive(PartialEq, Eq, Debug)]
pub struct TargetDecl {
    pub kind: String,
    pub name: String,
    pub attrs: Vec<(String, BzlValue)>,
    /// `None` where no rule stands behind the target.
    pub origin: Option<RuleOrigin>,
}

impl View for TargetDecl {
    type V = TargetModel;

    open spec fn view(&self) -> TargetModel {
        TargetModel {
            kind: self.kind@,
            name: self.name@,
            attrs: fields_of(self.attrs@),
            origin: match self.origin {
                None => None,
                Some(o) => Some(o@),
            },
        }
    }
}

} // verus!
