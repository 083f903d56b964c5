//! Providers, depsets and what analysis hands from rule to rule.

use vstd::prelude::*;
use crate::bytes;
use crate::model;
use crate::model::{
    ActionModel, DepModel, DepsetModel, IdModel, InstanceModel, ModuleFileModel, ProviderModel,
    RepoModel, ResultModel, ToolchainModel,
};
use crate::text::same_text;
use crate::values;
use crate::values::{find_field, BzlValue};

verus! {

/// A provider type: its identity and the names of its declared fields.
#[derive(PartialEq, Eq, Debug)]
pub struct ProviderDef {
    pub id: ProviderId,
    pub fields: Vec<String>,
}

impl View for ProviderDef {
    type V = ProviderModel;

    open spec fn view(&self) -> ProviderModel {
        ProviderModel { id: self.id@, fields: bytes::texts(self.fields@) }
    }
}

/// The order in which a depset is walked. There are four, and no other name stands for one.
#[derive(Clone, Copy, PartialEq, Eq, Hash, PartialOrd, Ord, Debug, Structural)]
pub enum DepsetOrder {
    /// Starlark `"default"`.
    Default,
    /// Starlark `"postorder"`.
    Postorder,
    /// Starlark `"topological"`.
    Topological,
    /// Starlark `"preorder"`.
    Preorder,
}

/// The code of an order. A code never changes once it is given.
pub open spec fn order_code(o: DepsetOrder) -> u8 {
    match o {
        DepsetOrder::Default => 0,
        DepsetOrder::Postorder => 1,
        DepsetOrder::Topological => 2,
        DepsetOrder::Preorder => 3,
    }
}

/// The order that has the code `c`.
pub open spec fn order_of_code(c: u8) -> Option<DepsetOrder> {
    match c {
        0 => Some(DepsetOrder::Default),
        1 => Some(DepsetOrder::Postorder),
        2 => Some(DepsetOrder::Topological),
        3 => Some(DepsetOrder::Preorder),
        _ => None,
    }
}

/// The Starlark name of an order.
pub open spec fn order_name(o: DepsetOrder) -> Seq<char> {
    match o {
        DepsetOrder::Default => "default"@,
        DepsetOrder::Postorder => "postorder"@,
        DepsetOrder::Topological => "topological"@,
        DepsetOrder::Preorder => "preorder"@,
    }
}

/// Orders and their codes determine each other.
pub proof fn law_order_codes_round_trip(o: DepsetOrder, c: u8)
    ensures
        order_of_code(order_code(o)) == Some(o),
        order_of_code(c) == Some(o) ==> order_code(o) == c,
        order_of_code(c) is None <==> c > 3,
{
}

/// The order that has the given Starlark name.
pub open spec fn order_named(name: Seq<char>) -> Option<DepsetOrder> {
    if name == "default"@ {
        Some(DepsetOrder::Default)
    } else if name == "postorder"@ {
        Some(DepsetOrder::Postorder)
    } else if name == "topological"@ {
        Some(DepsetOrder::Topological)
    } else if name == "preorder"@ {
        Some(DepsetOrder::Preorder)
    } else {
        None
    }
}

/// Orders and their names determine each other: an order is read back from its name, and a name that stands
/// for an order is that order's name.
pub proof fn law_order_names_round_trip(o: DepsetOrder, name: Seq<char>)
    ensures
        order_named(order_name(o)) == Some(o),
        order_named(name) == Some(o) ==> order_name(o) == name,
{
    reveal_strlit("default");
    reveal_strlit("postorder");
    reveal_strlit("topological");
    reveal_strlit("preorder");
    assert("default"@.len() == 7 && "postorder"@.len() == 9 && "topological"@.len() == 11
        && "preorder"@.len() == 8);
}

/// The code and the Starlark name of each order, and no other name.
pub proof fn law_order_codes_and_names(name: Seq<char>)
    ensures
        order_code(DepsetOrder::Default) == 0,
        order_code(DepsetOrder::Postorder) == 1,
        order_code(DepsetOrder::Topological) == 2,
        order_code(DepsetOrder::Preorder) == 3,
        order_name(DepsetOrder::Default) == "default"@,
        order_name(DepsetOrder::Postorder) == "postorder"@,
        order_name(DepsetOrder::Topological) == "topological"@,
        order_name(DepsetOrder::Preorder) == "preorder"@,
        order_named(name) is Some <==> {
            ||| name == "default"@
            ||| name == "postorder"@
            ||| name == "topological"@
            ||| name == "preorder"@
        },
{
}

impl DepsetOrder {
    /// The stable code of the order.
    pub fn code(self) -> (c: u8)
        ensures
            c == order_code(self),
    {
        match self {
            DepsetOrder::Default => 0,
            DepsetOrder::Postorder => 1,
            DepsetOrder::Topological => 2,
            DepsetOrder::Preorder => 3,
        }
    }

    /// The order with the given code; `None` for a code that no order has.
    pub fn from_code(c: u8) -> (r: Option<DepsetOrder>)
        ensures
            r == order_of_code(c),
    {
        match c {
            0 => Some(DepsetOrder::Default),
            1 => Some(DepsetOrder::Postorder),
            2 => Some(DepsetOrder::Topological),
            3 => Some(DepsetOrder::Preorder),
            _ => None,
        }
    }

    /// The order with the given Starlark name; `None` for a name that no order has.
    pub fn parse(name: &str) -> (r: Option<DepsetOrder>)
        ensures
            r == order_named(name@),
    {
        if same_text(name, "default") {
            Some(DepsetOrder::Default)
        } else if same_text(name, "postorder") {
            Some(DepsetOrder::Postorder)
        } else if same_text(name, "topological") {
            Some(DepsetOrder::Topological)
        } else if same_text(name, "preorder") {
            Some(DepsetOrder::Preorder)
        } else {
            None
        }
    }

    /// The Starlark name of the order.
    pub fn starlark_name(self) -> (name: &'static str)
        ensures
            name@ == order_name(self),
    {
        match self {
            DepsetOrder::Default => "default",
            DepsetOrder::Postorder => "postorder",
            DepsetOrder::Topological => "topological",
            DepsetOrder::Preorder => "preorder",
        }
    }
}

/// A depset: an ordered graph, which is never flattened. `elem` names the type of the elements; it is
/// derived from the content, and is not part of the encoding.
#[derive(PartialEq, Eq, Debug)]
pub struct Depset {
    pub order: DepsetOrder,
    pub elem: Option<String>,
    pub direct: Vec<BzlValue>,
    pub transitive: Vec<Depset>,
}

impl View for Depset {
    type V = DepsetModel;

    open spec fn view(&self) -> DepsetModel
        decreases self,
    {
        DepsetModel {
            order: self.order,
            elem: bytes::opt_text(self.elem),
            direct: values::values_view(self.direct@),
            transitive: depsets_view(self.transitive@),
        }
    }
}

/// The depsets of a list, one by one.
pub open spec fn depsets_view(list: Seq<Depset>) -> Seq<DepsetModel>
    decreases list,
{
    if list.len() == 0 {
        seq![]
    } else {
        depsets_view(list.drop_last()).push(list.last().view())
    }
}

/// The depsets that a list of depsets is.
pub open spec fn depsets_of(list: Seq<Depset>) -> Seq<DepsetModel> {
    list.map_values(|d: Depset| d@)
}

pub(crate) proof fn lemma_depsets_view(list: Seq<Depset>)
    ensures
        depsets_view(list) == depsets_of(list),
    decreases list.len(),
{
    if list.len() > 0 {
        lemma_depsets_view(list.drop_last());
        assert(depsets_view(list) == depsets_view(list.drop_last()).push(list.last()@));
    }
    assert(depsets_view(list) =~= depsets_of(list));
}

/// The view of a depset, in terms of what it holds.
pub(crate) proof fn lemma_depset_view(d: Depset)
    ensures
        d@.direct == values::values_of(d.direct@),
        d@.transitive == depsets_of(d.transitive@),
{
    values::lemma_values_view(d.direct@);
    lemma_depsets_view(d.transitive@);
}

/// A provider's identity: the exported name together with the defining `.bzl`. Two providers of one name
/// from different modules are different providers.
#[derive(PartialEq, Eq, Hash, PartialOrd, Ord, Debug)]
pub struct ProviderId {
    /// The exported name.
    pub name: String,
    /// The defining `.bzl`; `None` where the name alone is the identity.
    pub bzl: Option<String>,
}

impl View for ProviderId {
    type V = IdModel;

    open spec fn view(&self) -> IdModel {
        IdModel { name: self.name@, bzl: bytes::opt_text(self.bzl) }
    }
}

/// `String::from(&str)` gives a string that holds the same characters.
pub assume_specification<'a>[ <std::string::String as std::convert::From<&'a str>>::from ](s: &str) -> (r:
    std::string::String)
    ensures
        r@ == s@,
;

/// `<T as From<T>>::from` returns its argument unchanged.
pub assume_specification<U>[ <U as std::convert::From<U>>::from ](t: U) -> (r: U)
    ensures
        r == t,
;

impl ProviderId {
    /// An identity made of the name alone: what the given name converts to.
    pub fn from_name<N: Into<String>>(name: N) -> (id: ProviderId)
        ensures
            call_ensures(N::into, (name,), id.name),
            id.bzl is None,
    {
        ProviderId { name: name.into(), bzl: None }
    }

    /// The exported name, for display.
    pub fn name(&self) -> (name: &str)
        ensures
            name@ == self@.name,
    {
        self.name.as_str()
    }

    /// The defining `.bzl`.
    pub fn bzl(&self) -> (bzl: Option<&str>)
        ensures
            model::found(bzl) == self@.bzl,
    {
        match &self.bzl {
            None => None,
            Some(b) => Some(b.as_str()),
        }
    }
}

/// A provider instance: the named values that a rule publishes under a provider.
#[derive(PartialEq, Eq, Debug)]
pub struct ProviderInstance {
    pub provider: ProviderId,
    pub fields: Vec<(String, BzlValue)>,
}

impl View for ProviderInstance {
    type V = InstanceModel;

    open spec fn view(&self) -> InstanceModel {
        InstanceModel { provider: self.provider@, fields: values::fields_of(self.fields@) }
    }
}

/// The instances that a list of instances is.
pub open spec fn instances_of(list: Seq<ProviderInstance>) -> Seq<InstanceModel> {
    list.map_values(|p: ProviderInstance| p@)
}

impl ProviderInstance {
    /// The value of the first field of the given name.
    pub fn get(&self, field: &str) -> (r: Option<&BzlValue>)
        ensures
            model::found(r) == model::lookup(self@.fields, field@),
            match r {
                Some(v) => exists|i: int|
                    {
                        &&& 0 <= i < self.fields@.len()
                        &&& (#[trigger] self.fields@[i]).0@ == field@
                        &&& *v == self.fields@[i].1
                        &&& forall|j: int| 0 <= j < i ==> (#[trigger] self.fields@[j]).0@ != field@
                    },
                None => forall|i: int|
                    0 <= i < self.fields@.len() ==> (#[trigger] self.fields@[i]).0@ != field@,
            },
    {
        find_field(&self.fields, field)
    }
}

/// What one dependency publishes, under its label.
#[derive(PartialEq, Eq, Debug)]
pub struct DepProviders {
    pub label: String,
    pub providers: Vec<ProviderInstance>,
}

impl View for DepProviders {
    type V = DepModel;

    open spec fn view(&self) -> DepModel {
        DepModel { label: self.label@, providers: instances_of(self.providers@) }
    }
}

/// A resolved toolchain: its type, and the provider that it carries.
#[derive(PartialEq, Eq, Debug)]
pub struct ResolvedToolchain {
    pub toolchain_type: String,
    pub info: ProviderInstance,
}

impl View for ResolvedToolchain {
    type V = ToolchainModel;

    open spec fn view(&self) -> ToolchainModel {
        ToolchainModel { toolchain_type: self.toolchain_type@, info: self.info@ }
    }
}

/// An action that a rule declares.
#[derive(PartialEq, Eq, Debug)]
pub struct ActionTemplate {
    pub mnemonic: String,
    pub argv: Vec<String>,
    pub env: Vec<(String, String)>,
    pub inputs: Vec<String>,
    pub outputs: Vec<String>,
}

/// The settings that a list of names and values is.
pub open spec fn settings_of(env: Seq<(String, String)>) -> Seq<(Seq<char>, Seq<char>)> {
    env.map_values(|e: (String, String)| (e.0@, e.1@))
}

/// The actions that a list of actions is.
pub open spec fn actions_of(list: Seq<ActionTemplate>) -> Seq<ActionModel> {
    list.map_values(|a: ActionTemplate| a@)
}

impl View for ActionTemplate {
    type V = ActionModel;

    open spec fn view(&self) -> ActionModel {
        ActionModel {
            mnemonic: self.mnemonic@,
            argv: bytes::texts(self.argv@),
            env: settings_of(self.env@),
            inputs: bytes::texts(self.inputs@),
            outputs: bytes::texts(self.outputs@),
        }
    }
}

/// What running a rule's implementation gives: the providers that it publishes and the actions that it
/// declares.
#[derive(PartialEq, Eq, Debug)]
pub struct RuleResult {
    pub providers: Vec<ProviderInstance>,
    pub actions: Vec<ActionTemplate>,
}

impl View for RuleResult {
    type V = ResultModel;

    open spec fn view(&self) -> ResultModel {
        ResultModel {
            providers: instances_of(self.providers@),
            actions: actions_of(self.actions@),
        }
    }
}

impl Default for RuleResult {
    /// Neither a provider nor an action.
    fn default() -> (r: RuleResult)
        ensures
            r@.providers.len() == 0,
            r@.actions.len() == 0,
    {
        RuleResult { providers: Vec::new(), actions: Vec::new() }
    }
}

/// A local repository that a module file declares: its apparent name, its root below the workspace, and
/// the label of the BUILD file laid over it, where it does not bring its own.
#[derive(PartialEq, Eq, Debug)]
pub struct RepoDecl {
    pub name: String,
    pub path: String,
    pub build_file: Option<String>,
}

/// The repositories that a list of declarations is.
pub open spec fn repos_of(list: Seq<RepoDecl>) -> Seq<RepoModel> {
    list.map_values(|r: RepoDecl| r@)
}

impl View for RepoDecl {
    type V = RepoModel;

    open spec fn view(&self) -> RepoModel {
        RepoModel {
            name: self.name@,
            path: self.path@,
            build_file: bytes::opt_text(self.build_file),
        }
    }
}

/// An evaluated module file: what the workspace declares.
#[derive(PartialEq, Eq, Debug)]
pub struct ModuleFileValue {
    pub module_name: String,
    /// The labels of the toolchains that may be selected.
    pub registered_toolchains: Vec<String>,
    pub repos: Vec<RepoDecl>,
}

impl View for ModuleFileValue {
    type V = ModuleFileModel;

    open spec fn view(&self) -> ModuleFileModel {
        ModuleFileModel {
            module_name: self.module_name@,
            registered_toolchains: bytes::texts(self.registered_toolchains@),
            repos: repos_of(self.repos@),
        }
    }
}

impl Default for ModuleFileValue {
    /// No name, no toolchain, no repository.
    fn default() -> (m: ModuleFileValue)
        ensures
            m@.module_name.len() == 0,
            m@.registered_toolchains.len() == 0,
            m@.repos.len() == 0,
    {
        ModuleFileValue {
            module_name: String::new(),
            registered_toolchains: Vec::new(),
            repos: Vec::new(),
        }
    }
}

} // verus!
