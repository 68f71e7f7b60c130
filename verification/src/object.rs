//! The script-object arena: generic property bags with prototype chains,
//! composed with stage-bound and shared-object roles.
//!
//! The generic dynamic object is an external delegate of the runtime; this
//! model keeps the part of its interface the runtime consumes: own-property
//! get/set/delete/define with attribute flags, prototype access, and key
//! enumeration.

use vstd::prelude::*;
use crate::table::{PropertyTable, table_find};
use crate::value::{Value, ValueModel};
use crate::stage_object::{StageObjectData, StageObjectModel};
use crate::shared_object::{SharedObjectData, SharedObjectModel};

verus! {

/// How deep a prototype chain is followed before resolution gives up, as the
/// VM's interpreter does on runaway chains.
pub const PROTO_CHAIN_LIMIT: u64 = 256;

/// Property attribute flags.
#[derive(Clone, Copy, PartialEq, Eq, Structural, Debug)]
pub struct Attributes {
    pub dont_enum: bool,
    pub dont_delete: bool,
    pub read_only: bool,
}

impl Attributes {
    /// No flags set.
    pub fn empty() -> (r: Attributes)
        ensures
            r == (Attributes { dont_enum: false, dont_delete: false, read_only: false }),
    {
        Attributes { dont_enum: false, dont_delete: false, read_only: false }
    }
}

/// One own property: a value and its attribute flags.
pub struct Property {
    pub value: Value,
    pub attrs: Attributes,
}

/// The mathematical model of a property.
pub struct PropertyModel {
    pub value: ValueModel,
    pub attrs: Attributes,
}

impl View for Property {
    type V = PropertyModel;

    open spec fn view(&self) -> PropertyModel {
        PropertyModel { value: self.value@, attrs: self.attrs }
    }
}

/// The type string of an object.
#[derive(Clone, Copy, PartialEq, Eq, Structural, Debug)]
pub enum TypeOf {
    Object,
    MovieClip,
    Function,
}

/// The native methods the runtime dispatches to by function-object tag.
#[derive(Clone, Copy, PartialEq, Eq, Structural, Debug)]
pub enum NativeFn {
    DeleteAll,
    GetDiskUsage,
    GetLocal,
    GetRemote,
    GetMaxSize,
    AddListener,
    RemoveListener,
    Clear,
    Close,
    Connect,
    Flush,
    GetSize,
    Send,
    SetFps,
    OnStatus,
    OnSync,
    Constructor,
}

/// The generic dynamic object: an ordered property bag with a prototype
/// pointer, a type string, and an optional native-function tag.
pub struct ScriptObject {
    pub props: PropertyTable<Property>,
    pub proto: Option<usize>,
    pub type_of: TypeOf,
    pub native: Option<NativeFn>,
}

/// The mathematical model of a generic dynamic object.
pub struct ScriptObjectModel {
    pub props: Seq<(Seq<char>, PropertyModel)>,
    pub proto: Option<int>,
    pub type_of: TypeOf,
    pub native: Option<NativeFn>,
}

impl View for ScriptObject {
    type V = ScriptObjectModel;

    open spec fn view(&self) -> ScriptObjectModel {
        ScriptObjectModel {
            props: self.props@,
            proto: match self.proto {
                Some(p) => Some(p as int),
                None => None,
            },
            type_of: self.type_of,
            native: self.native,
        }
    }
}

/// The own property of a name, under the given case rule.
pub open spec fn spec_own(
    props: Seq<(Seq<char>, PropertyModel)>,
    name: Seq<char>,
    case_sensitive: bool,
) -> Option<PropertyModel> {
    match table_find(props, name, case_sensitive) {
        Some(i) => Some(props[i].1),
        None => None,
    }
}

/// An `Option<Value>` seen at the model level.
pub open spec fn ov(o: Option<Value>) -> Option<ValueModel> {
    match o {
        Some(v) => Some(v@),
        None => None,
    }
}

/// A list of strings seen at the model level.
pub open spec fn spec_strings(s: Seq<String>) -> Seq<Seq<char>> {
    s.map_values(|x: String| x@)
}

/// The enumerable keys of a property list, in slot order.
pub open spec fn spec_enum_keys(props: Seq<(Seq<char>, PropertyModel)>) -> Seq<Seq<char>>
    decreases props.len(),
{
    if props.len() == 0 {
        Seq::empty()
    } else {
        let rest = spec_enum_keys(props.drop_first());
        if props[0].1.attrs.dont_enum {
            rest
        } else {
            seq![props[0].0] + rest
        }
    }
}

impl ScriptObject {
    /// All slot names are distinct.
    pub open spec fn wf(&self) -> bool {
        self.props.wf()
    }

    /// A fresh plain object with the given prototype.
    pub fn object(proto: Option<usize>) -> (r: ScriptObject)
        ensures
            r.wf(),
            r@.props == Seq::<(Seq<char>, PropertyModel)>::empty(),
            r@.proto == (match proto {
                Some(p) => Some(p as int),
                None => None::<int>,
            }),
            r@.type_of == TypeOf::Object,
            r@.native is None,
    {
        ScriptObject { props: PropertyTable::new(), proto, type_of: TypeOf::Object, native: None }
    }

    /// Whether a name is an own property.
    pub fn has_own_property(&self, name: &str, case_sensitive: bool) -> (r: bool)
        ensures
            r == (spec_own(self@.props, name@, case_sensitive) is Some),
    {
        match self.props.find_slot(name, case_sensitive) {
            Some(_) => true,
            None => false,
        }
    }

    /// Read an own property.
    pub fn get_local(&self, name: &str, case_sensitive: bool) -> (r: Option<Value>)
        ensures
            ov(r) == match spec_own(self@.props, name@, case_sensitive) {
                Some(p) => Some(p.value),
                None => None::<ValueModel>,
            },
    {
        match self.props.get(name, case_sensitive) {
            Some(p) => Some(p.value.clone()),
            None => None,
        }
    }

    /// Write a property the way script assignment does: an existing
    /// read-only property swallows the write; an existing writable one keeps
    /// its slot and flags; a new name is appended with empty flags.
    pub fn internal_set(&mut self, name: &str, value: Value, case_sensitive: bool)
        requires
            old(self).wf(),
        ensures
            final(self).wf(),
            final(self)@.proto == old(self)@.proto,
            final(self)@.type_of == old(self)@.type_of,
            final(self)@.native == old(self)@.native,
            final(self)@.props == spec_internal_set(old(self)@.props, name@, value@, case_sensitive),
    {
        match self.props.find_slot(name, case_sensitive) {
            Some(i) => {
                let read_only = self.props.value_at(i).attrs.read_only;
                if !read_only {
                    let attrs = self.props.value_at(i).attrs;
                    self.props.set_index(i, Property { value, attrs });
                }
            },
            None => {
                self.props.insert(
                    String::from_str(name),
                    Property { value, attrs: Attributes::empty() },
                    case_sensitive,
                );
            },
        }
    }

    /// Define a property outright, replacing value and flags and ignoring
    /// the read-only flag.
    pub fn define_value(&mut self, name: &str, value: Value, attrs: Attributes)
        requires
            old(self).wf(),
        ensures
            final(self).wf(),
            final(self)@.proto == old(self)@.proto,
            final(self)@.type_of == old(self)@.type_of,
            final(self)@.native == old(self)@.native,
            final(self)@.props == spec_define(old(self)@.props, name@, value@, attrs),
    {
        self.props.insert(String::from_str(name), Property { value, attrs }, true);
    }

    /// Delete an own property; a set dont-delete flag protects it.
    pub fn delete(&mut self, name: &str, case_sensitive: bool) -> (r: bool)
        requires
            old(self).wf(),
        ensures
            final(self).wf(),
            final(self)@.proto == old(self)@.proto,
            final(self)@.type_of == old(self)@.type_of,
            final(self)@.native == old(self)@.native,
            match table_find(old(self)@.props, name@, case_sensitive) {
                Some(i) => if old(self)@.props[i].1.attrs.dont_delete {
                    !r && final(self)@.props == old(self)@.props
                } else {
                    r && final(self)@.props == old(self)@.props.remove(i)
                },
                None => !r && final(self)@.props == old(self)@.props,
            },
    {
        match self.props.find_slot(name, case_sensitive) {
            Some(i) => {
                if self.props.value_at(i).attrs.dont_delete {
                    false
                } else {
                    self.props.remove(name, case_sensitive)
                }
            },
            None => false,
        }
    }

    /// The enumerable own keys, in slot order.
    pub fn get_keys(&self) -> (r: Vec<String>)
        ensures
            spec_strings(r@) == spec_enum_keys(self@.props),
    {
        let ghost props = self@.props;
        let n = self.props.len();
        let mut r: Vec<String> = Vec::new();
        let mut i: usize = 0;
        proof {
            assert(props.skip(0) =~= props);
            assert(r@.map_values(|s: String| s@) =~= Seq::<Seq<char>>::empty());
        }
        while i < n
            invariant
                props == self@.props,
                n == props.len(),
                i <= n,
                r@.map_values(|s: String| s@) + spec_enum_keys(props.skip(i as int))
                    == spec_enum_keys(props),
            decreases n - i,
        {
            let ghost pre = r@;
            proof {
                assert(props.skip(i as int)[0] == props[i as int]);
                assert(props.skip(i as int).drop_first() =~= props.skip(i as int + 1));
            }
            if !self.props.value_at(i).attrs.dont_enum {
                let key = self.props.key_at(i).clone();
                r.push(key);
                proof {
                    assert(r@.map_values(|s: String| s@) =~= pre.map_values(|s: String| s@)
                        + seq![props[i as int].0]);
                }
            }
            i = i + 1;
        }
        proof {
            assert(spec_enum_keys(props.skip(n as int)) =~= Seq::<Seq<char>>::empty());
            assert(r@.map_values(|s: String| s@) + Seq::<Seq<char>>::empty() =~= r@.map_values(
                |s: String| s@,
            ));
        }
        r
    }
}

/// What script assignment leaves a property list holding.
pub open spec fn spec_internal_set(
    props: Seq<(Seq<char>, PropertyModel)>,
    name: Seq<char>,
    value: ValueModel,
    case_sensitive: bool,
) -> Seq<(Seq<char>, PropertyModel)> {
    match table_find(props, name, case_sensitive) {
        Some(i) => if props[i].1.attrs.read_only {
            props
        } else {
            props.update(i, (props[i].0, PropertyModel { value, attrs: props[i].1.attrs }))
        },
        None => props.push(
            (
                name,
                PropertyModel {
                    value,
                    attrs: Attributes { dont_enum: false, dont_delete: false, read_only: false },
                },
            ),
        ),
    }
}

/// What a forced define leaves a property list holding; matching is
/// case-sensitive, as the delegate's define path is.
pub open spec fn spec_define(
    props: Seq<(Seq<char>, PropertyModel)>,
    name: Seq<char>,
    value: ValueModel,
    attrs: Attributes,
) -> Seq<(Seq<char>, PropertyModel)> {
    match table_find(props, name, true) {
        Some(i) => props.update(i, (props[i].0, PropertyModel { value, attrs })),
        None => props.push((name, PropertyModel { value, attrs })),
    }
}

/// The role an object plays beside its generic base.
pub enum Role {
    Plain,
    Stage(StageObjectData),
    Shared(SharedObjectData),
}

/// The model of a role.
pub enum RoleModel {
    Plain,
    Stage(StageObjectModel),
    Shared(SharedObjectModel),
}

impl View for Role {
    type V = RoleModel;

    open spec fn view(&self) -> RoleModel {
        match self {
            Role::Plain => RoleModel::Plain,
            Role::Stage(d) => RoleModel::Stage(d@),
            Role::Shared(d) => RoleModel::Shared(d@),
        }
    }
}

/// One object of the arena: the generic base plus its role.
pub struct Obj {
    pub base: ScriptObject,
    pub role: Role,
}

/// The model of one object.
pub struct ObjModel {
    pub base: ScriptObjectModel,
    pub role: RoleModel,
}

impl View for Obj {
    type V = ObjModel;

    open spec fn view(&self) -> ObjModel {
        ObjModel { base: self.base@, role: self.role@ }
    }
}

/// The object arena; indices are stable handles.
pub struct ObjStore {
    pub objs: Vec<Obj>,
}

impl View for ObjStore {
    type V = Seq<ObjModel>;

    open spec fn view(&self) -> Seq<ObjModel> {
        self.objs@.map_values(|o: Obj| o@)
    }
}

/// Every object id held anywhere in the arena stays inside it, and every
/// property list is well formed.
pub open spec fn store_wf(objs: Seq<ObjModel>) -> bool {
    forall|i: int|
        0 <= i < objs.len() ==> {
            let m = #[trigger] objs[i];
            &&& (m.base.proto matches Some(p) ==> 0 <= p < objs.len())
            &&& (forall|j: int, k: int|
                0 <= j < k < m.base.props.len() ==> m.base.props[j].0 != m.base.props[k].0)
            &&& (forall|j: int|
                0 <= j < m.base.props.len() ==> ((#[trigger] m.base.props[j]).1.value matches
                ValueModel::Object(o) ==> 0 <= o < objs.len()))
        }
}

/// What the prototype chain yields for a name: the first own property found
/// walking the chain, within the chain-depth limit.
pub open spec fn spec_search_prototype(
    objs: Seq<ObjModel>,
    proto: Option<int>,
    name: Seq<char>,
    case_sensitive: bool,
    fuel: nat,
) -> Option<ValueModel>
    decreases fuel,
{
    if fuel == 0 {
        None
    } else {
        match proto {
            None => None,
            Some(id) => if 0 <= id < objs.len() {
                match spec_own(objs[id].base.props, name, case_sensitive) {
                    Some(p) => Some(p.value),
                    None => spec_search_prototype(
                        objs,
                        objs[id].base.proto,
                        name,
                        case_sensitive,
                        (fuel - 1) as nat,
                    ),
                }
            } else {
                None
            },
        }
    }
}

impl ObjStore {
    /// An empty arena.
    pub fn new() -> (r: ObjStore)
        ensures
            r@ == Seq::<ObjModel>::empty(),
            store_wf(r@),
    {
        let r = ObjStore { objs: Vec::new() };
        proof {
            assert(r@ =~= Seq::<ObjModel>::empty());
        }
        r
    }

    /// The number of objects.
    pub fn len(&self) -> (r: usize)
        ensures
            r == self@.len(),
    {
        self.objs.len()
    }

    /// Add an object; its handle is the previous length.
    pub fn add_obj(&mut self, obj: Obj) -> (r: usize)
        ensures
            r == old(self)@.len(),
            final(self)@ == old(self)@.push(obj@),
    {
        let ghost pre = self@;
        let r = self.objs.len();
        self.objs.push(obj);
        proof {
            assert(self@ =~= pre.push(obj@));
        }
        r
    }

    /// Walk the prototype chain of `proto` for a named property.
    pub fn search_prototype(
        &self,
        proto: Option<usize>,
        name: &str,
        case_sensitive: bool,
    ) -> (r: Option<Value>)
        requires
            store_wf(self@),
        ensures
            ov(r) == spec_search_prototype(
                self@,
                match proto {
                    Some(p) => Some(p as int),
                    None => None,
                },
                name@,
                case_sensitive,
                PROTO_CHAIN_LIMIT as nat,
            ),
    {
        let mut current: Option<usize> = proto;
        let mut fuel: u64 = PROTO_CHAIN_LIMIT;
        while fuel > 0
            invariant
                store_wf(self@),
                fuel <= PROTO_CHAIN_LIMIT,
                spec_search_prototype(
                    self@,
                    match proto {
                        Some(p) => Some(p as int),
                        None => None,
                    },
                    name@,
                    case_sensitive,
                    PROTO_CHAIN_LIMIT as nat,
                ) == spec_search_prototype(
                    self@,
                    match current {
                        Some(c) => Some(c as int),
                        None => None,
                    },
                    name@,
                    case_sensitive,
                    fuel as nat,
                ),
            decreases fuel,
        {
            match current {
                None => {
                    return None;
                },
                Some(id) => {
                    if id >= self.objs.len() {
                        return None;
                    }
                    match self.objs[id].base.get_local(name, case_sensitive) {
                        Some(v) => {
                            return Some(v);
                        },
                        None => {
                            current = self.objs[id].base.proto;
                            fuel = fuel - 1;
                        },
                    }
                },
            }
        }
        None
    }
}

} // verus!
