//! Objects bound to nodes of the renderable tree, and their property
//! resolution across the overlapping namespaces: own properties, special
//! properties, child nodes, numbered levels and the prototype chain.

use vstd::prelude::*;
use crate::context::{Avm1, UpdateContext};
use crate::display::{NodeModel, spec_child_by_name, spec_level_lookup, spec_level_path_number};
use crate::display_props::{spec_prop_get, spec_prop_set};
use crate::object::{
    Obj, ObjModel, Role, RoleModel, ScriptObject, ScriptObjectModel, TypeOf, ov,
    spec_internal_set, spec_own, spec_search_prototype, store_wf, PROTO_CHAIN_LIMIT,
};
use crate::table::table_find;
use crate::value::{Value, ValueModel, spec_coerce_to_string};

verus! {

/// A binding from a named property of a stage object to a text-rendering
/// node: writes of that property push the written text into the node.
pub struct TextFieldBinding {
    pub text_field: usize,
    pub variable_name: String,
}

/// The model of a binding: node id and property name.
impl View for TextFieldBinding {
    type V = (usize, Seq<char>);

    open spec fn view(&self) -> (usize, Seq<char>) {
        (self.text_field, self.variable_name@)
    }
}

/// The stage-bound role data beside the generic base: the tree node the
/// object is tied to, and its text bindings.
pub struct StageObjectData {
    /// The display node this stage object is tied to.
    pub display_object: usize,
    pub text_field_bindings: Vec<TextFieldBinding>,
}

/// The model of the stage-bound role data.
pub struct StageObjectModel {
    pub display_object: usize,
    pub text_field_bindings: Seq<(usize, Seq<char>)>,
}

impl View for StageObjectData {
    type V = StageObjectModel;

    open spec fn view(&self) -> StageObjectModel {
        StageObjectModel {
            display_object: self.display_object,
            text_field_bindings: self.text_field_bindings@.map_values(|b: TextFieldBinding| b@),
        }
    }
}

/// A handle to a stage-bound object in the arena.
#[derive(Clone, Copy, PartialEq, Eq, Structural, Debug)]
pub struct StageObject(pub usize);

/// What resolution yields for a name on a stage object, trying each
/// namespace in order: own properties, special properties, named children,
/// numbered levels, and last the prototype chain. A full miss is the
/// undefined value, not an error.
pub open spec fn spec_stage_get(
    objs: Seq<ObjModel>,
    nodes: Seq<NodeModel>,
    levels: Seq<(u64, usize)>,
    registry: Seq<(Seq<char>, crate::display_props::DisplayProperty)>,
    mouse_x: i64,
    mouse_y: i64,
    id: int,
    name: Seq<char>,
    case_sensitive: bool,
) -> ValueModel {
    let base = objs[id].base;
    let node = objs[id].role->Stage_0.display_object;
    if spec_own(base.props, name, case_sensitive) is Some {
        spec_own(base.props, name, case_sensitive)->Some_0.value
    } else if table_find(registry, name, false) is Some {
        spec_prop_get(
            registry[table_find(registry, name, false)->Some_0].1.kind,
            nodes[node as int],
            mouse_x,
            mouse_y,
        )
    } else if spec_child_by_name(nodes, nodes[node as int].children, name, case_sensitive)
        is Some {
        let child = spec_child_by_name(
            nodes,
            nodes[node as int].children,
            name,
            case_sensitive,
        )->Some_0;
        match nodes[child as int].object {
            Some(o) => ValueModel::Object(o as int),
            None => ValueModel::Undefined,
        }
    } else if spec_level_path_number(name) matches Some(n) && spec_level_lookup(levels, n)
        is Some {
        let level = spec_level_lookup(levels, spec_level_path_number(name)->Some_0)->Some_0;
        match nodes[level as int].object {
            Some(o) => ValueModel::Object(o as int),
            None => ValueModel::Undefined,
        }
    } else {
        match spec_search_prototype(objs, base.proto, name, case_sensitive, PROTO_CHAIN_LIMIT as nat) {
            Some(v) => v,
            None => ValueModel::Undefined,
        }
    }
}

/// The nodes after every matching text binding pushed the written text into
/// its node, in list order.
pub open spec fn spec_apply_bindings(
    nodes: Seq<NodeModel>,
    bindings: Seq<(usize, Seq<char>)>,
    name: Seq<char>,
    text: Seq<char>,
) -> Seq<NodeModel>
    decreases bindings.len(),
{
    if bindings.len() == 0 {
        nodes
    } else {
        spec_apply_bindings(
            apply_one_binding(nodes, bindings[0], name, text),
            bindings.drop_first(),
            name,
            text,
        )
    }
}

/// An object with its own property list replaced.
pub open spec fn with_base_props(
    m: ObjModel,
    props: Seq<(Seq<char>, crate::object::PropertyModel)>,
) -> ObjModel {
    ObjModel { base: ScriptObjectModel { props, ..m.base }, role: m.role }
}

/// What a script write to a stage object leaves the arena and the tree
/// holding: first every matching text binding fires, then the value lands
/// on the own property, the special property, or (never consulting the
/// prototype chain for setters) a fresh own property.
pub open spec fn spec_stage_set(
    objs: Seq<ObjModel>,
    nodes: Seq<NodeModel>,
    registry: Seq<(Seq<char>, crate::display_props::DisplayProperty)>,
    id: int,
    name: Seq<char>,
    v: ValueModel,
    case_sensitive: bool,
) -> (Seq<ObjModel>, Seq<NodeModel>) {
    let data = objs[id].role->Stage_0;
    let node = data.display_object;
    let nodes1 = spec_apply_bindings(
        nodes,
        data.text_field_bindings,
        name,
        spec_coerce_to_string(v),
    );
    let base = objs[id].base;
    if spec_own(base.props, name, case_sensitive) is Some {
        (objs.update(id, with_base_props(objs[id], spec_internal_set(base.props, name, v, case_sensitive))), nodes1)
    } else if table_find(registry, name, false) is Some {
        let p = registry[table_find(registry, name, false)->Some_0].1;
        if p.has_setter {
            (objs, nodes1.update(node as int, spec_prop_set(p.kind, nodes1[node as int], v)))
        } else {
            (objs, nodes1)
        }
    } else {
        (objs.update(id, with_base_props(objs[id], spec_internal_set(base.props, name, v, case_sensitive))), nodes1)
    }
}

impl StageObject {
    /// The handle addresses a live stage-bound object.
    pub open spec fn is_stage(self, objs: Seq<ObjModel>) -> bool {
        self.0 < objs.len() && objs[self.0 as int].role is Stage
    }

    /// The stage role data of the object.
    pub open spec fn data(self, objs: Seq<ObjModel>) -> StageObjectModel {
        objs[self.0 as int].role->Stage_0
    }

    /// Create a stage object for a given display node. The object carries
    /// the movie-clip type string, starts with no own properties and no
    /// bindings, and is tied to the node for life.
    pub fn for_display_object(
        context: &mut UpdateContext,
        display_object: usize,
        proto: Option<usize>,
    ) -> (r: StageObject)
        requires
            old(context).wf(),
            display_object < old(context).stage@.nodes.len(),
            proto matches Some(p) ==> p < old(context).objects@.len(),
        ensures
            final(context).wf(),
            r.0 == old(context).objects@.len(),
            r.is_stage(final(context).objects@),
            final(context).objects@ == old(context).objects@.push(
                ObjModel {
                    base: ScriptObjectModel {
                        props: Seq::empty(),
                        proto: match proto {
                            Some(p) => Some(p as int),
                            None => None,
                        },
                        type_of: TypeOf::MovieClip,
                        native: None,
                    },
                    role: RoleModel::Stage(
                        StageObjectModel {
                            display_object,
                            text_field_bindings: Seq::empty(),
                        },
                    ),
                },
            ),
            final(context).stage == old(context).stage,
            final(context).storage == old(context).storage,
            final(context).shared_objects == old(context).shared_objects,
            final(context).unbound_text_fields == old(context).unbound_text_fields,
    {
        let mut base = ScriptObject::object(proto);
        base.type_of = TypeOf::MovieClip;
        let data = StageObjectData { display_object, text_field_bindings: Vec::new() };
        let ghost dm = data@;
        proof {
            assert(dm.text_field_bindings =~= Seq::<(usize, Seq<char>)>::empty());
        }
        let id = context.objects.add_obj(Obj { base, role: Role::Stage(data) });
        proof {
            let objs = context.objects@;
            let pre = old(context).objects@;
            assert(store_wf(objs)) by {
                assert forall|i: int| 0 <= i < objs.len() implies {
                    let m = #[trigger] objs[i];
                    &&& (m.base.proto matches Some(p) ==> 0 <= p < objs.len())
                    &&& (forall|j: int, k: int|
                        0 <= j < k < m.base.props.len() ==> m.base.props[j].0 != m.base.props[k].0)
                    &&& (forall|j: int|
                        0 <= j < m.base.props.len() ==> ((#[trigger] m.base.props[j]).1.value
                            matches ValueModel::Object(o) ==> 0 <= o < objs.len()))
                } by {
                    if i < pre.len() {
                        assert(objs[i] == pre[i]);
                    }
                }
            }
            assert(context.cache() == old(context).cache());
        }
        StageObject(id)
    }

    /// Register a text field variable binding: writes of the named property
    /// will push their text into the node. Bindings are not deduplicated.
    pub fn register_text_field_binding(
        self,
        context: &mut UpdateContext,
        text_field: usize,
        variable_name: &str,
    )
        requires
            old(context).wf(),
            self.is_stage(old(context).objects@),
            text_field < old(context).stage@.nodes.len(),
        ensures
            final(context).wf(),
            final(context).objects@ == old(context).objects@.update(
                self.0 as int,
                ObjModel {
                    base: old(context).objects@[self.0 as int].base,
                    role: RoleModel::Stage(
                        StageObjectModel {
                            display_object: self.data(old(context).objects@).display_object,
                            text_field_bindings: self.data(
                                old(context).objects@,
                            ).text_field_bindings.push((text_field, variable_name@)),
                        },
                    ),
                },
            ),
            final(context).stage == old(context).stage,
            final(context).storage == old(context).storage,
            final(context).shared_objects == old(context).shared_objects,
            final(context).unbound_text_fields == old(context).unbound_text_fields,
    {
        let ghost pre = context.objects@;
        match &mut context.objects.objs[self.0].role {
            Role::Stage(d) => {
                d.text_field_bindings.push(
                    TextFieldBinding {
                        text_field,
                        variable_name: String::from_str(variable_name),
                    },
                );
            },
            _ => {
                proof {
                    assert(false);
                }
            },
        }
        proof {
            let objs = context.objects@;
            let target = ObjModel {
                base: pre[self.0 as int].base,
                role: RoleModel::Stage(
                    StageObjectModel {
                        display_object: self.data(pre).display_object,
                        text_field_bindings: self.data(pre).text_field_bindings.push(
                            (text_field, variable_name@),
                        ),
                    },
                ),
            };
            assert(objs[self.0 as int].role->Stage_0.text_field_bindings =~= self.data(
                pre,
            ).text_field_bindings.push((text_field, variable_name@)));
            assert(objs[self.0 as int].role->Stage_0 == target.role->Stage_0);
            assert(objs[self.0 as int].role is Stage);
            assert(objs[self.0 as int].role == target.role);
            assert(objs[self.0 as int] == target);
            assert(objs =~= pre.update(self.0 as int, target));
            assert(store_wf(objs)) by {
                assert forall|i: int| 0 <= i < objs.len() implies {
                    let m = #[trigger] objs[i];
                    &&& (m.base.proto matches Some(p) ==> 0 <= p < objs.len())
                    &&& (forall|j: int, k: int|
                        0 <= j < k < m.base.props.len() ==> m.base.props[j].0 != m.base.props[k].0)
                    &&& (forall|j: int|
                        0 <= j < m.base.props.len() ==> ((#[trigger] m.base.props[j]).1.value
                            matches ValueModel::Object(o) ==> 0 <= o < objs.len()))
                } by {
                    assert(objs[i].base == pre[i].base);
                }
            }
            assert(context.cache() == old(context).cache());
        }
    }
}


/// The binding list with every binding referencing a node removed.
pub open spec fn bindings_without(s: Seq<(usize, Seq<char>)>, tf: usize) -> Seq<(usize, Seq<char>)>
    decreases s.len(),
{
    if s.len() == 0 {
        s
    } else {
        let rest = bindings_without(s.drop_last(), tf);
        if s.last().0 != tf {
            rest.push(s.last())
        } else {
            rest
        }
    }
}

/// Everything kept by the removal was in the list before it.
proof fn lemma_bindings_without_sub(s: Seq<(usize, Seq<char>)>, tf: usize)
    ensures
        forall|j: int|
            0 <= j < bindings_without(s, tf).len() ==> exists|k: int|
                0 <= k < s.len() && s[k] == #[trigger] bindings_without(s, tf)[j],
    decreases s.len(),
{
    if s.len() > 0 {
        lemma_bindings_without_sub(s.drop_last(), tf);
        assert forall|j: int| 0 <= j < bindings_without(s, tf).len() implies exists|k: int|
            0 <= k < s.len() && s[k] == #[trigger] bindings_without(s, tf)[j] by {
            let rest = bindings_without(s.drop_last(), tf);
            if j < rest.len() {
                let k = choose|k: int|
                    0 <= k < s.drop_last().len() && s.drop_last()[k] == #[trigger] rest[j];
                assert(s[k] == rest[j]);
            } else {
                assert(bindings_without(s, tf)[j] == s.last());
                assert(s[s.len() - 1] == s.last());
            }
        }
    }
}

/// The node ids a binding list references, in list order.
pub open spec fn binding_nodes(s: Seq<(usize, Seq<char>)>) -> Seq<usize> {
    s.map_values(|b: (usize, Seq<char>)| b.0)
}

/// Whether some binding in the list references the node.
pub open spec fn binds_node(bindings: Seq<(usize, Seq<char>)>, j: int) -> bool {
    exists|k: int| 0 <= k < bindings.len() && bindings[k].0 == j
}

/// One binding applied to the tree: a matching binding pushes the text into
/// its node.
pub open spec fn apply_one_binding(
    nodes: Seq<NodeModel>,
    b: (usize, Seq<char>),
    name: Seq<char>,
    text: Seq<char>,
) -> Seq<NodeModel> {
    if b.1 == name && b.0 < nodes.len() {
        nodes.update(b.0 as int, NodeModel { text, ..nodes[b.0 as int] })
    } else {
        nodes
    }
}

/// Applying bindings never changes how many nodes there are.
pub proof fn lemma_apply_bindings_len(
    nodes: Seq<NodeModel>,
    bindings: Seq<(usize, Seq<char>)>,
    name: Seq<char>,
    text: Seq<char>,
)
    ensures
        spec_apply_bindings(nodes, bindings, name, text).len() == nodes.len(),
    decreases bindings.len(),
{
    if bindings.len() > 0 {
        lemma_apply_bindings_len(
            apply_one_binding(nodes, bindings[0], name, text),
            bindings.drop_first(),
            name,
            text,
        );
    }
}

/// The left fold over the binding list steps one binding at a time.
pub proof fn lemma_apply_bindings_push(
    nodes: Seq<NodeModel>,
    bindings: Seq<(usize, Seq<char>)>,
    b: (usize, Seq<char>),
    name: Seq<char>,
    text: Seq<char>,
)
    ensures
        spec_apply_bindings(nodes, bindings.push(b), name, text) == apply_one_binding(
            spec_apply_bindings(nodes, bindings, name, text),
            b,
            name,
            text,
        ),
    decreases bindings.len(),
{
    if bindings.len() == 0 {
        assert(bindings.push(b)[0] == b);
        assert(bindings.push(b).drop_first() =~= Seq::<(usize, Seq<char>)>::empty());
        assert(spec_apply_bindings(
            apply_one_binding(nodes, b, name, text),
            Seq::<(usize, Seq<char>)>::empty(),
            name,
            text,
        ) == apply_one_binding(nodes, b, name, text));
        assert(spec_apply_bindings(nodes, bindings, name, text) == nodes);
    } else {
        assert(bindings.push(b)[0] == bindings[0]);
        assert(bindings.push(b).drop_first() =~= bindings.drop_first().push(b));
        lemma_apply_bindings_push(
            apply_one_binding(nodes, bindings[0], name, text),
            bindings.drop_first(),
            b,
            name,
            text,
        );
        assert(spec_apply_bindings(nodes, bindings, name, text) == spec_apply_bindings(
            apply_one_binding(nodes, bindings[0], name, text),
            bindings.drop_first(),
            name,
            text,
        ));
    }
}

/// Own-property lists keep the store well formed across a script write, as
/// long as any written object handle is in range.
proof fn lemma_store_wf_after_internal_set(
    pre: Seq<ObjModel>,
    post: Seq<ObjModel>,
    id: int,
    name: Seq<char>,
    v: ValueModel,
    case_sensitive: bool,
)
    requires
        store_wf(pre),
        0 <= id < pre.len(),
        v matches ValueModel::Object(o) ==> 0 <= o < pre.len(),
        post == pre.update(
            id,
            with_base_props(pre[id], spec_internal_set(pre[id].base.props, name, v, case_sensitive)),
        ),
    ensures
        store_wf(post),
{
    let props = pre[id].base.props;
    let props2 = spec_internal_set(props, name, v, case_sensitive);
    crate::table::lemma_table_find_props(props, name, case_sensitive);
    assert forall|i: int| 0 <= i < post.len() implies {
        let m = #[trigger] post[i];
        &&& (m.base.proto matches Some(p) ==> 0 <= p < post.len())
        &&& (forall|j: int, k: int|
            0 <= j < k < m.base.props.len() ==> m.base.props[j].0 != m.base.props[k].0)
        &&& (forall|j: int|
            0 <= j < m.base.props.len() ==> ((#[trigger] m.base.props[j]).1.value matches
            ValueModel::Object(o) ==> 0 <= o < post.len()))
    } by {
        if i == id {
            assert(post[i].base.proto == pre[i].base.proto);
            match table_find(props, name, case_sensitive) {
                Some(slot) => {
                    assert forall|j: int, k: int| 0 <= j < k < post[i].base.props.len() implies
                        post[i].base.props[j].0 != post[i].base.props[k].0 by {
                        assert(props2[j].0 == props[j].0);
                        assert(props2[k].0 == props[k].0);
                    }
                    assert forall|j: int| 0 <= j < post[i].base.props.len() implies ((
                    #[trigger] post[i].base.props[j]).1.value matches ValueModel::Object(o)
                        ==> 0 <= o < post.len()) by {
                        if j != slot || props[slot].1.attrs.read_only {
                            assert(props2[j] == props[j]);
                        }
                    }
                },
                None => {
                    assert forall|j: int, k: int| 0 <= j < k < post[i].base.props.len() implies
                        post[i].base.props[j].0 != post[i].base.props[k].0 by {
                        if k < props.len() {
                            assert(props2[j] == props[j]);
                            assert(props2[k] == props[k]);
                        } else {
                            assert(props2[j] == props[j]);
                            assert(props2[k].0 == name);
                            assert(!crate::text::name_matches(props[j].0, name, case_sensitive));
                            if case_sensitive {
                                assert(props[j].0 != name);
                            } else {
                                assert(crate::text::fold(props[j].0) != crate::text::fold(name));
                                assert(props[j].0 != name);
                            }
                        }
                    }
                    assert forall|j: int| 0 <= j < post[i].base.props.len() implies ((
                    #[trigger] post[i].base.props[j]).1.value matches ValueModel::Object(o)
                        ==> 0 <= o < post.len()) by {
                        if j < props.len() {
                            assert(props2[j] == props[j]);
                        }
                    }
                },
            }
        } else {
            assert(post[i] == pre[i]);
        }
    }
}

impl StageObject {
    /// Resolve a named property read, trying own properties, special
    /// properties, named children, numbered levels and the prototype chain
    /// in that order. A full miss yields the undefined value.
    pub fn get(&self, avm: &Avm1, context: &UpdateContext, name: &str) -> (r: Value)
        requires
            context.wf(),
            self.is_stage(context.objects@),
        ensures
            r@ == spec_stage_get(
                context.objects@,
                context.stage@.nodes,
                context.stage@.levels,
                avm.display_properties@,
                context.mouse_x,
                context.mouse_y,
                self.0 as int,
                name@,
                avm.case_sensitive,
            ),
    {
        let case_sensitive = avm.is_case_sensitive();
        let id = self.0;
        let node: usize = match &context.objects.objs[id].role {
            Role::Stage(d) => d.display_object,
            _ => {
                proof {
                    assert(false);
                }
                0
            },
        };
        if context.objects.objs[id].base.has_own_property(name, case_sensitive) {
            // 1) Own properties of the underlying object.
            match context.objects.objs[id].base.get_local(name, case_sensitive) {
                Some(v) => v,
                None => {
                    proof {
                        assert(false);
                    }
                    Value::Undefined
                },
            }
        } else if let Some(property) = avm.display_properties.get_by_name(name) {
            // 2) Special properties of the bound tree node.
            let p = *property;
            p.get(avm, context, node)
        } else if let Some(child) = context.stage.get_child_by_name(node, name, case_sensitive) {
            // 3) Child nodes with the given instance name.
            match context.stage.nodes[child].object {
                Some(o) => Value::Object(o),
                None => Value::Undefined,
            }
        } else if let Some(level) = context.stage.get_level_by_path(name, case_sensitive) {
            // 4) Numbered level roots.
            match context.stage.nodes[level].object {
                Some(o) => Value::Object(o),
                None => Value::Undefined,
            }
        } else {
            // 5) The prototype chain.
            match context.objects.search_prototype(
                context.objects.objs[id].base.proto,
                name,
                case_sensitive,
            ) {
                Some(v) => v,
                None => Value::Undefined,
            }
        }
    }

    /// Write a named property: every matching text binding first pushes the
    /// written text into its node, then the value lands on the own property,
    /// the special property, or a fresh own property. The prototype chain is
    /// never consulted for setters.
    pub fn set(&self, avm: &Avm1, context: &mut UpdateContext, name: &str, value: &Value)
        requires
            old(context).wf(),
            self.is_stage(old(context).objects@),
            value@ matches ValueModel::Object(o) ==> 0 <= o < old(context).objects@.len(),
        ensures
            final(context).wf(),
            ({
                let (objs2, nodes2) = spec_stage_set(
                    old(context).objects@,
                    old(context).stage@.nodes,
                    avm.display_properties@,
                    self.0 as int,
                    name@,
                    value@,
                    avm.case_sensitive,
                );
                final(context).objects@ == objs2 && final(context).stage@.nodes == nodes2
            }),
            final(context).stage@.levels == old(context).stage@.levels,
            final(context).storage == old(context).storage,
            final(context).shared_objects == old(context).shared_objects,
            final(context).unbound_text_fields == old(context).unbound_text_fields,
            final(context).mouse_x == old(context).mouse_x,
            final(context).mouse_y == old(context).mouse_y,
    {
        let case_sensitive = avm.is_case_sensitive();
        let id = self.0;
        let ghost nodes0 = context.stage@.nodes;
        let ghost bindings = self.data(old(context).objects@).text_field_bindings;
        let text = value.coerce_to_string();

        // Fire every text binding whose property name equals the written one.
        let n_bindings: usize = match &context.objects.objs[id].role {
            Role::Stage(d) => d.text_field_bindings.len(),
            _ => {
                proof {
                    assert(false);
                }
                0
            },
        };
        let mut i: usize = 0;
        proof {
            assert(bindings.take(0) =~= Seq::<(usize, Seq<char>)>::empty());
        }
        while i < n_bindings
            invariant
                context.wf(),
                self.is_stage(context.objects@),
                id == self.0,
                context.objects@ == old(context).objects@,
                bindings == self.data(context.objects@).text_field_bindings,
                n_bindings == bindings.len(),
                i <= n_bindings,
                text@ == spec_coerce_to_string(value@),
                context.stage@.nodes == spec_apply_bindings(
                    nodes0,
                    bindings.take(i as int),
                    name@,
                    text@,
                ),
                context.stage@.nodes.len() == nodes0.len(),
                context.stage@.levels == old(context).stage@.levels,
                context.storage == old(context).storage,
                context.shared_objects == old(context).shared_objects,
                context.unbound_text_fields == old(context).unbound_text_fields,
                context.mouse_x == old(context).mouse_x,
                context.mouse_y == old(context).mouse_y,
            decreases n_bindings - i,
        {
            let ghost nodes_pre = context.stage@.nodes;
            let (tf, matches_name): (usize, bool) = match &context.objects.objs[id].role {
                Role::Stage(d) => {
                    assert(context.objects@[id as int].role->Stage_0 == d@);
                    assert(d.text_field_bindings@.len() == bindings.len());
                    assert(d.text_field_bindings@[i as int]@ == bindings[i as int]);
                    (
                        d.text_field_bindings[i].text_field,
                        crate::text::names_equal(
                            d.text_field_bindings[i].variable_name.as_str(),
                            name,
                            true,
                        ),
                    )
                },
                _ => {
                    proof {
                        assert(false);
                    }
                    (0, false)
                },
            };
            assert((tf, matches_name).0 == bindings[i as int].0);
            if matches_name {
                assert(bindings[i as int].1 == name@);
                assert(tf < context.stage@.nodes.len());
                let ghost ctx_pre = *context;
                let new_text = text.clone();
                context.stage.nodes[tf].text = new_text;
                proof {
                    assert(context.stage@.nodes =~= nodes_pre.update(
                        tf as int,
                        NodeModel { text: text@, ..nodes_pre[tf as int] },
                    ));
                    crate::display_props::lemma_ctx_wf_after_node_write(
                        ctx_pre,
                        *context,
                        tf as int,
                    );
                }
            } else {
                proof {
                    if bindings[i as int].1 == name@ {
                        assert(crate::text::name_matches(bindings[i as int].1, name@, true));
                        assert(false);
                    }
                }
            }
            proof {
                assert(bindings.take(i as int + 1) =~= bindings.take(i as int).push(
                    bindings[i as int],
                ));
                lemma_apply_bindings_push(nodes0, bindings.take(i as int), bindings[i as int], name@, text@);
                assert(context.stage@.nodes == apply_one_binding(nodes_pre, bindings[i as int], name@, text@));
            }
            i = i + 1;
        }
        proof {
            assert(bindings.take(n_bindings as int) =~= bindings);
        }
        let ghost nodes1 = context.stage@.nodes;

        let node: usize = match &context.objects.objs[id].role {
            Role::Stage(d) => d.display_object,
            _ => {
                proof {
                    assert(false);
                }
                0
            },
        };
        if context.objects.objs[id].base.has_own_property(name, case_sensitive) {
            // 1) An existing own property takes the write.
            let ghost pre_objs = context.objects@;
            context.objects.objs[id].base.internal_set(name, value.clone(), case_sensitive);
            proof {
                let objs = context.objects@;
                let target = with_base_props(
                    pre_objs[id as int],
                    spec_internal_set(pre_objs[id as int].base.props, name@, value@, case_sensitive),
                );
                assert(objs[id as int].base.props == target.base.props);
                assert(objs[id as int].base == target.base);
                assert(objs[id as int] == target);
                assert(objs =~= pre_objs.update(id as int, target));
                lemma_store_wf_after_internal_set(
                    pre_objs,
                    objs,
                    id as int,
                    name@,
                    value@,
                    case_sensitive,
                );
                assert(context.cache() == old(context).cache());
            }
        } else if let Some(property) = avm.display_properties.get_by_name(name) {
            // 2) A special property of the bound tree node.
            let p = *property;
            p.set(avm, context, node, value);
        } else {
            // 3) The write falls through to a fresh own property; the
            // prototype chain is deliberately not consulted here.
            let ghost pre_objs = context.objects@;
            context.objects.objs[id].base.internal_set(name, value.clone(), case_sensitive);
            proof {
                let objs = context.objects@;
                let target = with_base_props(
                    pre_objs[id as int],
                    spec_internal_set(pre_objs[id as int].base.props, name@, value@, case_sensitive),
                );
                assert(objs[id as int].base.props == target.base.props);
                assert(objs[id as int].base == target.base);
                assert(objs[id as int] == target);
                assert(objs =~= pre_objs.update(id as int, target));
                lemma_store_wf_after_internal_set(
                    pre_objs,
                    objs,
                    id as int,
                    name@,
                    value@,
                    case_sensitive,
                );
                assert(context.cache() == old(context).cache());
            }
        }
    }

    /// Whether the name resolves to an own property, a named child node, or
    /// a numbered level. Special properties are deliberately not included.
    pub fn has_property(&self, avm: &Avm1, context: &UpdateContext, name: &str) -> (r: bool)
        requires
            context.wf(),
            self.is_stage(context.objects@),
        ensures
            r == ({
                let base = context.objects@[self.0 as int].base;
                let node = self.data(context.objects@).display_object;
                ||| spec_own(base.props, name@, avm.case_sensitive) is Some
                ||| spec_child_by_name(
                    context.stage@.nodes,
                    context.stage@.nodes[node as int].children,
                    name@,
                    avm.case_sensitive,
                ) is Some
                ||| (spec_level_path_number(name@) matches Some(n) && spec_level_lookup(
                    context.stage@.levels,
                    n,
                ) is Some)
            }),
    {
        let case_sensitive = avm.is_case_sensitive();
        let id = self.0;
        let node: usize = match &context.objects.objs[id].role {
            Role::Stage(d) => d.display_object,
            _ => {
                proof {
                    assert(false);
                }
                0
            },
        };
        if context.objects.objs[id].base.has_own_property(name, case_sensitive) {
            return true;
        }
        if context.stage.get_child_by_name(node, name, case_sensitive).is_some() {
            return true;
        }
        if context.stage.get_level_by_path(name, case_sensitive).is_some() {
            return true;
        }
        false
    }

    /// Whether the name is an own property of the underlying object; child
    /// nodes are deliberately not included.
    pub fn has_own_property(&self, avm: &Avm1, context: &UpdateContext, name: &str) -> (r: bool)
        requires
            self.0 < context.objects@.len(),
        ensures
            r == (spec_own(
                context.objects@[self.0 as int].base.props,
                name@,
                avm.case_sensitive,
            ) is Some),
    {
        context.objects.objs[self.0].base.has_own_property(name, avm.is_case_sensitive())
    }

    /// Read an own property of the underlying object.
    pub fn get_local(&self, avm: &Avm1, context: &UpdateContext, name: &str) -> (r: Option<Value>)
        requires
            self.0 < context.objects@.len(),
        ensures
            ov(r) == match spec_own(
                context.objects@[self.0 as int].base.props,
                name@,
                avm.case_sensitive,
            ) {
                Some(p) => Some(p.value),
                None => None::<ValueModel>,
            },
    {
        context.objects.objs[self.0].base.get_local(name, avm.is_case_sensitive())
    }

    /// The keys of the object: own enumerable keys first, in slot order,
    /// then the names of the node's children from highest depth to lowest.
    pub fn get_keys(&self, context: &UpdateContext) -> (r: Vec<String>)
        requires
            context.wf(),
            self.is_stage(context.objects@),
        ensures
            crate::object::spec_strings(r@) == crate::object::spec_enum_keys(
                context.objects@[self.0 as int].base.props,
            ) + self.data(context.objects@).spec_child_names(context.stage@.nodes),
    {
        let id = self.0;
        let node: usize = match &context.objects.objs[id].role {
            Role::Stage(d) => d.display_object,
            _ => {
                proof {
                    assert(false);
                }
                0
            },
        };
        let mut keys = context.objects.objs[id].base.get_keys();
        let ghost own_keys = crate::object::spec_strings(keys@);
        let ghost kids = context.stage@.nodes[node as int].children;
        let n = context.stage.nodes[node].children.len();
        let mut i: usize = 0;
        proof {
            assert(kids.take(0) =~= Seq::<usize>::empty());
            assert(spec_child_name_list(context.stage@.nodes, kids.take(0)) =~= Seq::<
                Seq<char>,
            >::empty());
            assert(crate::object::spec_strings(keys@) =~= own_keys + spec_child_name_list(
                context.stage@.nodes,
                kids.take(0),
            ));
        }
        while i < n
            invariant
                context.wf(),
                self.is_stage(context.objects@),
                node < context.stage@.nodes.len(),
                kids == context.stage@.nodes[node as int].children,
                n == kids.len(),
                i <= n,
                crate::object::spec_strings(keys@) == own_keys + spec_child_name_list(
                    context.stage@.nodes,
                    kids.take(i as int),
                ),
            decreases n - i,
        {
            let ghost pre = keys@;
            let child = context.stage.nodes[node].children[i];
            assert(child < context.stage@.nodes.len());
            keys.push(context.stage.nodes[child].name.clone());
            proof {
                assert(kids.take(i as int + 1) =~= kids.take(i as int).push(kids[i as int]));
                lemma_child_name_list_push(context.stage@.nodes, kids.take(i as int), kids[i as int]);
                assert(crate::object::spec_strings(keys@) =~= crate::object::spec_strings(pre)
                    + seq![context.stage@.nodes[child as int].name]);
                assert(own_keys + spec_child_name_list(context.stage@.nodes, kids.take(i as int + 1))
                    =~= (own_keys + spec_child_name_list(context.stage@.nodes, kids.take(i as int)))
                    + seq![context.stage@.nodes[child as int].name]);
            }
            i = i + 1;
        }
        proof {
            assert(kids.take(n as int) =~= kids);
        }
        keys
    }

    /// Remove every binding that references the given text node; the node is
    /// not placed on the unbound queue, which stays the caller's duty.
    pub fn clear_text_field_binding(self, context: &mut UpdateContext, text_field: usize)
        requires
            old(context).wf(),
            self.is_stage(old(context).objects@),
        ensures
            final(context).wf(),
            final(context).objects@ == old(context).objects@.update(
                self.0 as int,
                ObjModel {
                    base: old(context).objects@[self.0 as int].base,
                    role: RoleModel::Stage(
                        StageObjectModel {
                            display_object: self.data(old(context).objects@).display_object,
                            text_field_bindings: bindings_without(
                                self.data(old(context).objects@).text_field_bindings,
                                text_field,
                            ),
                        },
                    ),
                },
            ),
            final(context).stage == old(context).stage,
            final(context).storage == old(context).storage,
            final(context).shared_objects == old(context).shared_objects,
            final(context).unbound_text_fields == old(context).unbound_text_fields,
    {
        let ghost pre = context.objects@;
        let ghost old_bindings = self.data(pre).text_field_bindings;
        match &mut context.objects.objs[self.0].role {
            Role::Stage(d) => {
                let n = d.text_field_bindings.len();
                let mut kept: Vec<TextFieldBinding> = Vec::new();
                let mut i: usize = 0;
                proof {
                    assert(old_bindings == d.text_field_bindings@.map_values(
                        |b: TextFieldBinding| b@,
                    ));
                    assert(old_bindings.take(0) =~= Seq::<(usize, Seq<char>)>::empty());
                    assert(kept@.map_values(|b: TextFieldBinding| b@) =~= bindings_without(
                        old_bindings.take(0),
                        text_field,
                    ));
                }
                while i < n
                    invariant
                        old_bindings == d.text_field_bindings@.map_values(
                            |b: TextFieldBinding| b@,
                        ),
                        n == d.text_field_bindings@.len(),
                        i <= n,
                        kept@.map_values(|b: TextFieldBinding| b@) == bindings_without(
                            old_bindings.take(i as int),
                            text_field,
                        ),
                    decreases n - i,
                {
                    let ghost pre_kept = kept@;
                    let b = &d.text_field_bindings[i];
                    if b.text_field != text_field {
                        kept.push(
                            TextFieldBinding {
                                text_field: b.text_field,
                                variable_name: b.variable_name.clone(),
                            },
                        );
                    }
                    proof {
                        let t1 = old_bindings.take(i as int + 1);
                        assert(t1.drop_last() =~= old_bindings.take(i as int));
                        assert(t1.last() == old_bindings[i as int]);
                        if old_bindings[i as int].0 != text_field {
                            assert(bindings_without(t1, text_field) == bindings_without(
                                old_bindings.take(i as int),
                                text_field,
                            ).push(old_bindings[i as int]));
                            assert(kept@.map_values(|b: TextFieldBinding| b@) =~= pre_kept.map_values(
                                |b: TextFieldBinding| b@,
                            ).push(old_bindings[i as int]));
                        } else {
                            assert(bindings_without(t1, text_field) == bindings_without(
                                old_bindings.take(i as int),
                                text_field,
                            ));
                        }
                    }
                    i = i + 1;
                }
                proof {
                    assert(old_bindings.take(n as int) =~= old_bindings);
                }
                d.text_field_bindings = kept;
            },
            _ => {
                proof {
                    assert(false);
                }
            },
        }
        proof {
            let objs = context.objects@;
            let target = ObjModel {
                base: pre[self.0 as int].base,
                role: RoleModel::Stage(
                    StageObjectModel {
                        display_object: self.data(pre).display_object,
                        text_field_bindings: bindings_without(old_bindings, text_field),
                    },
                ),
            };
            assert(objs[self.0 as int].role->Stage_0 == target.role->Stage_0);
            assert(objs[self.0 as int].role is Stage);
            assert(objs[self.0 as int].role == target.role);
            assert(objs[self.0 as int] == target);
            assert(objs =~= pre.update(self.0 as int, target));
            assert(store_wf(objs)) by {
                assert forall|i: int| 0 <= i < objs.len() implies {
                    let m = #[trigger] objs[i];
                    &&& (m.base.proto matches Some(p) ==> 0 <= p < objs.len())
                    &&& (forall|j: int, k: int|
                        0 <= j < k < m.base.props.len() ==> m.base.props[j].0 != m.base.props[k].0)
                    &&& (forall|j: int|
                        0 <= j < m.base.props.len() ==> ((#[trigger] m.base.props[j]).1.value
                            matches ValueModel::Object(o) ==> 0 <= o < objs.len()))
                } by {
                    assert(objs[i].base == pre[i].base);
                }
            }
            assert forall|i: int|
                0 <= i < objs.len() implies match (#[trigger] objs[i]).role {
                RoleModel::Stage(d) => {
                    &&& d.display_object < context.stage@.nodes.len()
                    &&& forall|j: int|
                        0 <= j < d.text_field_bindings.len()
                            ==> (#[trigger] d.text_field_bindings[j]).0
                                < context.stage@.nodes.len()
                },
                _ => true,
            } by {
                if i == self.0 as int {
                    let d = objs[i].role->Stage_0;
                    assert forall|j: int| 0 <= j < d.text_field_bindings.len() implies (
                    #[trigger] d.text_field_bindings[j]).0 < context.stage@.nodes.len() by {
                        let fb = d.text_field_bindings[j];
                        lemma_bindings_without_sub(old_bindings, text_field);
                        let k = choose|k: int|
                            0 <= k < old_bindings.len() && old_bindings[k] == #[trigger]
                            bindings_without(old_bindings, text_field)[j];
                        assert(old_bindings[k].0 < context.stage@.nodes.len());
                    }
                }
            }
            assert(context.cache() == old(context).cache());
        }
    }

    /// Drain every binding: each referenced text node is told it is no
    /// longer bound and pushed onto the runtime's unbound queue. Called when
    /// the object's node leaves the tree.
    pub fn unregister_text_field_bindings(self, context: &mut UpdateContext)
        requires
            old(context).wf(),
            self.is_stage(old(context).objects@),
        ensures
            final(context).wf(),
            self.data(final(context).objects@).text_field_bindings == Seq::<(usize, Seq<
                char,
            >)>::empty(),
            final(context).unbound_text_fields@ == old(context).unbound_text_fields@
                + binding_nodes(self.data(old(context).objects@).text_field_bindings),
            final(context).stage@.nodes.len() == old(context).stage@.nodes.len(),
            forall|j: int|
                0 <= j < final(context).stage@.nodes.len()
                    ==> #[trigger] final(context).stage@.nodes[j] == (
                if binds_node(self.data(old(context).objects@).text_field_bindings, j) {
                    NodeModel { bound_to_object: false, ..old(context).stage@.nodes[j] }
                } else {
                    old(context).stage@.nodes[j]
                }),
            final(context).storage == old(context).storage,
            final(context).shared_objects == old(context).shared_objects,
    {
        let id = self.0;
        let ghost bindings = self.data(old(context).objects@).text_field_bindings;
        let n: usize = match &context.objects.objs[id].role {
            Role::Stage(d) => d.text_field_bindings.len(),
            _ => {
                proof {
                    assert(false);
                }
                0
            },
        };
        let mut i: usize = 0;
        proof {
            assert(binding_nodes(bindings.take(0)) =~= Seq::<usize>::empty());
            assert(context.unbound_text_fields@ =~= old(context).unbound_text_fields@
                + binding_nodes(bindings.take(0)));
        }
        while i < n
            invariant
                context.wf(),
                self.is_stage(context.objects@),
                id == self.0,
                context.objects@ == old(context).objects@,
                bindings == self.data(context.objects@).text_field_bindings,
                n == bindings.len(),
                i <= n,
                context.unbound_text_fields@ == old(context).unbound_text_fields@
                    + binding_nodes(bindings.take(i as int)),
                context.stage@.nodes.len() == old(context).stage@.nodes.len(),
                forall|j: int|
                    0 <= j < context.stage@.nodes.len() ==> #[trigger] context.stage@.nodes[j] == (
                    if binds_node(bindings.take(i as int), j) {
                        NodeModel { bound_to_object: false, ..old(context).stage@.nodes[j] }
                    } else {
                        old(context).stage@.nodes[j]
                    }),
                context.stage@.levels == old(context).stage@.levels,
                context.storage == old(context).storage,
                context.shared_objects == old(context).shared_objects,
            decreases n - i,
        {
            let ghost nodes_pre = context.stage@.nodes;
            let tf: usize = match &context.objects.objs[id].role {
                Role::Stage(d) => {
                    assert(context.objects@[id as int].role->Stage_0 == d@);
                    assert(d.text_field_bindings@.len() == bindings.len());
                    assert(d.text_field_bindings@[i as int]@ == bindings[i as int]);
                    d.text_field_bindings[i].text_field
                },
                _ => {
                    proof {
                        assert(false);
                    }
                    0
                },
            };
            assert(tf == bindings[i as int].0);
            assert(tf < context.stage@.nodes.len());
            let ghost ctx_pre = *context;
            context.stage.nodes[tf].bound_to_object = false;
            proof {
                assert(context.stage@.nodes =~= nodes_pre.update(
                    tf as int,
                    NodeModel { bound_to_object: false, ..nodes_pre[tf as int] },
                ));
                crate::display_props::lemma_ctx_wf_after_node_write(ctx_pre, *context, tf as int);
            }
            let ghost ctx_mid = *context;
            context.unbound_text_fields.push(tf);
            proof {
                crate::context::UpdateContext::lemma_wf_fields(ctx_mid, *context);
                assert(bindings.take(i as int + 1) =~= bindings.take(i as int).push(
                    bindings[i as int],
                ));
                assert(context.unbound_text_fields@ =~= old(context).unbound_text_fields@
                    + binding_nodes(bindings.take(i as int + 1)));
                assert forall|j: int|
                    0 <= j < context.stage@.nodes.len()
                        implies #[trigger] context.stage@.nodes[j] == (
                    if binds_node(bindings.take(i as int + 1), j) {
                        NodeModel { bound_to_object: false, ..old(context).stage@.nodes[j] }
                    } else {
                        old(context).stage@.nodes[j]
                    }) by {
                    if j == tf as int {
                        assert(bindings.take(i as int + 1)[i as int].0 == j);
                        assert(binds_node(bindings.take(i as int + 1), j));
                    } else {
                        assert(binds_node(bindings.take(i as int + 1), j) == binds_node(
                            bindings.take(i as int),
                            j,
                        )) by {
                            if binds_node(bindings.take(i as int + 1), j) {
                                let k = choose|k: int|
                                    0 <= k < bindings.take(i as int + 1).len() && (#[trigger]
                                    bindings.take(i as int + 1)[k]).0 == j;
                                assert(k != i);
                                assert(bindings.take(i as int)[k].0 == j);
                            }
                            if binds_node(bindings.take(i as int), j) {
                                let k = choose|k: int|
                                    0 <= k < bindings.take(i as int).len() && (#[trigger]
                                    bindings.take(i as int)[k]).0 == j;
                                assert(bindings.take(i as int + 1)[k].0 == j);
                            }
                        }
                    }
                }
            }
            i = i + 1;
        }
        proof {
            assert(bindings.take(n as int) =~= bindings);
        }
        let ghost pre = context.objects@;
        match &mut context.objects.objs[id].role {
            Role::Stage(d) => {
                d.text_field_bindings = Vec::new();
            },
            _ => {
                proof {
                    assert(false);
                }
            },
        }
        proof {
            let objs = context.objects@;
            let target = ObjModel {
                base: pre[id as int].base,
                role: RoleModel::Stage(
                    StageObjectModel {
                        display_object: self.data(pre).display_object,
                        text_field_bindings: Seq::empty(),
                    },
                ),
            };
            assert(objs[id as int].role->Stage_0.text_field_bindings =~= Seq::<(usize, Seq<
                char,
            >)>::empty());
            assert(objs[id as int].role->Stage_0 == target.role->Stage_0);
            assert(objs[id as int].role is Stage);
            assert(objs[id as int].role == target.role);
            assert(objs[id as int] == target);
            assert(objs =~= pre.update(id as int, target));
            assert(store_wf(objs)) by {
                assert forall|i2: int| 0 <= i2 < objs.len() implies {
                    let m = #[trigger] objs[i2];
                    &&& (m.base.proto matches Some(p) ==> 0 <= p < objs.len())
                    &&& (forall|j: int, k: int|
                        0 <= j < k < m.base.props.len() ==> m.base.props[j].0 != m.base.props[k].0)
                    &&& (forall|j: int|
                        0 <= j < m.base.props.len() ==> ((#[trigger] m.base.props[j]).1.value
                            matches ValueModel::Object(o) ==> 0 <= o < objs.len()))
                } by {
                    assert(objs[i2].base == pre[i2].base);
                }
            }
            assert(context.cache() == old(context).cache());
        }
    }
}

/// The names of the listed children, in list order.
pub open spec fn spec_child_name_list(nodes: Seq<NodeModel>, children: Seq<usize>) -> Seq<Seq<char>>
    decreases children.len(),
{
    if children.len() == 0 {
        Seq::empty()
    } else {
        spec_child_name_list(nodes, children.drop_last()) + seq![
            if children.last() < nodes.len() {
                nodes[children.last() as int].name
            } else {
                Seq::empty()
            },
        ]
    }
}

/// The name list steps one child at a time.
proof fn lemma_child_name_list_push(nodes: Seq<NodeModel>, children: Seq<usize>, c: usize)
    ensures
        spec_child_name_list(nodes, children.push(c)) == spec_child_name_list(nodes, children)
            + seq![
            if c < nodes.len() {
                nodes[c as int].name
            } else {
                Seq::empty()
            },
        ],
{
    assert(children.push(c).drop_last() =~= children);
    assert(children.push(c).last() == c);
}

impl StageObjectModel {
    /// The names of this object's node children, in depth order.
    pub open spec fn spec_child_names(self, nodes: Seq<NodeModel>) -> Seq<Seq<char>> {
        spec_child_name_list(nodes, nodes[self.display_object as int].children)
    }
}


/// Resolution order puts own properties first: when the object has an own
/// property under the name, a read yields its value, whatever special
/// property, child node, level or prototype entry shares the name.
pub proof fn lemma_resolution_own_first(
    objs: Seq<ObjModel>,
    nodes: Seq<NodeModel>,
    levels: Seq<(u64, usize)>,
    registry: Seq<(Seq<char>, crate::display_props::DisplayProperty)>,
    mouse_x: i64,
    mouse_y: i64,
    id: int,
    name: Seq<char>,
    case_sensitive: bool,
)
    requires
        spec_own(objs[id].base.props, name, case_sensitive) is Some,
    ensures
        spec_stage_get(objs, nodes, levels, registry, mouse_x, mouse_y, id, name, case_sensitive)
            == spec_own(objs[id].base.props, name, case_sensitive)->Some_0.value,
{
}

/// Resolution order puts special properties before the prototype chain:
/// without an own property, a name the registry carries reads as the
/// special property's value, whatever the prototype chain defines for it.
pub proof fn lemma_resolution_special_before_proto(
    objs: Seq<ObjModel>,
    nodes: Seq<NodeModel>,
    levels: Seq<(u64, usize)>,
    registry: Seq<(Seq<char>, crate::display_props::DisplayProperty)>,
    mouse_x: i64,
    mouse_y: i64,
    id: int,
    name: Seq<char>,
    case_sensitive: bool,
)
    requires
        spec_own(objs[id].base.props, name, case_sensitive) is None,
        table_find(registry, name, false) is Some,
    ensures
        spec_stage_get(objs, nodes, levels, registry, mouse_x, mouse_y, id, name, case_sensitive)
            == crate::display_props::spec_prop_get(
            registry[table_find(registry, name, false)->Some_0].1.kind,
            nodes[objs[id].role->Stage_0.display_object as int],
            mouse_x,
            mouse_y,
        ),
{
}

/// Firing the bindings only ever writes the one coerced text: every node
/// either keeps its text or holds the written one, and a node some matching
/// binding references ends up holding it.
pub proof fn lemma_binding_fires(
    nodes: Seq<NodeModel>,
    bindings: Seq<(usize, Seq<char>)>,
    name: Seq<char>,
    text: Seq<char>,
    j: int,
)
    requires
        0 <= j < nodes.len(),
    ensures
        spec_apply_bindings(nodes, bindings, name, text).len() == nodes.len(),
        (exists|k: int|
            0 <= k < bindings.len() && (#[trigger] bindings[k]).1 == name && bindings[k].0 == j)
            ==> spec_apply_bindings(nodes, bindings, name, text)[j].text == text,
        spec_apply_bindings(nodes, bindings, name, text)[j].text == text
            || spec_apply_bindings(nodes, bindings, name, text)[j].text == nodes[j].text,
    decreases bindings.len(),
{
    lemma_apply_bindings_len(nodes, bindings, name, text);
    if bindings.len() > 0 {
        let nodes1 = apply_one_binding(nodes, bindings[0], name, text);
        lemma_binding_fires(nodes1, bindings.drop_first(), name, text, j);
        if exists|k: int|
            0 <= k < bindings.len() && (#[trigger] bindings[k]).1 == name && bindings[k].0 == j {
            let k = choose|k: int|
                0 <= k < bindings.len() && (#[trigger] bindings[k]).1 == name && bindings[k].0 == j;
            if k == 0 {
                assert(nodes1[j].text == text);
            } else {
                assert(bindings.drop_first()[k - 1] == bindings[k]);
                assert(exists|k2: int|
                    0 <= k2 < bindings.drop_first().len() && (#[trigger] bindings.drop_first()[k2]).1
                        == name && bindings.drop_first()[k2].0 == j);
            }
        }
    }
}

} // verus!
