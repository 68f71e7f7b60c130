//! The VM session: the interpreter-visible state every operation threads
//! through, and the per-session cache of named shared objects.

use vstd::prelude::*;
use crate::display::Stage;
use crate::object::{ObjStore, store_wf, RoleModel};
use crate::storage::Storage;
use crate::display_props::DisplayPropertyMap;

verus! {

/// The well-known prototype objects of a session.
#[derive(Clone, Copy, PartialEq, Eq, Structural, Debug)]
pub struct Prototypes {
    pub object: usize,
    pub function: usize,
    pub shared_object: usize,
}

/// The interpreter core: the special-property registry, the case-rule flag
/// of the running VM version, and the well-known prototypes.
pub struct Avm1 {
    pub display_properties: DisplayPropertyMap,
    pub case_sensitive: bool,
    pub prototypes: Prototypes,
}

impl Avm1 {
    /// Whether names resolve case-sensitively in this VM version.
    pub fn is_case_sensitive(&self) -> (r: bool)
        ensures
            r == self.case_sensitive,
    {
        self.case_sensitive
    }
}

/// The id cached under a name, if any.
pub open spec fn spec_cached(cache: Seq<(Seq<char>, int)>, name: Seq<char>) -> Option<int>
    decreases cache.len(),
{
    if cache.len() == 0 {
        None
    } else if cache[0].0 == name {
        Some(cache[0].1)
    } else {
        spec_cached(cache.drop_first(), name)
    }
}

/// The mutable world an interpreter step acts on: the tree, the object
/// arena, the storage backend, the shared-object cache, the unbound
/// text-field queue, and the pointer position.
pub struct UpdateContext {
    pub stage: Stage,
    pub objects: ObjStore,
    pub storage: Storage,
    pub shared_objects: Vec<(String, usize)>,
    pub unbound_text_fields: Vec<usize>,
    pub mouse_x: i64,
    pub mouse_y: i64,
}

impl UpdateContext {
    /// The cache seen at the model level.
    pub open spec fn cache(&self) -> Seq<(Seq<char>, int)> {
        self.shared_objects@.map_values(|e: (String, usize)| (e.0@, e.1 as int))
    }

    /// Everything held anywhere stays inside the arenas, and every node's
    /// fractions stay convertible.
    pub open spec fn wf(&self) -> bool {
        &&& self.stage@.wf()
        &&& store_wf(self.objects@)
        &&& self.storage.wf()
        &&& forall|i: int|
            0 <= i < self.stage@.nodes.len() ==> ((#[trigger] self.stage@.nodes[i]).object
                matches Some(o) ==> o < self.objects@.len())
        &&& forall|i: int|
            0 <= i < self.objects@.len() ==> match (#[trigger] self.objects@[i]).role {
                RoleModel::Stage(d) => {
                    &&& d.display_object < self.stage@.nodes.len()
                    &&& forall|j: int|
                        0 <= j < d.text_field_bindings.len()
                            ==> (#[trigger] d.text_field_bindings[j]).0 < self.stage@.nodes.len()
                },
                _ => true,
            }
        &&& forall|i: int|
            0 <= i < self.cache().len() ==> (#[trigger] self.cache()[i]).1 < self.objects@.len()
    }

    /// An empty session world.
    pub fn new() -> (r: UpdateContext)
        ensures
            r.wf(),
            r.stage@.nodes == Seq::<crate::display::NodeModel>::empty(),
            r.objects@ == Seq::<crate::object::ObjModel>::empty(),
            r.storage@ == Seq::<(Seq<char>, Seq<char>)>::empty(),
            r.cache() == Seq::<(Seq<char>, int)>::empty(),
            r.unbound_text_fields@ == Seq::<usize>::empty(),
    {
        let r = UpdateContext {
            stage: Stage::new(),
            objects: ObjStore::new(),
            storage: Storage::new(),
            shared_objects: Vec::new(),
            unbound_text_fields: Vec::new(),
            mouse_x: 0,
            mouse_y: 0,
        };
        proof {
            assert(r.cache() =~= Seq::<(Seq<char>, int)>::empty());
            assert(r.unbound_text_fields@ =~= Seq::<usize>::empty());
        }
        r
    }

    /// Well-formedness only reads the tree, the arena, the storage and the
    /// cache; a state equal on those fields is as well formed.
    pub proof fn lemma_wf_fields(pre: UpdateContext, post: UpdateContext)
        requires
            pre.wf(),
            post.stage == pre.stage,
            post.objects == pre.objects,
            post.storage == pre.storage,
            post.shared_objects == pre.shared_objects,
        ensures
            post.wf(),
    {
        assert(post.cache() == pre.cache());
        assert(post.stage@ == pre.stage@);
        assert(post.objects@ == pre.objects@);
        assert forall|i: int|
            0 <= i < post.cache().len() implies (#[trigger] post.cache()[i]).1
                < post.objects@.len() by {
            assert(pre.cache()[i].1 < pre.objects@.len());
        }
        assert forall|i: int|
            0 <= i < post.stage@.nodes.len() implies ((#[trigger] post.stage@.nodes[i]).object
                matches Some(o) ==> o < post.objects@.len()) by {
            assert(pre.stage@.nodes[i].object matches Some(o) ==> o < pre.objects@.len());
        }
        assert forall|i: int|
            0 <= i < post.objects@.len() implies match (#[trigger] post.objects@[i]).role {
            RoleModel::Stage(d) => {
                &&& d.display_object < post.stage@.nodes.len()
                &&& forall|j: int|
                    0 <= j < d.text_field_bindings.len()
                        ==> (#[trigger] d.text_field_bindings[j]).0 < post.stage@.nodes.len()
            },
            _ => true,
        } by {
            assert(match pre.objects@[i].role {
                RoleModel::Stage(d) => {
                    &&& d.display_object < pre.stage@.nodes.len()
                    &&& forall|j: int|
                        0 <= j < d.text_field_bindings.len()
                            ==> (#[trigger] d.text_field_bindings[j]).0 < pre.stage@.nodes.len()
                },
                _ => true,
            });
        }
    }

    /// Well-formedness survives a cache change whose entries all stay in
    /// range.
    pub proof fn lemma_wf_fields_cache(pre: UpdateContext, post: UpdateContext)
        requires
            pre.wf(),
            post.stage == pre.stage,
            post.objects == pre.objects,
            post.storage == pre.storage,
            forall|i: int|
                0 <= i < post.cache().len() ==> (#[trigger] post.cache()[i]).1
                    < post.objects@.len(),
        ensures
            post.wf(),
    {
        assert(post.stage@ == pre.stage@);
        assert(post.objects@ == pre.objects@);
        assert forall|i: int|
            0 <= i < post.stage@.nodes.len() implies ((#[trigger] post.stage@.nodes[i]).object
                matches Some(o) ==> o < post.objects@.len()) by {
            assert(pre.stage@.nodes[i].object matches Some(o) ==> o < pre.objects@.len());
        }
        assert forall|i: int|
            0 <= i < post.objects@.len() implies match (#[trigger] post.objects@[i]).role {
            RoleModel::Stage(d) => {
                &&& d.display_object < post.stage@.nodes.len()
                &&& forall|j: int|
                    0 <= j < d.text_field_bindings.len()
                        ==> (#[trigger] d.text_field_bindings[j]).0 < post.stage@.nodes.len()
            },
            _ => true,
        } by {
            assert(match pre.objects@[i].role {
                RoleModel::Stage(d) => {
                    &&& d.display_object < pre.stage@.nodes.len()
                    &&& forall|j: int|
                        0 <= j < d.text_field_bindings.len()
                            ==> (#[trigger] d.text_field_bindings[j]).0 < pre.stage@.nodes.len()
                },
                _ => true,
            });
        }
    }

    /// Well-formedness survives a storage change that leaves the storage
    /// well formed.
    pub proof fn lemma_wf_fields_storage(pre: UpdateContext, post: UpdateContext)
        requires
            pre.wf(),
            post.stage == pre.stage,
            post.objects == pre.objects,
            post.storage.wf(),
            post.shared_objects == pre.shared_objects,
        ensures
            post.wf(),
    {
        assert(post.cache() == pre.cache());
        assert forall|i: int|
            0 <= i < post.cache().len() implies (#[trigger] post.cache()[i]).1
                < post.objects@.len() by {
            assert(pre.cache()[i].1 < pre.objects@.len());
        }
        assert forall|i: int|
            0 <= i < post.stage@.nodes.len() implies ((#[trigger] post.stage@.nodes[i]).object
                matches Some(o) ==> o < post.objects@.len()) by {
            assert(pre.stage@.nodes[i].object matches Some(o) ==> o < pre.objects@.len());
        }
        assert forall|i: int|
            0 <= i < post.objects@.len() implies match (#[trigger] post.objects@[i]).role {
            RoleModel::Stage(d) => {
                &&& d.display_object < post.stage@.nodes.len()
                &&& forall|j: int|
                    0 <= j < d.text_field_bindings.len()
                        ==> (#[trigger] d.text_field_bindings[j]).0 < post.stage@.nodes.len()
            },
            _ => true,
        } by {
            assert(match pre.objects@[i].role {
                RoleModel::Stage(d) => {
                    &&& d.display_object < pre.stage@.nodes.len()
                    &&& forall|j: int|
                        0 <= j < d.text_field_bindings.len()
                            ==> (#[trigger] d.text_field_bindings[j]).0 < pre.stage@.nodes.len()
                },
                _ => true,
            });
        }
    }

    /// Well-formedness survives an arena change that keeps the arena well
    /// formed, its length, and every role.
    pub proof fn lemma_wf_fields_objects(pre: UpdateContext, post: UpdateContext)
        requires
            pre.wf(),
            post.stage == pre.stage,
            store_wf(post.objects@),
            post.objects@.len() == pre.objects@.len(),
            forall|i: int|
                0 <= i < post.objects@.len() ==> (#[trigger] post.objects@[i]).role
                    == pre.objects@[i].role,
            post.storage == pre.storage,
            post.shared_objects == pre.shared_objects,
        ensures
            post.wf(),
    {
        assert(post.cache() == pre.cache());
        assert forall|i: int|
            0 <= i < post.cache().len() implies (#[trigger] post.cache()[i]).1
                < post.objects@.len() by {
            assert(pre.cache()[i].1 < pre.objects@.len());
        }
        assert forall|i: int|
            0 <= i < post.stage@.nodes.len() implies ((#[trigger] post.stage@.nodes[i]).object
                matches Some(o) ==> o < post.objects@.len()) by {
            assert(pre.stage@.nodes[i].object matches Some(o) ==> o < pre.objects@.len());
        }
        assert forall|i: int|
            0 <= i < post.objects@.len() implies match (#[trigger] post.objects@[i]).role {
            RoleModel::Stage(d) => {
                &&& d.display_object < post.stage@.nodes.len()
                &&& forall|j: int|
                    0 <= j < d.text_field_bindings.len()
                        ==> (#[trigger] d.text_field_bindings[j]).0 < post.stage@.nodes.len()
            },
            _ => true,
        } by {
            assert(post.objects@[i].role == pre.objects@[i].role);
            assert(match pre.objects@[i].role {
                RoleModel::Stage(d) => {
                    &&& d.display_object < pre.stage@.nodes.len()
                    &&& forall|j: int|
                        0 <= j < d.text_field_bindings.len()
                            ==> (#[trigger] d.text_field_bindings[j]).0 < pre.stage@.nodes.len()
                },
                _ => true,
            });
        }
    }

    /// Look a shared object up in the session cache.
    pub fn cached_shared_object(&self, name: &str) -> (r: Option<usize>)
        ensures
            match r {
                Some(id) => spec_cached(self.cache(), name@) == Some(id as int),
                None => spec_cached(self.cache(), name@) is None,
            },
            (self.wf() && r is Some) ==> r.unwrap() < self.objects@.len(),
    {
        let ghost cache = self.cache();
        let n = self.shared_objects.len();
        let mut i: usize = 0;
        proof {
            assert(cache.skip(0) =~= cache);
        }
        while i < n
            invariant
                cache == self.cache(),
                n == cache.len(),
                i <= n,
                spec_cached(cache, name@) == spec_cached(cache.skip(i as int), name@),
            decreases n - i,
        {
            proof {
                assert(cache.skip(i as int)[0] == cache[i as int]);
                assert(cache.skip(i as int).drop_first() =~= cache.skip(i as int + 1));
            }
            if crate::text::names_equal(self.shared_objects[i].0.as_str(), name, true) {
                assert(self.shared_objects@[i as int].0@ == name@);
                return Some(self.shared_objects[i].1);
            }
            i = i + 1;
        }
        proof {
            assert(cache.skip(n as int) =~= Seq::<(Seq<char>, int)>::empty());
        }
        None
    }
}

/// Registering a fresh name in the cache makes every later fetch of that
/// name in the session answer with the same handle: two fetches observe one
/// object, so mutations through either are seen through both.
pub proof fn lemma_cache_registration(cache: Seq<(Seq<char>, int)>, name: Seq<char>, id: int)
    requires
        spec_cached(cache, name) is None,
    ensures
        spec_cached(cache.push((name, id)), name) == Some(id),
    decreases cache.len(),
{
    if cache.len() == 0 {
        assert(cache.push((name, id))[0] == (name, id));
        assert(cache.push((name, id)).len() == 1);
    } else {
        assert(cache.push((name, id))[0] == cache[0]);
        assert(cache.push((name, id)).drop_first() =~= cache.drop_first().push((name, id)));
        lemma_cache_registration(cache.drop_first(), name, id);
    }
}

/// Start a session: an empty world, the base object and function
/// prototypes, the shared-object prototype with its methods, and the
/// special-property registry.
pub fn new_session(case_sensitive: bool) -> (r: (Avm1, UpdateContext))
    ensures
        r.1.wf(),
        r.0.case_sensitive == case_sensitive,
        r.0.display_properties@ == crate::display_props::spec_registry(),
        r.0.prototypes.object < r.1.objects@.len(),
        r.0.prototypes.function < r.1.objects@.len(),
        r.0.prototypes.shared_object < r.1.objects@.len(),
        r.1.objects@[r.0.prototypes.shared_object as int].role is Shared,
        r.1.stage@.nodes == Seq::<crate::display::NodeModel>::empty(),
        r.1.storage@ == Seq::<(Seq<char>, Seq<char>)>::empty(),
        r.1.cache() == Seq::<(Seq<char>, int)>::empty(),
{
    let mut context = UpdateContext::new();
    let ghost ctx0 = context;
    let object_proto = context.objects.add_obj(
        crate::object::Obj {
            base: crate::object::ScriptObject::object(None),
            role: crate::object::Role::Plain,
        },
    );
    proof {
        assert(context.objects@ =~= ctx0.objects@.push(context.objects@[object_proto as int]));
        assert(store_wf(context.objects@)) by {
            assert(context.objects@.len() == 1);
        }
        assert(context.cache() == ctx0.cache());
        assert(context.wf());
    }
    let ghost ctx1 = context;
    let function_proto = context.objects.add_obj(
        crate::object::Obj {
            base: crate::object::ScriptObject::object(Some(object_proto)),
            role: crate::object::Role::Plain,
        },
    );
    proof {
        assert(store_wf(context.objects@)) by {
            assert forall|i: int| 0 <= i < context.objects@.len() implies {
                let m = #[trigger] context.objects@[i];
                &&& (m.base.proto matches Some(p) ==> 0 <= p < context.objects@.len())
                &&& (forall|j: int, k: int|
                    0 <= j < k < m.base.props.len() ==> m.base.props[j].0 != m.base.props[k].0)
                &&& (forall|j: int|
                    0 <= j < m.base.props.len() ==> ((#[trigger] m.base.props[j]).1.value matches
                    crate::value::ValueModel::Object(o) ==> 0 <= o < context.objects@.len()))
            } by {
                if i < ctx1.objects@.len() {
                    assert(context.objects@[i] == ctx1.objects@[i]);
                }
            }
        }
        assert(context.cache() == ctx1.cache());
        assert(context.wf());
    }
    let shared_object_proto = crate::shared_object::create_proto(
        &mut context,
        object_proto,
        function_proto,
    );
    let avm = Avm1 {
        display_properties: DisplayPropertyMap::new(),
        case_sensitive,
        prototypes: Prototypes {
            object: object_proto,
            function: function_proto,
            shared_object: shared_object_proto,
        },
    };
    (avm, context)
}

} // verus!
