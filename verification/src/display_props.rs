//! The special-property registry: the fixed table of tree-node properties
//! (geometry, visibility, quality flags) that stage-bound objects consult
//! beside their own property bags.
//!
//! The registration order is load-bearing: it defines the indices used by
//! the VM's numeric property-access opcode.

use vstd::prelude::*;
use crate::context::{Avm1, UpdateContext};
use crate::display::NodeModel;
use crate::table::{PropertyTable, table_find};
use crate::text::spec_parse_i64;
use crate::value::{Number, Value, ValueModel, spec_coerce_to_string};

verus! {

/// The special properties, in their fixed registration order.
#[derive(Clone, Copy, PartialEq, Eq, Structural, Debug)]
pub enum PropertyKind {
    X,
    Y,
    XScale,
    YScale,
    CurrentFrame,
    TotalFrames,
    Alpha,
    Visible,
    Width,
    Height,
    Rotation,
    Target,
    FramesLoaded,
    InstanceName,
    DropTarget,
    Url,
    HighQuality,
    FocusRect,
    SoundBufTime,
    Quality,
    XMouse,
    YMouse,
}

/// One registry entry: which property it is, and whether writes do anything.
#[derive(Clone, Copy, PartialEq, Eq, Structural, Debug)]
pub struct DisplayProperty {
    pub kind: PropertyKind,
    pub has_setter: bool,
}

impl View for DisplayProperty {
    type V = DisplayProperty;

    open spec fn view(&self) -> DisplayProperty {
        *self
    }
}

/// The number a value written to a numeric special property coerces to.
/// Undefined, null, non-finite numbers, objects, and text that is not a
/// decimal integer all yield nothing, and such a write is discarded.
pub open spec fn spec_coerce_prop_number(v: ValueModel) -> Option<i64> {
    match v {
        ValueModel::Undefined => None,
        ValueModel::Null => None,
        ValueModel::Bool(b) => Some(
            if b {
                1i64
            } else {
                0i64
            },
        ),
        ValueModel::Number(Number::Finite(n)) => Some(n),
        ValueModel::Number(_) => None,
        ValueModel::Text(s) => spec_parse_i64(s),
        ValueModel::Object(_) => None,
    }
}

/// Coerce a written value to a number the way the legacy numeric setters do;
/// a value with no finite number is reported as nothing and the write is
/// then discarded.
pub fn property_coerce_to_number(value: &Value) -> (r: Option<i64>)
    ensures
        r == spec_coerce_prop_number(value@),
{
    match value {
        Value::Undefined => None,
        Value::Null => None,
        Value::Bool(b) => Some(
            if *b {
                1
            } else {
                0
            },
        ),
        Value::Number(Number::Finite(n)) => Some(*n),
        Value::Number(_) => None,
        Value::Text(s) => crate::text::parse_i64(s.as_str()),
        Value::Object(_) => None,
    }
}

/// The truncated remainder of a degree count by a full turn.
pub open spec fn trunc_rem_360(d: int) -> int {
    if d >= 0 {
        d % 360
    } else {
        -((-d) % 360)
    }
}

/// Degrees normalized into the half-open range just above -180 up to 180.
pub open spec fn spec_normalize_deg(d: int) -> int {
    let t = trunc_rem_360(d);
    if t <= -180 {
        t + 360
    } else if t > 180 {
        t - 360
    } else {
        t
    }
}

/// Normalize a degree count into the range just above -180 up to 180.
pub fn normalize_degrees(d: i64) -> (r: i64)
    ensures
        r == spec_normalize_deg(d as int),
        -180 < r <= 180,
{
    let mag: u128 = if d >= 0 {
        d as u128
    } else {
        (-(d as i128)) as u128
    };
    let rem: u64 = (mag % 360) as u64;
    let t: i64 = if d >= 0 {
        rem as i64
    } else {
        -(rem as i64)
    };
    assert(t == trunc_rem_360(d as int));
    if t <= -180 {
        t + 360
    } else if t > 180 {
        t - 360
    } else {
        t
    }
}

/// Clamp a pixel distance into the script number range.
pub open spec fn clamp_i64(v: int) -> i64 {
    if v < i64::MIN {
        i64::MIN
    } else if v > i64::MAX {
        i64::MAX
    } else {
        v as i64
    }
}

/// What reading a special property yields, as a function of the node and the
/// pointer position.
pub open spec fn spec_prop_get(
    kind: PropertyKind,
    node: NodeModel,
    mouse_x: i64,
    mouse_y: i64,
) -> ValueModel {
    match kind {
        PropertyKind::X => ValueModel::Number(Number::Finite(node.x)),
        PropertyKind::Y => ValueModel::Number(Number::Finite(node.y)),
        PropertyKind::XScale => ValueModel::Number(
            Number::Finite((node.scale_x_frac as int / 10000) as i64),
        ),
        PropertyKind::YScale => ValueModel::Number(
            Number::Finite((node.scale_y_frac as int / 10000) as i64),
        ),
        PropertyKind::CurrentFrame => match node.movie_clip {
            Some(mc) => ValueModel::Number(Number::Finite(mc.current_frame as i64)),
            None => ValueModel::Undefined,
        },
        PropertyKind::TotalFrames => match node.movie_clip {
            Some(mc) => ValueModel::Number(Number::Finite(mc.total_frames as i64)),
            None => ValueModel::Undefined,
        },
        PropertyKind::Alpha => ValueModel::Number(
            Number::Finite((node.alpha_frac as int / 10000) as i64),
        ),
        PropertyKind::Visible => ValueModel::Bool(node.visible),
        PropertyKind::Width => ValueModel::Number(Number::Finite(node.width)),
        PropertyKind::Height => ValueModel::Number(Number::Finite(node.height)),
        PropertyKind::Rotation => ValueModel::Number(Number::Finite(node.rotation_deg)),
        PropertyKind::Target => ValueModel::Text(node.path),
        PropertyKind::FramesLoaded => match node.movie_clip {
            Some(mc) => ValueModel::Number(Number::Finite(mc.frames_loaded as i64)),
            None => ValueModel::Undefined,
        },
        PropertyKind::InstanceName => ValueModel::Text(node.name),
        PropertyKind::DropTarget => ValueModel::Text(Seq::empty()),
        PropertyKind::Url => ValueModel::Text(Seq::empty()),
        PropertyKind::HighQuality => ValueModel::Number(Number::Finite(1)),
        PropertyKind::FocusRect => ValueModel::Null,
        PropertyKind::SoundBufTime => ValueModel::Number(Number::Finite(5)),
        PropertyKind::Quality => ValueModel::Text("HIGH"@),
        PropertyKind::XMouse => ValueModel::Number(Number::Finite(clamp_i64(mouse_x - node.x))),
        PropertyKind::YMouse => ValueModel::Number(Number::Finite(clamp_i64(mouse_y - node.y))),
    }
}

/// What writing a special property leaves the node holding. Numeric setters
/// discard writes whose value coerces to no finite number; scale and opacity
/// setters convert the written percent into the internal fraction; the
/// rotation setter normalizes; read-only and placeholder entries leave the
/// node unchanged.
pub open spec fn spec_prop_set(kind: PropertyKind, node: NodeModel, v: ValueModel) -> NodeModel {
    match kind {
        PropertyKind::X => match spec_coerce_prop_number(v) {
            Some(n) => NodeModel { x: n, ..node },
            None => node,
        },
        PropertyKind::Y => match spec_coerce_prop_number(v) {
            Some(n) => NodeModel { y: n, ..node },
            None => node,
        },
        PropertyKind::XScale => match spec_coerce_prop_number(v) {
            Some(p) => NodeModel { scale_x_frac: (p * 10000) as i128, ..node },
            None => node,
        },
        PropertyKind::YScale => match spec_coerce_prop_number(v) {
            Some(p) => NodeModel { scale_y_frac: (p * 10000) as i128, ..node },
            None => node,
        },
        PropertyKind::Alpha => match spec_coerce_prop_number(v) {
            Some(p) => NodeModel { alpha_frac: (p * 10000) as i128, ..node },
            None => node,
        },
        PropertyKind::Visible => match spec_coerce_prop_number(v) {
            Some(n) => NodeModel { visible: n != 0, ..node },
            None => node,
        },
        PropertyKind::Width => match spec_coerce_prop_number(v) {
            Some(n) => NodeModel { width: n, ..node },
            None => node,
        },
        PropertyKind::Height => match spec_coerce_prop_number(v) {
            Some(n) => NodeModel { height: n, ..node },
            None => node,
        },
        PropertyKind::Rotation => match spec_coerce_prop_number(v) {
            Some(d) => NodeModel { rotation_deg: spec_normalize_deg(d as int) as i64, ..node },
            None => node,
        },
        PropertyKind::InstanceName => NodeModel { name: spec_coerce_to_string(v), ..node },
        _ => node,
    }
}

/// A write of any value keeps the node well formed.
pub proof fn lemma_prop_set_wf(kind: PropertyKind, node: NodeModel, v: ValueModel)
    requires
        node.wf(),
    ensures
        spec_prop_set(kind, node, v).wf(),
{
    match spec_coerce_prop_number(v) {
        Some(p) => {
            assert((p as int) * 10000 % 10000 == 0) by (nonlinear_arith);
            assert((i64::MIN as int) * 10000 <= (p as int) * 10000 <= (i64::MAX as int) * 10000)
                by (nonlinear_arith)
                requires
                    i64::MIN <= p <= i64::MAX,
            ;
        },
        None => {},
    }
}

/// Everything in the context but one tree node is untouched, and that node
/// now holds the given model.
pub open spec fn node_write(
    pre: UpdateContext,
    post: UpdateContext,
    id: int,
    n: NodeModel,
) -> bool {
    &&& post.stage@.nodes == pre.stage@.nodes.update(id, n)
    &&& post.stage@.levels == pre.stage@.levels
    &&& post.objects == pre.objects
    &&& post.storage == pre.storage
    &&& post.shared_objects == pre.shared_objects
    &&& post.unbound_text_fields == pre.unbound_text_fields
    &&& post.mouse_x == pre.mouse_x
    &&& post.mouse_y == pre.mouse_y
}

/// The shape every special-property setter's contract shares: the addressed
/// node holds what `spec_prop_set` says and nothing else moved.
pub open spec fn setter_post(
    kind: PropertyKind,
    pre: UpdateContext,
    post: UpdateContext,
    this: int,
    v: ValueModel,
) -> bool {
    node_write(pre, post, this, spec_prop_set(kind, pre.stage@.nodes[this], v))
}

/// A context stays well formed after one node is replaced by a well-formed
/// node with the same children and object reference.
pub proof fn lemma_ctx_wf_after_node_write(pre: UpdateContext, post: UpdateContext, id: int)
    requires
        pre.wf(),
        0 <= id < pre.stage@.nodes.len(),
        post.stage@.nodes == pre.stage@.nodes.update(
            id,
            post.stage@.nodes[id],
        ),
        post.stage@.nodes[id].wf(),
        post.stage@.nodes[id].children == pre.stage@.nodes[id].children,
        post.stage@.nodes[id].object == pre.stage@.nodes[id].object,
        post.stage@.levels == pre.stage@.levels,
        post.objects == pre.objects,
        post.storage == pre.storage,
        post.shared_objects == pre.shared_objects,
    ensures
        post.wf(),
{
    assert forall|i: int, j: int|
        0 <= i < post.stage@.nodes.len() && 0 <= j < post.stage@.nodes[i].children.len()
            implies (#[trigger] post.stage@.nodes[i].children[j]) < post.stage@.nodes.len() by {
        if i != id {
            assert(post.stage@.nodes[i] == pre.stage@.nodes[i]);
        }
    }
    assert forall|i: int| 0 <= i < post.stage@.nodes.len() implies (
    #[trigger] post.stage@.nodes[i]).wf() by {
        if i != id {
            assert(post.stage@.nodes[i] == pre.stage@.nodes[i]);
        }
    }
    assert forall|i: int| 0 <= i < post.stage@.nodes.len() implies ((
    #[trigger] post.stage@.nodes[i]).object matches Some(o) ==> o < post.objects@.len()) by {
        if i != id {
            assert(post.stage@.nodes[i] == pre.stage@.nodes[i]);
        }
    }
    assert(post.cache() == pre.cache());
}


/// Horizontal position, pixels.
pub fn x(_avm: &Avm1, context: &UpdateContext, this: usize) -> (r: Value)
    requires
        context.wf(),
        this < context.stage@.nodes.len(),
    ensures
        r@ == spec_prop_get(PropertyKind::X, context.stage@.nodes[this as int], context.mouse_x, context.mouse_y),
{
    Value::Number(Number::Finite(context.stage.nodes[this].x))
}


/// Vertical position, pixels.
pub fn y(_avm: &Avm1, context: &UpdateContext, this: usize) -> (r: Value)
    requires
        context.wf(),
        this < context.stage@.nodes.len(),
    ensures
        r@ == spec_prop_get(PropertyKind::Y, context.stage@.nodes[this as int], context.mouse_x, context.mouse_y),
{
    Value::Number(Number::Finite(context.stage.nodes[this].y))
}


/// Horizontal scale as a percent of the internal fraction.
pub fn x_scale(_avm: &Avm1, context: &UpdateContext, this: usize) -> (r: Value)
    requires
        context.wf(),
        this < context.stage@.nodes.len(),
    ensures
        r@ == spec_prop_get(PropertyKind::XScale, context.stage@.nodes[this as int], context.mouse_x, context.mouse_y),
{
    let frac: i128 = context.stage.nodes[this].scale_x_frac;
    assert(context.stage@.nodes[this as int].wf());
    assert(crate::display::frac_wf(frac as int));
    let p: i64 = (frac / 10000) as i64;
    Value::Number(Number::Finite(p))
}


/// Vertical scale as a percent of the internal fraction.
pub fn y_scale(_avm: &Avm1, context: &UpdateContext, this: usize) -> (r: Value)
    requires
        context.wf(),
        this < context.stage@.nodes.len(),
    ensures
        r@ == spec_prop_get(PropertyKind::YScale, context.stage@.nodes[this as int], context.mouse_x, context.mouse_y),
{
    let frac: i128 = context.stage.nodes[this].scale_y_frac;
    assert(context.stage@.nodes[this as int].wf());
    assert(crate::display::frac_wf(frac as int));
    let p: i64 = (frac / 10000) as i64;
    Value::Number(Number::Finite(p))
}


/// Current frame of a movie-clip node; undefined on other nodes.
pub fn current_frame(_avm: &Avm1, context: &UpdateContext, this: usize) -> (r: Value)
    requires
        context.wf(),
        this < context.stage@.nodes.len(),
    ensures
        r@ == spec_prop_get(PropertyKind::CurrentFrame, context.stage@.nodes[this as int], context.mouse_x, context.mouse_y),
{
    match context.stage.nodes[this].movie_clip {
        Some(mc) => Value::Number(Number::Finite(mc.current_frame as i64)),
        None => Value::Undefined,
    }
}


/// Total frame count of a movie-clip node; undefined on other nodes.
pub fn total_frames(_avm: &Avm1, context: &UpdateContext, this: usize) -> (r: Value)
    requires
        context.wf(),
        this < context.stage@.nodes.len(),
    ensures
        r@ == spec_prop_get(PropertyKind::TotalFrames, context.stage@.nodes[this as int], context.mouse_x, context.mouse_y),
{
    match context.stage.nodes[this].movie_clip {
        Some(mc) => Value::Number(Number::Finite(mc.total_frames as i64)),
        None => Value::Undefined,
    }
}


/// Opacity as a percent of the internal fraction.
pub fn alpha(_avm: &Avm1, context: &UpdateContext, this: usize) -> (r: Value)
    requires
        context.wf(),
        this < context.stage@.nodes.len(),
    ensures
        r@ == spec_prop_get(PropertyKind::Alpha, context.stage@.nodes[this as int], context.mouse_x, context.mouse_y),
{
    let frac: i128 = context.stage.nodes[this].alpha_frac;
    assert(context.stage@.nodes[this as int].wf());
    assert(crate::display::frac_wf(frac as int));
    let p: i64 = (frac / 10000) as i64;
    Value::Number(Number::Finite(p))
}


/// Whether the node is shown.
pub fn visible(_avm: &Avm1, context: &UpdateContext, this: usize) -> (r: Value)
    requires
        context.wf(),
        this < context.stage@.nodes.len(),
    ensures
        r@ == spec_prop_get(PropertyKind::Visible, context.stage@.nodes[this as int], context.mouse_x, context.mouse_y),
{
    Value::Bool(context.stage.nodes[this].visible)
}


/// Width, pixels.
pub fn width(_avm: &Avm1, context: &UpdateContext, this: usize) -> (r: Value)
    requires
        context.wf(),
        this < context.stage@.nodes.len(),
    ensures
        r@ == spec_prop_get(PropertyKind::Width, context.stage@.nodes[this as int], context.mouse_x, context.mouse_y),
{
    Value::Number(Number::Finite(context.stage.nodes[this].width))
}


/// Height, pixels.
pub fn height(_avm: &Avm1, context: &UpdateContext, this: usize) -> (r: Value)
    requires
        context.wf(),
        this < context.stage@.nodes.len(),
    ensures
        r@ == spec_prop_get(PropertyKind::Height, context.stage@.nodes[this as int], context.mouse_x, context.mouse_y),
{
    Value::Number(Number::Finite(context.stage.nodes[this].height))
}


/// Rotation in degrees.
pub fn rotation(_avm: &Avm1, context: &UpdateContext, this: usize) -> (r: Value)
    requires
        context.wf(),
        this < context.stage@.nodes.len(),
    ensures
        r@ == spec_prop_get(PropertyKind::Rotation, context.stage@.nodes[this as int], context.mouse_x, context.mouse_y),
{
    Value::Number(Number::Finite(context.stage.nodes[this].rotation_deg))
}


/// The node's slash-syntax target path.
pub fn target(_avm: &Avm1, context: &UpdateContext, this: usize) -> (r: Value)
    requires
        context.wf(),
        this < context.stage@.nodes.len(),
    ensures
        r@ == spec_prop_get(PropertyKind::Target, context.stage@.nodes[this as int], context.mouse_x, context.mouse_y),
{
    Value::Text(context.stage.nodes[this].path.clone())
}


/// Loaded frame count of a movie-clip node; undefined on other nodes.
pub fn frames_loaded(_avm: &Avm1, context: &UpdateContext, this: usize) -> (r: Value)
    requires
        context.wf(),
        this < context.stage@.nodes.len(),
    ensures
        r@ == spec_prop_get(PropertyKind::FramesLoaded, context.stage@.nodes[this as int], context.mouse_x, context.mouse_y),
{
    match context.stage.nodes[this].movie_clip {
        Some(mc) => Value::Number(Number::Finite(mc.frames_loaded as i64)),
        None => Value::Undefined,
    }
}


/// The node's instance name.
pub fn name(_avm: &Avm1, context: &UpdateContext, this: usize) -> (r: Value)
    requires
        context.wf(),
        this < context.stage@.nodes.len(),
    ensures
        r@ == spec_prop_get(PropertyKind::InstanceName, context.stage@.nodes[this as int], context.mouse_x, context.mouse_y),
{
    Value::Text(context.stage.nodes[this].name.clone())
}


/// Placeholder getter: a fixed default stands in for the unimplemented
/// property.
pub fn drop_target(_avm: &Avm1, context: &UpdateContext, this: usize) -> (r: Value)
    requires
        context.wf(),
        this < context.stage@.nodes.len(),
    ensures
        r@ == spec_prop_get(PropertyKind::DropTarget, context.stage@.nodes[this as int], context.mouse_x, context.mouse_y),
{
    proof { reveal_strlit(""); }
    let r = Value::Text(String::new());
    proof { assert(r@ == (ValueModel::Text(Seq::empty()))); }
    r
}


/// Placeholder getter: a fixed default stands in for the unimplemented
/// property.
pub fn url(_avm: &Avm1, context: &UpdateContext, this: usize) -> (r: Value)
    requires
        context.wf(),
        this < context.stage@.nodes.len(),
    ensures
        r@ == spec_prop_get(PropertyKind::Url, context.stage@.nodes[this as int], context.mouse_x, context.mouse_y),
{
    proof { reveal_strlit(""); }
    let r = Value::Text(String::new());
    proof { assert(r@ == (ValueModel::Text(Seq::empty()))); }
    r
}


/// Placeholder getter: a fixed default stands in for the unimplemented
/// property.
pub fn high_quality(_avm: &Avm1, context: &UpdateContext, this: usize) -> (r: Value)
    requires
        context.wf(),
        this < context.stage@.nodes.len(),
    ensures
        r@ == spec_prop_get(PropertyKind::HighQuality, context.stage@.nodes[this as int], context.mouse_x, context.mouse_y),
{
    Value::Number(Number::Finite(1))
}


/// Placeholder getter: a fixed default stands in for the unimplemented
/// property.
pub fn focus_rect(_avm: &Avm1, context: &UpdateContext, this: usize) -> (r: Value)
    requires
        context.wf(),
        this < context.stage@.nodes.len(),
    ensures
        r@ == spec_prop_get(PropertyKind::FocusRect, context.stage@.nodes[this as int], context.mouse_x, context.mouse_y),
{
    Value::Null
}


/// Placeholder getter: a fixed default stands in for the unimplemented
/// property.
pub fn sound_buf_time(_avm: &Avm1, context: &UpdateContext, this: usize) -> (r: Value)
    requires
        context.wf(),
        this < context.stage@.nodes.len(),
    ensures
        r@ == spec_prop_get(PropertyKind::SoundBufTime, context.stage@.nodes[this as int], context.mouse_x, context.mouse_y),
{
    Value::Number(Number::Finite(5))
}


/// Placeholder getter: a fixed default stands in for the unimplemented
/// property.
pub fn quality(_avm: &Avm1, context: &UpdateContext, this: usize) -> (r: Value)
    requires
        context.wf(),
        this < context.stage@.nodes.len(),
    ensures
        r@ == spec_prop_get(PropertyKind::Quality, context.stage@.nodes[this as int], context.mouse_x, context.mouse_y),
{
    proof { reveal_strlit("HIGH"); }
    Value::Text(String::from_str("HIGH"))
}


/// Pointer horizontal position in the node's local coordinate space, pixels.
pub fn x_mouse(_avm: &Avm1, context: &UpdateContext, this: usize) -> (r: Value)
    requires
        context.wf(),
        this < context.stage@.nodes.len(),
    ensures
        r@ == spec_prop_get(PropertyKind::XMouse, context.stage@.nodes[this as int], context.mouse_x, context.mouse_y),
{
    let d: i128 = (context.mouse_x as i128) - (context.stage.nodes[this].x as i128);
    let local: i64 = if d < i64::MIN as i128 {
        i64::MIN
    } else if d > i64::MAX as i128 {
        i64::MAX
    } else {
        d as i64
    };
    Value::Number(Number::Finite(local))
}


/// Pointer vertical position in the node's local coordinate space, pixels.
pub fn y_mouse(_avm: &Avm1, context: &UpdateContext, this: usize) -> (r: Value)
    requires
        context.wf(),
        this < context.stage@.nodes.len(),
    ensures
        r@ == spec_prop_get(PropertyKind::YMouse, context.stage@.nodes[this as int], context.mouse_x, context.mouse_y),
{
    let d: i128 = (context.mouse_y as i128) - (context.stage.nodes[this].y as i128);
    let local: i64 = if d < i64::MIN as i128 {
        i64::MIN
    } else if d > i64::MAX as i128 {
        i64::MAX
    } else {
        d as i64
    };
    Value::Number(Number::Finite(local))
}


/// Set the horizontal position; a non-finite write is discarded.
pub fn set_x(_avm: &Avm1, context: &mut UpdateContext, this: usize, val: &Value)
    requires
        old(context).wf(),
        this < old(context).stage@.nodes.len(),
    ensures
        final(context).wf(),
        setter_post(PropertyKind::X, *old(context), *final(context), this as int, val@),
{
    let ghost pre = context.stage@.nodes;
    match property_coerce_to_number(val) {
        Some(n) => {
            context.stage.nodes[this].x = n;
            proof {
                assert(context.stage@.nodes =~= pre.update(
                    this as int,
                    spec_prop_set(PropertyKind::X, pre[this as int], val@),
                ));
                lemma_prop_set_wf(
                    PropertyKind::X,
                    pre[this as int],
                    val@,
                );
                lemma_ctx_wf_after_node_write(*old(context), *context, this as int);
            }
        },
        None => {
            proof {
                assert(pre.update(this as int, pre[this as int]) =~= pre);
                assert(context.stage@.nodes =~= pre.update(
                    this as int,
                    spec_prop_set(PropertyKind::X, pre[this as int], val@),
                ));
            }
        },
    }
}


/// Set the vertical position; a non-finite write is discarded.
pub fn set_y(_avm: &Avm1, context: &mut UpdateContext, this: usize, val: &Value)
    requires
        old(context).wf(),
        this < old(context).stage@.nodes.len(),
    ensures
        final(context).wf(),
        setter_post(PropertyKind::Y, *old(context), *final(context), this as int, val@),
{
    let ghost pre = context.stage@.nodes;
    match property_coerce_to_number(val) {
        Some(n) => {
            context.stage.nodes[this].y = n;
            proof {
                assert(context.stage@.nodes =~= pre.update(
                    this as int,
                    spec_prop_set(PropertyKind::Y, pre[this as int], val@),
                ));
                lemma_prop_set_wf(
                    PropertyKind::Y,
                    pre[this as int],
                    val@,
                );
                lemma_ctx_wf_after_node_write(*old(context), *context, this as int);
            }
        },
        None => {
            proof {
                assert(pre.update(this as int, pre[this as int]) =~= pre);
                assert(context.stage@.nodes =~= pre.update(
                    this as int,
                    spec_prop_set(PropertyKind::Y, pre[this as int], val@),
                ));
            }
        },
    }
}


/// Set the horizontal scale from a percent; a non-finite write is discarded.
pub fn set_x_scale(_avm: &Avm1, context: &mut UpdateContext, this: usize, val: &Value)
    requires
        old(context).wf(),
        this < old(context).stage@.nodes.len(),
    ensures
        final(context).wf(),
        setter_post(PropertyKind::XScale, *old(context), *final(context), this as int, val@),
{
    let ghost pre = context.stage@.nodes;
    match property_coerce_to_number(val) {
        Some(n) => {
            context.stage.nodes[this].scale_x_frac = (n as i128) * 10000;
            proof {
                assert(context.stage@.nodes =~= pre.update(
                    this as int,
                    spec_prop_set(PropertyKind::XScale, pre[this as int], val@),
                ));
                lemma_prop_set_wf(
                    PropertyKind::XScale,
                    pre[this as int],
                    val@,
                );
                lemma_ctx_wf_after_node_write(*old(context), *context, this as int);
            }
        },
        None => {
            proof {
                assert(pre.update(this as int, pre[this as int]) =~= pre);
                assert(context.stage@.nodes =~= pre.update(
                    this as int,
                    spec_prop_set(PropertyKind::XScale, pre[this as int], val@),
                ));
            }
        },
    }
}


/// Set the vertical scale from a percent; a non-finite write is discarded.
pub fn set_y_scale(_avm: &Avm1, context: &mut UpdateContext, this: usize, val: &Value)
    requires
        old(context).wf(),
        this < old(context).stage@.nodes.len(),
    ensures
        final(context).wf(),
        setter_post(PropertyKind::YScale, *old(context), *final(context), this as int, val@),
{
    let ghost pre = context.stage@.nodes;
    match property_coerce_to_number(val) {
        Some(n) => {
            context.stage.nodes[this].scale_y_frac = (n as i128) * 10000;
            proof {
                assert(context.stage@.nodes =~= pre.update(
                    this as int,
                    spec_prop_set(PropertyKind::YScale, pre[this as int], val@),
                ));
                lemma_prop_set_wf(
                    PropertyKind::YScale,
                    pre[this as int],
                    val@,
                );
                lemma_ctx_wf_after_node_write(*old(context), *context, this as int);
            }
        },
        None => {
            proof {
                assert(pre.update(this as int, pre[this as int]) =~= pre);
                assert(context.stage@.nodes =~= pre.update(
                    this as int,
                    spec_prop_set(PropertyKind::YScale, pre[this as int], val@),
                ));
            }
        },
    }
}


/// Set the opacity from a percent; a non-finite write is discarded.
pub fn set_alpha(_avm: &Avm1, context: &mut UpdateContext, this: usize, val: &Value)
    requires
        old(context).wf(),
        this < old(context).stage@.nodes.len(),
    ensures
        final(context).wf(),
        setter_post(PropertyKind::Alpha, *old(context), *final(context), this as int, val@),
{
    let ghost pre = context.stage@.nodes;
    match property_coerce_to_number(val) {
        Some(n) => {
            context.stage.nodes[this].alpha_frac = (n as i128) * 10000;
            proof {
                assert(context.stage@.nodes =~= pre.update(
                    this as int,
                    spec_prop_set(PropertyKind::Alpha, pre[this as int], val@),
                ));
                lemma_prop_set_wf(
                    PropertyKind::Alpha,
                    pre[this as int],
                    val@,
                );
                lemma_ctx_wf_after_node_write(*old(context), *context, this as int);
            }
        },
        None => {
            proof {
                assert(pre.update(this as int, pre[this as int]) =~= pre);
                assert(context.stage@.nodes =~= pre.update(
                    this as int,
                    spec_prop_set(PropertyKind::Alpha, pre[this as int], val@),
                ));
            }
        },
    }
}


/// Set visibility; the value is coerced to a number first, so boolean-like text does not coerce the way a boolean would, and a non-finite write is discarded. Zero hides the node, any other number shows it.
pub fn set_visible(_avm: &Avm1, context: &mut UpdateContext, this: usize, val: &Value)
    requires
        old(context).wf(),
        this < old(context).stage@.nodes.len(),
    ensures
        final(context).wf(),
        setter_post(PropertyKind::Visible, *old(context), *final(context), this as int, val@),
{
    let ghost pre = context.stage@.nodes;
    match property_coerce_to_number(val) {
        Some(n) => {
            context.stage.nodes[this].visible = n != 0;
            proof {
                assert(context.stage@.nodes =~= pre.update(
                    this as int,
                    spec_prop_set(PropertyKind::Visible, pre[this as int], val@),
                ));
                lemma_prop_set_wf(
                    PropertyKind::Visible,
                    pre[this as int],
                    val@,
                );
                lemma_ctx_wf_after_node_write(*old(context), *context, this as int);
            }
        },
        None => {
            proof {
                assert(pre.update(this as int, pre[this as int]) =~= pre);
                assert(context.stage@.nodes =~= pre.update(
                    this as int,
                    spec_prop_set(PropertyKind::Visible, pre[this as int], val@),
                ));
            }
        },
    }
}


/// Set the width; a non-finite write is discarded.
pub fn set_width(_avm: &Avm1, context: &mut UpdateContext, this: usize, val: &Value)
    requires
        old(context).wf(),
        this < old(context).stage@.nodes.len(),
    ensures
        final(context).wf(),
        setter_post(PropertyKind::Width, *old(context), *final(context), this as int, val@),
{
    let ghost pre = context.stage@.nodes;
    match property_coerce_to_number(val) {
        Some(n) => {
            context.stage.nodes[this].width = n;
            proof {
                assert(context.stage@.nodes =~= pre.update(
                    this as int,
                    spec_prop_set(PropertyKind::Width, pre[this as int], val@),
                ));
                lemma_prop_set_wf(
                    PropertyKind::Width,
                    pre[this as int],
                    val@,
                );
                lemma_ctx_wf_after_node_write(*old(context), *context, this as int);
            }
        },
        None => {
            proof {
                assert(pre.update(this as int, pre[this as int]) =~= pre);
                assert(context.stage@.nodes =~= pre.update(
                    this as int,
                    spec_prop_set(PropertyKind::Width, pre[this as int], val@),
                ));
            }
        },
    }
}


/// Set the height; a non-finite write is discarded.
pub fn set_height(_avm: &Avm1, context: &mut UpdateContext, this: usize, val: &Value)
    requires
        old(context).wf(),
        this < old(context).stage@.nodes.len(),
    ensures
        final(context).wf(),
        setter_post(PropertyKind::Height, *old(context), *final(context), this as int, val@),
{
    let ghost pre = context.stage@.nodes;
    match property_coerce_to_number(val) {
        Some(n) => {
            context.stage.nodes[this].height = n;
            proof {
                assert(context.stage@.nodes =~= pre.update(
                    this as int,
                    spec_prop_set(PropertyKind::Height, pre[this as int], val@),
                ));
                lemma_prop_set_wf(
                    PropertyKind::Height,
                    pre[this as int],
                    val@,
                );
                lemma_ctx_wf_after_node_write(*old(context), *context, this as int);
            }
        },
        None => {
            proof {
                assert(pre.update(this as int, pre[this as int]) =~= pre);
                assert(context.stage@.nodes =~= pre.update(
                    this as int,
                    spec_prop_set(PropertyKind::Height, pre[this as int], val@),
                ));
            }
        },
    }
}


/// Set the rotation; the written degrees are normalized into the half-open range just above -180 up to 180, and a non-finite write is discarded.
pub fn set_rotation(_avm: &Avm1, context: &mut UpdateContext, this: usize, val: &Value)
    requires
        old(context).wf(),
        this < old(context).stage@.nodes.len(),
    ensures
        final(context).wf(),
        setter_post(PropertyKind::Rotation, *old(context), *final(context), this as int, val@),
{
    let ghost pre = context.stage@.nodes;
    match property_coerce_to_number(val) {
        Some(n) => {
            context.stage.nodes[this].rotation_deg = normalize_degrees(n);
            proof {
                assert(context.stage@.nodes =~= pre.update(
                    this as int,
                    spec_prop_set(PropertyKind::Rotation, pre[this as int], val@),
                ));
                lemma_prop_set_wf(
                    PropertyKind::Rotation,
                    pre[this as int],
                    val@,
                );
                lemma_ctx_wf_after_node_write(*old(context), *context, this as int);
            }
        },
        None => {
            proof {
                assert(pre.update(this as int, pre[this as int]) =~= pre);
                assert(context.stage@.nodes =~= pre.update(
                    this as int,
                    spec_prop_set(PropertyKind::Rotation, pre[this as int], val@),
                ));
            }
        },
    }
}


/// Set the instance name from the written value's text form.
pub fn set_name(_avm: &Avm1, context: &mut UpdateContext, this: usize, val: &Value)
    requires
        old(context).wf(),
        this < old(context).stage@.nodes.len(),
    ensures
        final(context).wf(),
        setter_post(PropertyKind::InstanceName, *old(context), *final(context), this as int, val@),
{
    let ghost pre = context.stage@.nodes;
    let text = val.coerce_to_string();
    context.stage.nodes[this].name = text;
    proof {
        assert(context.stage@.nodes =~= pre.update(
            this as int,
            spec_prop_set(PropertyKind::InstanceName, pre[this as int], val@),
        ));
        lemma_ctx_wf_after_node_write(*old(context), *context, this as int);
    }
}


/// Placeholder setter: the write is accepted and discarded.
pub fn set_high_quality(_avm: &Avm1, context: &mut UpdateContext, this: usize, val: &Value)
    requires
        old(context).wf(),
        this < old(context).stage@.nodes.len(),
    ensures
        final(context).wf(),
        setter_post(PropertyKind::HighQuality, *old(context), *final(context), this as int, val@),
{
    let ghost pre = context.stage@.nodes;
    proof {
        assert(pre.update(this as int, pre[this as int]) =~= pre);
        assert(context.stage@.nodes =~= pre.update(
            this as int,
            spec_prop_set(PropertyKind::HighQuality, pre[this as int], val@),
        ));
    }
}


/// Placeholder setter: the write is accepted and discarded.
pub fn set_focus_rect(_avm: &Avm1, context: &mut UpdateContext, this: usize, val: &Value)
    requires
        old(context).wf(),
        this < old(context).stage@.nodes.len(),
    ensures
        final(context).wf(),
        setter_post(PropertyKind::FocusRect, *old(context), *final(context), this as int, val@),
{
    let ghost pre = context.stage@.nodes;
    proof {
        assert(pre.update(this as int, pre[this as int]) =~= pre);
        assert(context.stage@.nodes =~= pre.update(
            this as int,
            spec_prop_set(PropertyKind::FocusRect, pre[this as int], val@),
        ));
    }
}


/// Placeholder setter: the write is accepted and discarded.
pub fn set_sound_buf_time(_avm: &Avm1, context: &mut UpdateContext, this: usize, val: &Value)
    requires
        old(context).wf(),
        this < old(context).stage@.nodes.len(),
    ensures
        final(context).wf(),
        setter_post(PropertyKind::SoundBufTime, *old(context), *final(context), this as int, val@),
{
    let ghost pre = context.stage@.nodes;
    proof {
        assert(pre.update(this as int, pre[this as int]) =~= pre);
        assert(context.stage@.nodes =~= pre.update(
            this as int,
            spec_prop_set(PropertyKind::SoundBufTime, pre[this as int], val@),
        ));
    }
}


/// Placeholder setter: the write is accepted and discarded.
pub fn set_quality(_avm: &Avm1, context: &mut UpdateContext, this: usize, val: &Value)
    requires
        old(context).wf(),
        this < old(context).stage@.nodes.len(),
    ensures
        final(context).wf(),
        setter_post(PropertyKind::Quality, *old(context), *final(context), this as int, val@),
{
    let ghost pre = context.stage@.nodes;
    proof {
        assert(pre.update(this as int, pre[this as int]) =~= pre);
        assert(context.stage@.nodes =~= pre.update(
            this as int,
            spec_prop_set(PropertyKind::Quality, pre[this as int], val@),
        ));
    }
}


impl DisplayProperty {
    /// Read this special property from the node a stage object is tied to.
    pub fn get(&self, avm: &Avm1, context: &UpdateContext, this: usize) -> (r: Value)
        requires
            context.wf(),
            this < context.stage@.nodes.len(),
        ensures
            r@ == spec_prop_get(
                self.kind,
                context.stage@.nodes[this as int],
                context.mouse_x,
                context.mouse_y,
            ),
    {
        match self.kind {
            PropertyKind::X => x(avm, context, this),
            PropertyKind::Y => y(avm, context, this),
            PropertyKind::XScale => x_scale(avm, context, this),
            PropertyKind::YScale => y_scale(avm, context, this),
            PropertyKind::CurrentFrame => current_frame(avm, context, this),
            PropertyKind::TotalFrames => total_frames(avm, context, this),
            PropertyKind::Alpha => alpha(avm, context, this),
            PropertyKind::Visible => visible(avm, context, this),
            PropertyKind::Width => width(avm, context, this),
            PropertyKind::Height => height(avm, context, this),
            PropertyKind::Rotation => rotation(avm, context, this),
            PropertyKind::Target => target(avm, context, this),
            PropertyKind::FramesLoaded => frames_loaded(avm, context, this),
            PropertyKind::InstanceName => name(avm, context, this),
            PropertyKind::DropTarget => drop_target(avm, context, this),
            PropertyKind::Url => url(avm, context, this),
            PropertyKind::HighQuality => high_quality(avm, context, this),
            PropertyKind::FocusRect => focus_rect(avm, context, this),
            PropertyKind::SoundBufTime => sound_buf_time(avm, context, this),
            PropertyKind::Quality => quality(avm, context, this),
            PropertyKind::XMouse => x_mouse(avm, context, this),
            PropertyKind::YMouse => y_mouse(avm, context, this),
        }
    }

    /// Write this special property on the node a stage object is tied to;
    /// an entry with no registered setter swallows the write silently.
    pub fn set(&self, avm: &Avm1, context: &mut UpdateContext, this: usize, value: &Value)
        requires
            old(context).wf(),
            this < old(context).stage@.nodes.len(),
        ensures
            final(context).wf(),
            self.has_setter ==> setter_post(
                self.kind,
                *old(context),
                *final(context),
                this as int,
                value@,
            ),
            !self.has_setter ==> *final(context) == *old(context),
    {
        if !self.has_setter {
            return ;
        }
        match self.kind {
            PropertyKind::X => set_x(avm, context, this, value),
            PropertyKind::Y => set_y(avm, context, this, value),
            PropertyKind::XScale => set_x_scale(avm, context, this, value),
            PropertyKind::YScale => set_y_scale(avm, context, this, value),
            PropertyKind::Alpha => set_alpha(avm, context, this, value),
            PropertyKind::Visible => set_visible(avm, context, this, value),
            PropertyKind::Width => set_width(avm, context, this, value),
            PropertyKind::Height => set_height(avm, context, this, value),
            PropertyKind::Rotation => set_rotation(avm, context, this, value),
            PropertyKind::InstanceName => set_name(avm, context, this, value),
            PropertyKind::HighQuality => set_high_quality(avm, context, this, value),
            PropertyKind::FocusRect => set_focus_rect(avm, context, this, value),
            PropertyKind::SoundBufTime => set_sound_buf_time(avm, context, this, value),
            PropertyKind::Quality => set_quality(avm, context, this, value),
            _ => {
                // A kind never registered with a setter; nothing to write.
                let ghost pre = context.stage@.nodes;
                proof {
                    assert(pre.update(this as int, pre[this as int]) =~= pre);
                    assert(context.stage@.nodes =~= pre.update(
                        this as int,
                        spec_prop_set(self.kind, pre[this as int], value@),
                    ));
                }
            },
        }
    }
}

/// The registry's fixed contents, in registration order.
pub open spec fn spec_registry() -> Seq<(Seq<char>, DisplayProperty)> {
    seq![
        ("_x"@, DisplayProperty { kind: PropertyKind::X, has_setter: true }),
        ("_y"@, DisplayProperty { kind: PropertyKind::Y, has_setter: true }),
        ("_xscale"@, DisplayProperty { kind: PropertyKind::XScale, has_setter: true }),
        ("_yscale"@, DisplayProperty { kind: PropertyKind::YScale, has_setter: true }),
        ("_currentframe"@, DisplayProperty { kind: PropertyKind::CurrentFrame, has_setter: false }),
        ("_totalframes"@, DisplayProperty { kind: PropertyKind::TotalFrames, has_setter: false }),
        ("_alpha"@, DisplayProperty { kind: PropertyKind::Alpha, has_setter: true }),
        ("_visible"@, DisplayProperty { kind: PropertyKind::Visible, has_setter: true }),
        ("_width"@, DisplayProperty { kind: PropertyKind::Width, has_setter: true }),
        ("_height"@, DisplayProperty { kind: PropertyKind::Height, has_setter: true }),
        ("_rotation"@, DisplayProperty { kind: PropertyKind::Rotation, has_setter: true }),
        ("_target"@, DisplayProperty { kind: PropertyKind::Target, has_setter: false }),
        ("_framesloaded"@, DisplayProperty { kind: PropertyKind::FramesLoaded, has_setter: false }),
        ("_name"@, DisplayProperty { kind: PropertyKind::InstanceName, has_setter: true }),
        ("_droptarget"@, DisplayProperty { kind: PropertyKind::DropTarget, has_setter: false }),
        ("_url"@, DisplayProperty { kind: PropertyKind::Url, has_setter: false }),
        ("_highquality"@, DisplayProperty { kind: PropertyKind::HighQuality, has_setter: true }),
        ("_focusrect"@, DisplayProperty { kind: PropertyKind::FocusRect, has_setter: true }),
        ("_soundbuftime"@, DisplayProperty { kind: PropertyKind::SoundBufTime, has_setter: true }),
        ("_quality"@, DisplayProperty { kind: PropertyKind::Quality, has_setter: true }),
        ("_xmouse"@, DisplayProperty { kind: PropertyKind::XMouse, has_setter: false }),
        ("_ymouse"@, DisplayProperty { kind: PropertyKind::YMouse, has_setter: false }),
    ]
}

/// The registry: the ordered table from special-property names to entries.
pub struct DisplayPropertyMap(PropertyTable<DisplayProperty>);

impl View for DisplayPropertyMap {
    type V = Seq<(Seq<char>, DisplayProperty)>;

    closed spec fn view(&self) -> Seq<(Seq<char>, DisplayProperty)> {
        self.0@
    }
}

impl DisplayPropertyMap {
    /// Build the registry. The order of registration matters: it fixes the
    /// slot indices the numeric property-access opcode uses.
    pub fn new() -> (r: DisplayPropertyMap)
        ensures
            r@ == spec_registry(),
    {
        let mut map = DisplayPropertyMap(PropertyTable::new());
        map.add_property("_x", PropertyKind::X, true);
        map.add_property("_y", PropertyKind::Y, true);
        map.add_property("_xscale", PropertyKind::XScale, true);
        map.add_property("_yscale", PropertyKind::YScale, true);
        map.add_property("_currentframe", PropertyKind::CurrentFrame, false);
        map.add_property("_totalframes", PropertyKind::TotalFrames, false);
        map.add_property("_alpha", PropertyKind::Alpha, true);
        map.add_property("_visible", PropertyKind::Visible, true);
        map.add_property("_width", PropertyKind::Width, true);
        map.add_property("_height", PropertyKind::Height, true);
        map.add_property("_rotation", PropertyKind::Rotation, true);
        map.add_property("_target", PropertyKind::Target, false);
        map.add_property("_framesloaded", PropertyKind::FramesLoaded, false);
        map.add_property("_name", PropertyKind::InstanceName, true);
        map.add_property("_droptarget", PropertyKind::DropTarget, false);
        map.add_property("_url", PropertyKind::Url, false);
        map.add_property("_highquality", PropertyKind::HighQuality, true);
        map.add_property("_focusrect", PropertyKind::FocusRect, true);
        map.add_property("_soundbuftime", PropertyKind::SoundBufTime, true);
        map.add_property("_quality", PropertyKind::Quality, true);
        map.add_property("_xmouse", PropertyKind::XMouse, false);
        map.add_property("_ymouse", PropertyKind::YMouse, false);
        proof {
            assert(map@ =~= spec_registry());
        }
        map
    }

    /// Look an entry up by name. Special properties match case-insensitively
    /// whatever the running VM version's case rule says.
    pub fn get_by_name(&self, name: &str) -> (r: Option<&DisplayProperty>)
        ensures
            match table_find(self@, name@, false) {
                Some(i) => r matches Some(p) && *p == self@[i].1,
                None => r is None,
            },
    {
        self.0.get(name, false)
    }

    /// Look an entry up by its fixed slot index, as the numeric
    /// property-access opcode does.
    pub fn get_by_index(&self, index: usize) -> (r: Option<&DisplayProperty>)
        ensures
            match r {
                Some(p) => index < self@.len() && *p == self@[index as int].1,
                None => index >= self@.len(),
            },
    {
        self.0.get_index(index)
    }

    /// Register one property at the next slot.
    fn add_property(&mut self, name: &str, kind: PropertyKind, has_setter: bool)
        ensures
            final(self)@ == old(self)@.push((name@, DisplayProperty { kind, has_setter })),
    {
        self.0.append(String::from_str(name), DisplayProperty { kind, has_setter });
    }
}


/// For every special property with both a getter and a setter whose value is
/// numeric, writing a finite value inside the property's domain and reading
/// it back yields that value: positions, sizes, scale and opacity percents
/// round-trip exactly, and a rotation round-trips when already normalized
/// (above -180, up to 180). Visibility reads back as a boolean, the name as
/// text, and the placeholder entries discard writes, so they are no numeric
/// round-trips and stay outside this law.
pub proof fn lemma_special_get_after_set(
    kind: PropertyKind,
    node: NodeModel,
    v: i64,
    mouse_x: i64,
    mouse_y: i64,
)
    requires
        node.wf(),
        kind == PropertyKind::X || kind == PropertyKind::Y || kind == PropertyKind::XScale
            || kind == PropertyKind::YScale || kind == PropertyKind::Alpha || kind
            == PropertyKind::Width || kind == PropertyKind::Height || (kind == PropertyKind::Rotation
            && -180 < v <= 180),
    ensures
        spec_prop_get(
            kind,
            spec_prop_set(kind, node, ValueModel::Number(Number::Finite(v))),
            mouse_x,
            mouse_y,
        ) == ValueModel::Number(Number::Finite(v)),
{
    if kind == PropertyKind::XScale || kind == PropertyKind::YScale || kind == PropertyKind::Alpha {
        assert((v as int * 10000) / 10000 == v as int) by (nonlinear_arith);
    }
    if kind == PropertyKind::Rotation {
        assert(spec_normalize_deg(v as int) == v as int) by {
            if v >= 0 {
                assert(v as int % 360 == v as int);
            } else {
                assert((-(v as int)) % 360 == -(v as int));
            }
        }
    }
}

/// Writing a value that coerces to no finite number to a numeric special
/// property leaves the node entirely unchanged: undefined, null, non-finite
/// numbers, objects and non-numeric text are all discarded. The instance
/// name is the one special property set from the value's text form, so it
/// stands outside this law.
pub proof fn lemma_special_set_invalid_ignored(kind: PropertyKind, node: NodeModel, v: ValueModel)
    requires
        spec_coerce_prop_number(v) is None,
        kind != PropertyKind::InstanceName,
    ensures
        spec_prop_set(kind, node, v) == node,
{
}

} // verus!
