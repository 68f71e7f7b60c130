//! The renderable-node tree, modeled as an arena of nodes addressed by
//! stable indices.
//!
//! The tree itself is an external collaborator of the object runtime; this
//! model keeps, as plain values, exactly what the runtime reads and writes
//! through the tree-node protocol: geometry and state fields, instance names,
//! child lists, level roots, and the displayed text of text-rendering nodes.

use vstd::prelude::*;
use crate::text::{fold, name_matches, spec_parse_digits};

verus! {

/// Frame state of a movie-clip node.
#[derive(Clone, Copy, PartialEq, Eq, Structural, Debug)]
pub struct MovieClipState {
    pub current_frame: u16,
    pub total_frames: u16,
    pub frames_loaded: u16,
}

/// One node of the renderable tree.
pub struct DisplayNode {
    /// Instance name.
    pub name: String,
    /// Slash-syntax target path of the node.
    pub path: String,
    /// Horizontal position, pixels.
    pub x: i64,
    /// Vertical position, pixels.
    pub y: i64,
    /// Horizontal scale, a fraction of 1 in millionths.
    pub scale_x_frac: i128,
    /// Vertical scale, a fraction of 1 in millionths.
    pub scale_y_frac: i128,
    /// Opacity, a fraction of 1 in millionths.
    pub alpha_frac: i128,
    /// Whether the node is shown.
    pub visible: bool,
    /// Width, pixels.
    pub width: i64,
    /// Height, pixels.
    pub height: i64,
    /// Rotation, degrees.
    pub rotation_deg: i64,
    /// Frame state, for movie-clip nodes only.
    pub movie_clip: Option<MovieClipState>,
    /// Children, ordered from highest depth to lowest.
    pub children: Vec<usize>,
    /// The script object bound to this node, if one exists.
    pub object: Option<usize>,
    /// Displayed text, for text-rendering nodes.
    pub text: String,
    /// Whether this is a text-rendering node.
    pub is_text_field: bool,
    /// Whether a stage object currently holds a binding to this text node.
    pub bound_to_object: bool,
}

/// The mathematical model of a node.
pub struct NodeModel {
    pub name: Seq<char>,
    pub path: Seq<char>,
    pub x: i64,
    pub y: i64,
    pub scale_x_frac: i128,
    pub scale_y_frac: i128,
    pub alpha_frac: i128,
    pub visible: bool,
    pub width: i64,
    pub height: i64,
    pub rotation_deg: i64,
    pub movie_clip: Option<MovieClipState>,
    pub children: Seq<usize>,
    pub object: Option<usize>,
    pub text: Seq<char>,
    pub is_text_field: bool,
    pub bound_to_object: bool,
}

impl View for DisplayNode {
    type V = NodeModel;

    open spec fn view(&self) -> NodeModel {
        NodeModel {
            name: self.name@,
            path: self.path@,
            x: self.x,
            y: self.y,
            scale_x_frac: self.scale_x_frac,
            scale_y_frac: self.scale_y_frac,
            alpha_frac: self.alpha_frac,
            visible: self.visible,
            width: self.width,
            height: self.height,
            rotation_deg: self.rotation_deg,
            movie_clip: self.movie_clip,
            children: self.children@,
            object: self.object,
            text: self.text@,
            is_text_field: self.is_text_field,
            bound_to_object: self.bound_to_object,
        }
    }
}

/// A fraction field is well formed: a whole number of percent units, small
/// enough that the percent value fits the script number range.
pub open spec fn frac_wf(f: int) -> bool {
    f % 10000 == 0 && (i64::MIN as int) * 10000 <= f <= (i64::MAX as int) * 10000
}

impl NodeModel {
    /// The node's internal fractions stay convertible to script percents.
    pub open spec fn wf(&self) -> bool {
        frac_wf(self.scale_x_frac as int) && frac_wf(self.scale_y_frac as int) && frac_wf(
            self.alpha_frac as int,
        )
    }
}

impl DisplayNode {
    /// A fresh node with neutral geometry: unit scale, full opacity, shown.
    pub fn new(name: String, path: String) -> (r: DisplayNode)
        ensures
            r@.wf(),
            r@ == (NodeModel {
                name: name@,
                path: path@,
                x: 0,
                y: 0,
                scale_x_frac: 1000000,
                scale_y_frac: 1000000,
                alpha_frac: 1000000,
                visible: true,
                width: 0,
                height: 0,
                rotation_deg: 0,
                movie_clip: None,
                children: Seq::empty(),
                object: None,
                text: Seq::empty(),
                is_text_field: false,
                bound_to_object: false,
            }),
    {
        let r = DisplayNode {
            name,
            path,
            x: 0,
            y: 0,
            scale_x_frac: 1000000,
            scale_y_frac: 1000000,
            alpha_frac: 1000000,
            visible: true,
            width: 0,
            height: 0,
            rotation_deg: 0,
            movie_clip: None,
            children: Vec::new(),
            object: None,
            text: String::new(),
            is_text_field: false,
            bound_to_object: false,
        };
        proof {
            assert(r.children@ =~= Seq::<usize>::empty());
            assert(r@.children =~= Seq::<usize>::empty());
            assert(r@.text =~= Seq::<char>::empty());
        }
        r
    }
}

/// The renderable tree: an arena of nodes and the numbered level roots.
pub struct Stage {
    /// All nodes; indices are stable handles.
    pub nodes: Vec<DisplayNode>,
    /// The level roots: level number paired with the node it roots.
    pub levels: Vec<(u64, usize)>,
}

/// The mathematical model of the tree.
pub struct StageModel {
    pub nodes: Seq<NodeModel>,
    pub levels: Seq<(u64, usize)>,
}

impl View for Stage {
    type V = StageModel;

    open spec fn view(&self) -> StageModel {
        StageModel {
            nodes: self.nodes@.map_values(|n: DisplayNode| n@),
            levels: self.levels@,
        }
    }
}

/// The id of the first level root carrying the given number.
pub open spec fn spec_level_lookup(levels: Seq<(u64, usize)>, n: u64) -> Option<usize>
    decreases levels.len(),
{
    if levels.len() == 0 {
        None
    } else if levels[0].0 == n {
        Some(levels[0].1)
    } else {
        spec_level_lookup(levels.drop_first(), n)
    }
}

/// The id of the first child (in depth order) whose name matches.
pub open spec fn spec_child_by_name(
    nodes: Seq<NodeModel>,
    children: Seq<usize>,
    name: Seq<char>,
    case_sensitive: bool,
) -> Option<usize>
    decreases children.len(),
{
    if children.len() == 0 {
        None
    } else if children[0] < nodes.len() && name_matches(
        nodes[children[0] as int].name,
        name,
        case_sensitive,
    ) {
        Some(children[0])
    } else {
        spec_child_by_name(nodes, children.drop_first(), name, case_sensitive)
    }
}

/// The level name prefix, lowercased.
pub open spec fn level_prefix() -> Seq<char> {
    "_level"@
}

/// The level number a name addresses: the name must be the level prefix
/// (matched case-insensitively) followed by decimal digits whose value fits
/// the level-number range.
pub open spec fn spec_level_path_number(name: Seq<char>) -> Option<u64> {
    if name.len() > 6 && fold(name.take(6)) == level_prefix() {
        spec_parse_digits(name.skip(6))
    } else {
        None
    }
}

impl StageModel {
    /// Child ids and level ids stay inside the arena, and every node's
    /// fractions stay convertible.
    pub open spec fn wf(&self) -> bool {
        &&& forall|i: int, j: int|
            0 <= i < self.nodes.len() && 0 <= j < self.nodes[i].children.len()
                ==> (#[trigger] self.nodes[i].children[j]) < self.nodes.len()
        &&& forall|i: int|
            0 <= i < self.levels.len() ==> (#[trigger] self.levels[i]).1 < self.nodes.len()
        &&& forall|i: int| 0 <= i < self.nodes.len() ==> (#[trigger] self.nodes[i]).wf()
    }
}

impl Stage {
    /// An empty stage.
    pub fn new() -> (r: Stage)
        ensures
            r@.wf(),
            r@.nodes == Seq::<NodeModel>::empty(),
            r@.levels == Seq::<(u64, usize)>::empty(),
    {
        let r = Stage { nodes: Vec::new(), levels: Vec::new() };
        proof {
            assert(r@.nodes =~= Seq::<NodeModel>::empty());
            assert(r@.levels =~= Seq::<(u64, usize)>::empty());
        }
        r
    }

    /// Add a node; its handle is the previous length.
    pub fn add_node(&mut self, node: DisplayNode) -> (r: usize)
        ensures
            r == old(self)@.nodes.len(),
            final(self)@.nodes == old(self)@.nodes.push(node@),
            final(self)@.levels == old(self)@.levels,
    {
        let ghost pre = self@.nodes;
        let r = self.nodes.len();
        self.nodes.push(node);
        proof {
            assert(self@.nodes =~= pre.push(node@));
        }
        r
    }

    /// Register a node as a level root.
    pub fn add_level(&mut self, number: u64, node: usize)
        ensures
            final(self)@.nodes == old(self)@.nodes,
            final(self)@.levels == old(self)@.levels.push((number, node)),
    {
        let ghost pre = self@.levels;
        self.levels.push((number, node));
        proof {
            assert(self@.levels =~= pre.push((number, node)));
        }
    }

    /// Look a direct child of a node up by instance name.
    pub fn get_child_by_name(&self, parent: usize, name: &str, case_sensitive: bool) -> (r: Option<
        usize,
    >)
        requires
            self@.wf(),
            parent < self@.nodes.len(),
        ensures
            r == spec_child_by_name(
                self@.nodes,
                self@.nodes[parent as int].children,
                name@,
                case_sensitive,
            ),
            r matches Some(id) ==> id < self@.nodes.len(),
    {
        let ghost kids = self@.nodes[parent as int].children;
        let n = self.nodes[parent].children.len();
        let mut i: usize = 0;
        proof {
            assert(kids.skip(0) =~= kids);
        }
        while i < n
            invariant
                self@.wf(),
                parent < self@.nodes.len(),
                kids == self@.nodes[parent as int].children,
                n == kids.len(),
                i <= n,
                spec_child_by_name(self@.nodes, kids, name@, case_sensitive) == spec_child_by_name(
                    self@.nodes,
                    kids.skip(i as int),
                    name@,
                    case_sensitive,
                ),
            decreases n - i,
        {
            let child = self.nodes[parent].children[i];
            assert(child == kids.skip(i as int)[0]);
            if crate::text::names_equal(self.nodes[child].name.as_str(), name, case_sensitive) {
                return Some(child);
            }
            proof {
                assert(kids.skip(i as int).drop_first() =~= kids.skip(i as int + 1));
            }
            i = i + 1;
        }
        proof {
            assert(kids.skip(n as int) =~= Seq::<usize>::empty());
        }
        None
    }

    /// Look a level root up by number.
    pub fn level_by_number(&self, n: u64) -> (r: Option<usize>)
        requires
            self@.wf(),
        ensures
            r == spec_level_lookup(self@.levels, n),
            r matches Some(id) ==> id < self@.nodes.len(),
    {
        let ghost all = self@.levels;
        let count = self.levels.len();
        let mut i: usize = 0;
        proof {
            assert(all.skip(0) =~= all);
        }
        while i < count
            invariant
                self@.wf(),
                all == self@.levels,
                count == all.len(),
                i <= count,
                spec_level_lookup(all, n) == spec_level_lookup(all.skip(i as int), n),
            decreases count - i,
        {
            proof {
                assert(all.skip(i as int)[0] == all[i as int]);
                assert(all.skip(i as int).drop_first() =~= all.skip(i as int + 1));
            }
            if self.levels[i].0 == n {
                return Some(self.levels[i].1);
            }
            i = i + 1;
        }
        proof {
            assert(all.skip(count as int) =~= Seq::<(u64, usize)>::empty());
        }
        None
    }

    /// Resolve a numbered-level path: a name of the form the level prefix
    /// (case-insensitive) followed by the level number in decimal.
    ///
    /// The case rule parameter is accepted for protocol fidelity; the prefix
    /// of a level path is matched case-insensitively either way, as the level
    /// syntax is not an instance name.
    pub fn get_level_by_path(&self, name: &str, _case_sensitive: bool) -> (r: Option<usize>)
        requires
            self@.wf(),
        ensures
            r == match spec_level_path_number(name@) {
                Some(n) => spec_level_lookup(self@.levels, n),
                None => None::<usize>,
            },
            r matches Some(id) ==> id < self@.nodes.len(),
    {
        match parse_level_number(name) {
            Some(n) => self.level_by_number(n),
            None => None,
        }
    }
}

/// Parse the level number out of a level path name.
pub fn parse_level_number(name: &str) -> (r: Option<u64>)
    ensures
        r == spec_level_path_number(name@),
{
    proof {
        reveal_strlit("_level");
    }
    let len = name.unicode_len();
    if len <= 6 {
        return None;
    }
    // Check the prefix, case-insensitively.
    let mut i: usize = 0;
    while i < 6
        invariant
            name@.len() > 6,
            i <= 6,
            forall|j: int| 0 <= j < i ==> crate::text::fold_char(#[trigger] name@[j]) == level_prefix()[j],
        decreases 6 - i,
    {
        proof {
            reveal_strlit("_level");
        }
        let c = crate::text::fold_char_exec(name.get_char(i));
        let expected = "_level".get_char(i);
        assert(expected == level_prefix()[i as int]);
        if c != expected {
            assert(fold(name@.take(6))[i as int] != level_prefix()[i as int]);
            assert(spec_level_path_number(name@) is None);
            return None;
        }
        i = i + 1;
    }
    proof {
        assert(fold(name@.take(6)) =~= level_prefix());
    }
    crate::text::parse_digits(name, 6)
}

} // verus!
