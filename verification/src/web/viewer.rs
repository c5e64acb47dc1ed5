//! The browser viewer's interactive state: pause and display toggles, the
//! active transform mode and what the last pick selected.

use vstd::prelude::*;

use crate::ids::NodeId;
use crate::scene::editor::TransformMode;

verus! {

/// Toggles, transform mode and pick result of the browser viewer.
#[derive(Clone, Debug, PartialEq, Eq)]
pub struct ViewerState {
    /// Whether animation and camera updates are paused.
    pub paused: bool,
    /// Whether helper geometry is shown.
    pub helpers_visible: bool,
    /// Whether demo objects draw with the wireframe material.
    pub wireframe_enabled: bool,
    /// Whether bloom is requested.
    pub bloom_enabled: bool,
    /// Whether ambient occlusion is requested.
    pub ssao_enabled: bool,
    /// Node hit by the last pick.
    pub selected_node: Option<NodeId>,
    /// Name shown for the selection.
    pub selected_name: String,
    /// Material name shown for the selection.
    pub active_material: String,
    /// Active gizmo mode.
    pub transform_mode: TransformMode,
}

/// The mode a gizmo label selects: `"rotate"`, `"scale"`, and translation
/// for anything else.
pub open spec fn mode_for_label(label: Seq<char>) -> TransformMode {
    if label == "rotate"@ {
        TransformMode::Rotate
    } else if label == "scale"@ {
        TransformMode::Scale
    } else {
        TransformMode::Translate
    }
}

/// The label of a gizmo mode.
pub open spec fn label_of_mode(mode: TransformMode) -> Seq<char> {
    match mode {
        TransformMode::Translate => "translate"@,
        TransformMode::Rotate => "rotate"@,
        TransformMode::Scale => "scale"@,
    }
}

/// Gizmo labels and modes correspond one to one: the label of a mode selects
/// that mode, and a label that selects rotation or scaling is that mode's
/// label; every other text selects translation.
pub proof fn lemma_mode_labels_round_trip(mode: TransformMode, label: Seq<char>)
    ensures
        mode_for_label(label_of_mode(mode)) == mode,
        mode_for_label(label) != TransformMode::Translate ==> label == label_of_mode(mode_for_label(label)),
        label != "rotate"@ && label != "scale"@ ==> mode_for_label(label) == TransformMode::Translate,
{
    reveal_strlit("translate");
    reveal_strlit("rotate");
    reveal_strlit("scale");
    assert("translate"@.len() == 9 && "rotate"@.len() == 6 && "scale"@.len() == 5);
}

/// The gizmo mode named by `label`: `"rotate"`, `"scale"`, and translation
/// for any other text.
pub fn transform_mode_from_label(label: &str) -> (m: TransformMode)
    ensures
        m == mode_for_label(label@),
{
    let label = label.to_owned();
    if label == "rotate".to_owned() {
        TransformMode::Rotate
    } else if label == "scale".to_owned() {
        TransformMode::Scale
    } else {
        TransformMode::Translate
    }
}

/// The label of a gizmo mode.
pub fn transform_mode_label(mode: TransformMode) -> (s: &'static str)
    ensures
        s@ == label_of_mode(mode),
{
    match mode {
        TransformMode::Translate => "translate",
        TransformMode::Rotate => "rotate",
        TransformMode::Scale => "scale",
    }
}

impl ViewerState {
    /// The state of a freshly started viewer: running, helpers shown,
    /// effects off, nothing selected, translating.
    pub fn new() -> (s: ViewerState)
        ensures
            !s.paused,
            s.helpers_visible,
            !s.wireframe_enabled,
            !s.bloom_enabled,
            !s.ssao_enabled,
            s.selected_node is None,
            s.selected_name@ == "None"@,
            s.active_material@ == "None"@,
            s.transform_mode == TransformMode::Translate,
    {
        ViewerState {
            paused: false,
            helpers_visible: true,
            wireframe_enabled: false,
            bloom_enabled: false,
            ssao_enabled: false,
            selected_node: None,
            selected_name: "None".to_owned(),
            active_material: "None".to_owned(),
            transform_mode: TransformMode::Translate,
        }
    }

    /// Sets the gizmo mode from its label, as [`transform_mode_from_label`].
    pub fn set_transform_mode(&mut self, mode: &str)
        ensures
            *final(self) == (ViewerState { transform_mode: mode_for_label(mode@), ..*old(self) }),
    {
        self.transform_mode = transform_mode_from_label(mode);
    }

    /// The label of the active gizmo mode.
    pub fn transform_mode(&self) -> (s: &'static str)
        ensures
            s@ == label_of_mode(self.transform_mode),
    {
        transform_mode_label(self.transform_mode)
    }

    /// The raw id of the selected node, `0` when nothing is selected.
    pub fn selected_node_id(&self) -> (id: u64)
        ensures
            id == match self.selected_node {
                Some(n) => n.0,
                None => 0,
            },
    {
        match self.selected_node {
            Some(n) => n.get(),
            None => 0,
        }
    }

    /// Records a pick that hit `node`: its name and its material's name,
    /// `"Unknown"` for either that is not known.
    pub fn record_pick(&mut self, node: NodeId, name: Option<&str>, material: Option<&str>)
        ensures
            final(self).selected_node == Some(node),
            final(self).selected_name@ == match name {
                Some(n) => n@,
                None => "Unknown"@,
            },
            final(self).active_material@ == match material {
                Some(m) => m@,
                None => "Unknown"@,
            },
            final(self).paused == old(self).paused,
            final(self).helpers_visible == old(self).helpers_visible,
            final(self).wireframe_enabled == old(self).wireframe_enabled,
            final(self).bloom_enabled == old(self).bloom_enabled,
            final(self).ssao_enabled == old(self).ssao_enabled,
            final(self).transform_mode == old(self).transform_mode,
    {
        self.selected_node = Some(node);
        self.selected_name = match name {
            Some(n) => n.to_owned(),
            None => "Unknown".to_owned(),
        };
        self.active_material = match material {
            Some(m) => m.to_owned(),
            None => "Unknown".to_owned(),
        };
    }

    /// Forgets the selection: nothing selected, both names `"None"`.
    pub fn clear_selection(&mut self)
        ensures
            final(self).selected_node is None,
            final(self).selected_name@ == "None"@,
            final(self).active_material@ == "None"@,
            final(self).paused == old(self).paused,
            final(self).helpers_visible == old(self).helpers_visible,
            final(self).wireframe_enabled == old(self).wireframe_enabled,
            final(self).bloom_enabled == old(self).bloom_enabled,
            final(self).ssao_enabled == old(self).ssao_enabled,
            final(self).transform_mode == old(self).transform_mode,
    {
        self.selected_node = None;
        self.selected_name = "None".to_owned();
        self.active_material = "None".to_owned();
    }
}

} // verus!
