//! The status lines shown in the body of each node of the graph panel.

use vstd::prelude::*;

use super::eval::{source_at, EvalCtx};
use super::{GraphNodeId, PointSource, SceneNode};
use crate::text::{decimal, push_decimal};

verus! {

/// Theme tone of a status line.
#[derive(Clone, Copy, Debug, PartialEq, Eq, Structural)]
pub enum StatusTone {
    /// Success green.
    Success,
    /// Warning amber.
    Warning,
    /// Error red.
    Failure,
    /// Scene pin green, for prim paths.
    Scene,
    /// Default text.
    Plain,
    /// Accent blue, for the display flag.
    Accent,
}

/// A line of text with its tone.
pub struct StatusLine {
    pub text: String,
    pub tone: StatusTone,
}

/// The text and tone of a status line.
pub open spec fn line_view(l: StatusLine) -> (Seq<char>, StatusTone) {
    (l.text@, l.tone)
}

/// What an instancer still needs: `points`, `proto`, or both.
pub open spec fn missing_inputs(points: bool, proto: bool) -> Seq<char> {
    if !points && !proto {
        "points, proto"@
    } else if !points {
        "points"@
    } else if !proto {
        "proto"@
    } else {
        seq![]
    }
}

/// Number of the first four inputs that are connected.
pub open spec fn connected_branches(inputs: Seq<Option<GraphNodeId>>) -> nat {
    (if source_at(inputs, 0) is Some { 1nat } else { 0nat }) + (if source_at(inputs, 1) is Some {
        1nat
    } else {
        0nat
    }) + (if source_at(inputs, 2) is Some { 1nat } else { 0nat }) + (if source_at(inputs, 3) is Some {
        1nat
    } else {
        0nat
    })
}

/// The lines that describe a node's own state, given whether it is marked
/// dirty and which node feeds each of its inputs. A transform node's summary
/// of its translation and scale is left to the caller.
pub open spec fn state_lines(node: SceneNode, dirty: bool, inputs: Seq<Option<GraphNodeId>>) -> Seq<
    (Seq<char>, StatusTone),
> {
    match node {
        SceneNode::UsdRead { is_loaded, error, .. } => if is_loaded {
            seq![("\u{2713} Loaded"@, StatusTone::Success)]
        } else {
            match error {
                Some(e) => seq![("\u{2717} "@ + e@, StatusTone::Failure)],
                None => seq![],
            }
        },
        SceneNode::IvarRender { is_rendering, is_converting_tx, .. } => if is_rendering {
            seq![("Rendering..."@, StatusTone::Warning)]
        } else if is_converting_tx {
            seq![("Converting .tx..."@, StatusTone::Warning)]
        } else {
            seq![]
        },
        SceneNode::Primitive { is_created, .. } => if is_created {
            seq![("Created"@, StatusTone::Success)]
        } else if dirty {
            seq![("Dirty"@, StatusTone::Warning)]
        } else {
            seq![]
        },
        SceneNode::ScatterPoints { source, count, is_computed, .. } => {
            let satisfied = source != PointSource::Surface || source_at(inputs, 0) is Some;
            if is_computed {
                seq![(decimal(count as nat) + " pts"@, StatusTone::Success)]
            } else if dirty {
                seq![("Dirty"@, StatusTone::Warning)]
            } else if !satisfied {
                seq![("Waiting for input"@, StatusTone::Warning)]
            } else {
                seq![]
            }
        },
        SceneNode::PointInstancer {
            instance_count,
            is_instanced,
            is_computing,
            compute_failed,
            ..
        } => if is_instanced {
            seq![(decimal(instance_count as nat) + " instances"@, StatusTone::Success)]
        } else if is_computing {
            seq![("Computing..."@, StatusTone::Warning)]
        } else if compute_failed {
            seq![("Compute failed"@, StatusTone::Failure)]
        } else if dirty {
            seq![("Dirty"@, StatusTone::Warning)]
        } else {
            seq![
                (
                    "Need: "@ + missing_inputs(
                        source_at(inputs, 0) is Some,
                        source_at(inputs, 1) is Some,
                    ),
                    StatusTone::Warning,
                ),
            ]
        },
        SceneNode::UsdExport { is_exported, last_result, .. } => match last_result {
            Some(r) => seq![(r@, if is_exported { StatusTone::Success } else { StatusTone::Failure })],
            None => seq![],
        },
        SceneNode::Xform { .. } => seq![],
        SceneNode::UsdPrim { prim_path, is_created, .. } => if is_created {
            seq![(prim_path@, StatusTone::Scene), ("Created"@, StatusTone::Success)]
        } else {
            seq![(prim_path@, StatusTone::Scene)]
        },
        SceneNode::GraftBranches { destination_path } => seq![
            (decimal(connected_branches(inputs)) + "/4 branches"@, StatusTone::Plain),
            (destination_path@, StatusTone::Scene),
        ],
        SceneNode::HdriEnvironment { is_loaded, is_loading, error, .. } => if is_loading {
            seq![("Generating IBL..."@, StatusTone::Warning)]
        } else if is_loaded {
            seq![("Loaded"@, StatusTone::Success)]
        } else {
            match error {
                Some(e) => seq![("Error: "@ + e@, StatusTone::Failure)],
                None => seq![],
            }
        },
    }
}

fn line(text: String, tone: StatusTone) -> (l: StatusLine)
    ensures
        l.text@ == text@,
        l.tone == tone,
{
    StatusLine { text, tone }
}

fn one(text: String, tone: StatusTone) -> (v: Vec<StatusLine>)
    ensures
        v@.map_values(|l: StatusLine| line_view(l)) == seq![(text@, tone)],
{
    let mut v: Vec<StatusLine> = Vec::new();
    v.push(line(text, tone));
    assert(v@.map_values(|l: StatusLine| line_view(l)) =~= seq![(text@, tone)]);
    v
}

fn counted(n: u64, suffix: &str) -> (s: String)
    ensures
        s@ == decimal(n as nat) + suffix@,
{
    let mut s = String::new();
    push_decimal(&mut s, n);
    s.append(suffix);
    s
}

fn prefixed(prefix: &str, text: &str) -> (s: String)
    ensures
        s@ == prefix@ + text@,
{
    let mut s = String::from_str(prefix);
    s.append(text);
    s
}

/// The lines of a node's body: a `Display` marker on the node that holds the
/// display flag, then the lines of its own state.
pub open spec fn status_lines(
    node: SceneNode,
    dirty: bool,
    is_display: bool,
    inputs: Seq<Option<GraphNodeId>>,
) -> Seq<(Seq<char>, StatusTone)> {
    (if is_display {
        seq![("Display"@, StatusTone::Accent)]
    } else {
        seq![]
    }) + state_lines(node, dirty, inputs)
}

/// The status lines shown in a node's body.
pub fn node_status(node: &SceneNode, dirty: bool, is_display: bool, ctx: &EvalCtx) -> (v: Vec<
    StatusLine,
>)
    ensures
        v@.map_values(|l: StatusLine| line_view(l)) == status_lines(
            *node,
            dirty,
            is_display,
            ctx.input_sources@,
        ),
{
    let mut v: Vec<StatusLine> = if is_display {
        one(String::from_str("Display"), StatusTone::Accent)
    } else {
        Vec::new()
    };
    let ghost head = v@;
    let mut rest = state_status(node, dirty, ctx);
    let ghost tail = rest@;
    v.append(&mut rest);
    assert(v@ == head + tail);
    assert(v@.map_values(|l: StatusLine| line_view(l)) =~= head.map_values(
        |l: StatusLine| line_view(l),
    ) + tail.map_values(|l: StatusLine| line_view(l)));
    v
}

fn state_status(node: &SceneNode, dirty: bool, ctx: &EvalCtx) -> (v: Vec<StatusLine>)
    ensures
        v@.map_values(|l: StatusLine| line_view(l)) == state_lines(*node, dirty, ctx.input_sources@),
{
    match node {
        SceneNode::UsdRead { is_loaded, error, .. } => {
            if *is_loaded {
                one(String::from_str("\u{2713} Loaded"), StatusTone::Success)
            } else {
                match error {
                    Some(e) => one(prefixed("\u{2717} ", e.as_str()), StatusTone::Failure),
                    None => Vec::new(),
                }
            }
        },
        SceneNode::IvarRender { is_rendering, is_converting_tx, .. } => {
            if *is_rendering {
                one(String::from_str("Rendering..."), StatusTone::Warning)
            } else if *is_converting_tx {
                one(String::from_str("Converting .tx..."), StatusTone::Warning)
            } else {
                Vec::new()
            }
        },
        SceneNode::Primitive { is_created, .. } => {
            if *is_created {
                one(String::from_str("Created"), StatusTone::Success)
            } else if dirty {
                one(String::from_str("Dirty"), StatusTone::Warning)
            } else {
                Vec::new()
            }
        },
        SceneNode::ScatterPoints { source, count, is_computed, .. } => {
            let satisfied = match source {
                PointSource::Surface => ctx.is_input_connected(0),
                _ => true,
            };
            if *is_computed {
                one(counted(*count as u64, " pts"), StatusTone::Success)
            } else if dirty {
                one(String::from_str("Dirty"), StatusTone::Warning)
            } else if !satisfied {
                one(String::from_str("Waiting for input"), StatusTone::Warning)
            } else {
                Vec::new()
            }
        },
        SceneNode::PointInstancer {
            instance_count,
            is_instanced,
            is_computing,
            compute_failed,
            ..
        } => {
            if *is_instanced {
                one(counted(*instance_count as u64, " instances"), StatusTone::Success)
            } else if *is_computing {
                one(String::from_str("Computing..."), StatusTone::Warning)
            } else if *compute_failed {
                one(String::from_str("Compute failed"), StatusTone::Failure)
            } else if dirty {
                one(String::from_str("Dirty"), StatusTone::Warning)
            } else {
                let points = ctx.is_input_connected(0);
                let proto = ctx.is_input_connected(1);
                let mut need = String::from_str("Need: ");
                if !points {
                    need.append("points");
                }
                if !proto {
                    if !points {
                        need.append(", ");
                    }
                    need.append("proto");
                }
                proof {
                    reveal_strlit("points, proto");
                    reveal_strlit("points");
                    reveal_strlit(", ");
                    reveal_strlit("proto");
                }
                assert(need@ =~= "Need: "@ + missing_inputs(points, proto));
                one(need, StatusTone::Warning)
            }
        },
        SceneNode::UsdExport { is_exported, last_result, .. } => {
            match last_result {
                Some(r) => one(
                    r.clone(),
                    if *is_exported {
                        StatusTone::Success
                    } else {
                        StatusTone::Failure
                    },
                ),
                None => Vec::new(),
            }
        },
        SceneNode::Xform { .. } => Vec::new(),
        SceneNode::UsdPrim { prim_path, is_created, .. } => {
            let mut v = one(prim_path.clone(), StatusTone::Scene);
            if *is_created {
                let ghost before = v@;
                v.push(line(String::from_str("Created"), StatusTone::Success));
                assert(v@.map_values(|l: StatusLine| line_view(l)) =~= before.map_values(
                    |l: StatusLine| line_view(l),
                ).push(("Created"@, StatusTone::Success)));
            }
            v
        },
        SceneNode::GraftBranches { destination_path } => {
            let mut n: u64 = 0;
            let mut i: usize = 0;
            while i < 4
                invariant
                    i <= 4,
                    n <= i,
                    n == (if i > 0 && source_at(ctx.input_sources@, 0) is Some { 1nat } else { 0nat })
                        + (if i > 1 && source_at(ctx.input_sources@, 1) is Some { 1nat } else { 0nat })
                        + (if i > 2 && source_at(ctx.input_sources@, 2) is Some { 1nat } else { 0nat })
                        + (if i > 3 && source_at(ctx.input_sources@, 3) is Some { 1nat } else { 0nat }),
                decreases 4 - i,
            {
                if ctx.is_input_connected(i) {
                    n = n + 1;
                }
                i = i + 1;
            }
            let mut v = one(counted(n, "/4 branches"), StatusTone::Plain);
            let ghost before = v@;
            v.push(line(destination_path.clone(), StatusTone::Scene));
            assert(v@.map_values(|l: StatusLine| line_view(l)) =~= before.map_values(
                |l: StatusLine| line_view(l),
            ).push((destination_path@, StatusTone::Scene)));
            v
        },
        SceneNode::HdriEnvironment { is_loaded, is_loading, error, .. } => {
            if *is_loading {
                one(String::from_str("Generating IBL..."), StatusTone::Warning)
            } else if *is_loaded {
                one(String::from_str("Loaded"), StatusTone::Success)
            } else {
                match error {
                    Some(e) => one(prefixed("Error: ", e.as_str()), StatusTone::Failure),
                    None => Vec::new(),
                }
            }
        },
    }
}

/// Whether a node hands a scene downstream, so that it can hold the display flag.
pub open spec fn spec_is_scene_output(node: SceneNode) -> bool {
    match node {
        SceneNode::UsdRead { .. } | SceneNode::PointInstancer { .. } | SceneNode::Primitive { .. }
        | SceneNode::IvarRender { .. } | SceneNode::Xform { .. } | SceneNode::UsdPrim { .. }
        | SceneNode::GraftBranches { .. } => true,
        _ => false,
    }
}

/// Whether a node hands a scene downstream, so that it can hold the display flag.
pub fn is_scene_output(node: &SceneNode) -> (b: bool)
    ensures
        b == spec_is_scene_output(*node),
{
    match node {
        SceneNode::UsdRead { .. } | SceneNode::PointInstancer { .. } | SceneNode::Primitive { .. }
        | SceneNode::IvarRender { .. } | SceneNode::Xform { .. } | SceneNode::UsdPrim { .. }
        | SceneNode::GraftBranches { .. } => true,
        _ => false,
    }
}

/// The label of the display entry of a node's context menu: none for a node
/// that cannot hold the display flag, `Clear Display` on the node that holds
/// it, `Set Display` elsewhere. Either entry toggles the flag.
pub fn display_menu_label(node: &SceneNode, is_display: bool) -> (r: Option<String>)
    ensures
        r is Some <==> spec_is_scene_output(*node),
        r matches Some(l) ==> l@ == (if is_display {
            "Clear Display"@
        } else {
            "Set Display"@
        }),
{
    if !is_scene_output(node) {
        None
    } else if is_display {
        Some(String::from_str("Clear Display"))
    } else {
        Some(String::from_str("Set Display"))
    }
}

/// The badge beside a node's title: the number of prims it contributes to the
/// scene, in brackets, shown only when that number is known and not zero.
pub fn header_badge(prim_count: Option<usize>) -> (r: Option<String>)
    ensures
        r is Some <==> (prim_count matches Some(c) && c > 0),
        r matches Some(s) ==> s@ == seq!['['] + decimal(prim_count->0 as nat) + seq![']'],
{
    match prim_count {
        Some(c) => {
            if c == 0 {
                return None;
            }
            let mut s = String::from_str("[");
            push_decimal(&mut s, c as u64);
            s.append("]");
            proof {
                reveal_strlit("[");
                reveal_strlit("]");
            }
            Some(s)
        },
        None => None,
    }
}

} // verus!
