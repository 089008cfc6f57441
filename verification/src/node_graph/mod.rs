//! Node graph for scene assembly: node kinds, pins, evaluation and the
//! wiring operations (dirty propagation, upstream collection).
//!
//! Only what the graph logic reads and writes is held here: node kinds,
//! status flags, paths and integer settings. Floating-point tuning values
//! (sizes, colours, transforms) stay with the application layer, which
//! pairs them with these nodes by `GraphNodeId`.

pub mod eval;
pub mod node_id;
pub mod node_outputs;
pub mod ops;
pub mod state;
pub mod status;

use vstd::prelude::*;

use crate::text::{chars_of, decimal, push_decimal};

pub use node_id::GraphNodeId;

verus! {

/// Node graph evaluation mode.
#[derive(Debug, Clone, Copy, PartialEq, Eq, Structural)]
pub enum EvalMode {
    /// Re-evaluate immediately on any change.
    Auto,
    /// Only evaluate when the user clicks "Cook".
    Manual,
    /// Re-evaluate when the mouse button is released (not during a drag).
    OnMouseRelease,
}

impl EvalMode {
    /// The mode a new project starts in.
    pub fn default_mode() -> (m: EvalMode)
        ensures
            m == EvalMode::Auto,
    {
        EvalMode::Auto
    }
}

/// Pin types for node connections.
#[derive(Clone, Copy, Debug, PartialEq, Eq, Structural)]
pub enum PinType {
    /// USD scene data (stage/prims).
    Scene,
    /// Rendered image output.
    Image,
    /// Environment lighting data.
    Environment,
}

/// Kind of procedural primitive.
#[derive(Clone, Copy, Debug, PartialEq, Eq, Structural)]
pub enum PrimitiveKind {
    Cube,
    Sphere,
    Camera,
}

/// Where a scatter node takes its points from.
#[derive(Clone, Copy, Debug, PartialEq, Eq, Structural)]
pub enum PointSource {
    /// Scatter over the surface of the connected input geometry.
    Surface,
    /// Regular grid (needs no input).
    Grid,
    /// Sphere surface or volume (needs no input).
    Sphere,
}

/// How scatter points are distributed over a surface.
#[derive(Clone, Copy, Debug, PartialEq, Eq, Structural)]
pub enum ScatterMode {
    /// Independent random points.
    Random,
    /// Even distribution with a minimum spacing.
    PoissonDisk,
}

/// The non-numeric-range settings of a scatter node that the point
/// computation reads besides source, count, limit and seed.
#[derive(Clone, Copy, Debug, PartialEq, Eq, Structural)]
pub struct ScatterSettings {
    /// Distribution over a surface.
    pub scatter_mode: ScatterMode,
    /// Whether points are oriented along the surface normal.
    pub align_to_normal: bool,
    /// Sphere source: points on the surface (`true`) or filling the volume.
    pub sphere_on_surface: bool,
    /// Repulsion relaxation iterations (0 for none).
    pub relax_iterations: u32,
}

/// USD type of a prim authored by a USD prim node.
#[derive(Clone, Copy, Debug, PartialEq, Eq, Structural)]
pub enum UsdPrimType {
    Scope,
    Xform,
    /// No type.
    Typeless,
}

/// USD model kind of a prim authored by a USD prim node.
#[derive(Clone, Copy, Debug, PartialEq, Eq, Structural)]
pub enum UsdKind {
    /// No kind metadata.
    Kindless,
    Component,
    Subcomponent,
    Group,
    Assembly,
}

/// USD specifier of a prim authored by a USD prim node.
#[derive(Clone, Copy, Debug, PartialEq, Eq, Structural)]
pub enum UsdSpecifier {
    /// `def`: a concrete prim.
    Define,
    /// `over`: an opinion on a prim defined elsewhere.
    Over,
    /// `class`: an abstract prim.
    Class,
}

/// A node of the scene graph, with the state the graph logic works on.
#[derive(Clone, Debug)]
pub enum SceneNode {
    /// Load a USD file.
    UsdRead { file_path: String, is_loaded: bool, error: Option<String> },
    /// Render the scene with the CPU path tracer.
    IvarRender {
        spp: u32,
        is_rendering: bool,
        is_converting_tx: bool,
        tx_status: Option<String>,
    },
    /// Procedural primitive (cube, sphere, camera wireframe).
    Primitive { kind: PrimitiveKind, is_created: bool, prim_path: String },
    /// Scatter points on a surface, grid or sphere.
    ScatterPoints {
        source: PointSource,
        count: u32,
        max_point_limit: u32,
        seed: u64,
        settings: ScatterSettings,
        target_proto_id: Option<usize>,
        is_computed: bool,
    },
    /// Expand point clouds into geometry instances.
    PointInstancer {
        instance_count: usize,
        is_instanced: bool,
        is_computing: bool,
        compute_failed: bool,
        prim_path: String,
    },
    /// USD export sink.
    UsdExport {
        output_path: String,
        as_sublayer: bool,
        export_root: String,
        is_exported: bool,
        last_result: Option<String>,
    },
    /// Transform applied to the upstream scene.
    Xform { prim_filter: String, is_applied: bool },
    /// USD prim defining organisational structure.
    UsdPrim {
        prim_path: String,
        prim_type: UsdPrimType,
        kind: UsdKind,
        specifier: UsdSpecifier,
        is_created: bool,
    },
    /// Merge several branches under one parent prim.
    GraftBranches { destination_path: String },
    /// HDRI environment map for image-based lighting.
    HdriEnvironment {
        file_path: String,
        is_loaded: bool,
        is_loading: bool,
        show_background: bool,
        error: Option<String>,
    },
}

/// Display name of a node.
pub open spec fn spec_name(n: SceneNode) -> Seq<char> {
    match n {
        SceneNode::UsdRead { .. } => "USD Read"@,
        SceneNode::IvarRender { .. } => "Ivar Render"@,
        SceneNode::Primitive { kind, .. } => match kind {
            PrimitiveKind::Cube => "Cube"@,
            PrimitiveKind::Sphere => "Sphere"@,
            PrimitiveKind::Camera => "Camera"@,
        },
        SceneNode::ScatterPoints { .. } => "Scatter Points"@,
        SceneNode::PointInstancer { .. } => "Point Instancer"@,
        SceneNode::UsdExport { .. } => "USD Export"@,
        SceneNode::Xform { .. } => "Xform"@,
        SceneNode::UsdPrim { .. } => "USD Prim"@,
        SceneNode::GraftBranches { .. } => "Graft Branches"@,
        SceneNode::HdriEnvironment { .. } => "HDRI Environment"@,
    }
}

/// Number of input pins of a node.
pub open spec fn spec_input_count(n: SceneNode) -> nat {
    match n {
        SceneNode::UsdRead { .. } => 0,
        SceneNode::IvarRender { .. } => 2,
        SceneNode::Primitive { .. } => 1,
        SceneNode::ScatterPoints { source, .. } => if source == PointSource::Surface {
            1
        } else {
            0
        },
        SceneNode::PointInstancer { .. } => 2,
        SceneNode::UsdExport { .. } => 1,
        SceneNode::Xform { .. } => 1,
        SceneNode::UsdPrim { .. } => 1,
        SceneNode::GraftBranches { .. } => 4,
        SceneNode::HdriEnvironment { .. } => 0,
    }
}

/// Number of output pins of a node.
pub open spec fn spec_output_count(n: SceneNode) -> nat {
    match n {
        SceneNode::UsdExport { .. } => 0,
        _ => 1,
    }
}

/// Name and type of input pin `index`, if the node has such a pin.
pub open spec fn spec_input_pin(n: SceneNode, index: int) -> Option<(Seq<char>, PinType)> {
    match n {
        SceneNode::IvarRender { .. } => if index == 0 {
            Some(("scene"@, PinType::Scene))
        } else if index == 1 {
            Some(("env"@, PinType::Environment))
        } else {
            None
        },
        SceneNode::ScatterPoints { source, .. } => if source == PointSource::Surface && index
            == 0 {
            Some(("scene"@, PinType::Scene))
        } else {
            None
        },
        SceneNode::PointInstancer { .. } => if index == 0 {
            Some(("points"@, PinType::Scene))
        } else if index == 1 {
            Some(("proto"@, PinType::Scene))
        } else {
            None
        },
        SceneNode::GraftBranches { .. } => if index == 0 {
            Some(("branch 1"@, PinType::Scene))
        } else if index == 1 {
            Some(("branch 2"@, PinType::Scene))
        } else if index == 2 {
            Some(("branch 3"@, PinType::Scene))
        } else if index == 3 {
            Some(("branch 4"@, PinType::Scene))
        } else {
            None
        },
        SceneNode::Primitive { .. } | SceneNode::UsdExport { .. } | SceneNode::Xform { .. }
        | SceneNode::UsdPrim { .. } => if index == 0 {
            Some(("scene"@, PinType::Scene))
        } else {
            None
        },
        SceneNode::UsdRead { .. } | SceneNode::HdriEnvironment { .. } => None,
    }
}

/// Name and type of output pin `index`, if the node has such a pin.
pub open spec fn spec_output_pin(n: SceneNode, index: int) -> Option<(Seq<char>, PinType)> {
    if index != 0 {
        None
    } else {
        match n {
            SceneNode::IvarRender { .. } => Some(("image"@, PinType::Image)),
            SceneNode::ScatterPoints { .. } => Some(("points"@, PinType::Scene)),
            SceneNode::UsdExport { .. } => None,
            SceneNode::HdriEnvironment { .. } => Some(("env"@, PinType::Environment)),
            _ => Some(("scene"@, PinType::Scene)),
        }
    }
}

/// Every node has an input pin at each index below its input count and at no
/// other index, and an output pin exactly at each index below its output count.
pub proof fn lemma_pins_match_counts(n: SceneNode, index: int)
    ensures
        spec_input_pin(n, index) is Some <==> 0 <= index < spec_input_count(n),
        spec_output_pin(n, index) is Some <==> 0 <= index < spec_output_count(n),
{
}

/// A Graft Branches node has four inputs, and each takes a scene.
pub proof fn lemma_graft_branches_take_four_scenes(n: SceneNode, index: int)
    requires
        n is GraftBranches,
        0 <= index < 4,
    ensures
        spec_input_count(n) == 4,
        spec_input_pin(n, index) matches Some((_, t)) && t == PinType::Scene,
{
}

/// A pin description as plain values.
pub open spec fn pin_view(p: Option<(&str, PinType)>) -> Option<(Seq<char>, PinType)> {
    match p {
        Some((s, t)) => Some((s@, t)),
        None => None,
    }
}

/// Index just past the last `/` or `\` of `s` (0 when there is none).
pub open spec fn after_last_separator(s: Seq<char>) -> int
    decreases s.len(),
{
    if s.len() == 0 {
        0
    } else if s.last() == '/' || s.last() == '\\' {
        s.len() as int
    } else {
        after_last_separator(s.drop_last())
    }
}

/// The file-name part of a path: what follows its last `/` or `\`.
pub open spec fn file_name_part(s: Seq<char>) -> Seq<char> {
    s.subrange(after_last_separator(s), s.len() as int)
}

proof fn lemma_after_last_separator_bounds(s: Seq<char>)
    ensures
        0 <= after_last_separator(s) <= s.len(),
    decreases s.len(),
{
    if s.len() > 0 && !(s.last() == '/' || s.last() == '\\') {
        lemma_after_last_separator_bounds(s.drop_last());
    }
}

/// Computes `after_last_separator` on a character vector.
fn find_after_last_separator(v: &Vec<char>) -> (r: usize)
    ensures
        r as int == after_last_separator(v@),
        r <= v@.len(),
{
    let mut i = v.len();
    assert(v@.take(i as int) == v@);
    while i > 0
        invariant
            i <= v@.len(),
            after_last_separator(v@) == after_last_separator(v@.take(i as int)),
        decreases i,
    {
        if v[i - 1] == '/' || v[i - 1] == '\\' {
            assert(v@.take(i as int).last() == v@[i - 1]);
            proof { lemma_after_last_separator_bounds(v@); }
            return i;
        }
        assert(v@.take(i as int).drop_last() == v@.take(i - 1));
        i = i - 1;
    }
    0
}

/// The file-name part of a path: what follows its last `/` or `\`.
pub fn file_name_from_path(path: &str) -> (r: Option<&str>)
    ensures
        r matches Some(n) && n@ == file_name_part(path@),
{
    let v = chars_of(path);
    let start = find_after_last_separator(&v);
    let len = v.len();
    Some(path.substring_char(start, len))
}

impl SceneNode {
    /// A new USD Read node with no file.
    pub fn usd_read() -> (n: SceneNode)
        ensures
            n matches SceneNode::UsdRead { file_path, is_loaded, error } && file_path@.len() == 0
                && !is_loaded && error is None,
    {
        SceneNode::UsdRead { file_path: String::new(), is_loaded: false, error: None }
    }

    /// A new USD Read node reading `path`.
    pub fn usd_read_with_path(path: String) -> (n: SceneNode)
        ensures
            n matches SceneNode::UsdRead { file_path, is_loaded, error } && file_path@ == path@
                && !is_loaded && error is None,
    {
        SceneNode::UsdRead { file_path: path, is_loaded: false, error: None }
    }

    /// A new render node at 16 samples per pixel.
    pub fn ivar_render() -> (n: SceneNode)
        ensures
            n matches SceneNode::IvarRender { spp, is_rendering, is_converting_tx, tx_status }
                && spp == 16 && !is_rendering && !is_converting_tx && tx_status is None,
    {
        SceneNode::IvarRender {
            spp: 16,
            is_rendering: false,
            is_converting_tx: false,
            tx_status: None,
        }
    }

    /// A new primitive node; `serial` numbers the prim path
    /// (`/World/Cube<serial>`, `/World/Sphere<serial>`, `/World/Camera<serial>`).
    pub fn primitive(kind: PrimitiveKind, serial: u32) -> (n: SceneNode)
        ensures
            n matches SceneNode::Primitive { kind: k, is_created, prim_path } && k == kind
                && !is_created && prim_path@ == (match kind {
                PrimitiveKind::Cube => "/World/Cube"@,
                PrimitiveKind::Sphere => "/World/Sphere"@,
                PrimitiveKind::Camera => "/World/Camera"@,
            }) + decimal(serial as nat),
    {
        let mut prim_path = match kind {
            PrimitiveKind::Cube => String::from_str("/World/Cube"),
            PrimitiveKind::Sphere => String::from_str("/World/Sphere"),
            PrimitiveKind::Camera => String::from_str("/World/Camera"),
        };
        push_decimal(&mut prim_path, serial as u64);
        SceneNode::Primitive { kind, is_created: false, prim_path }
    }

    /// A new scatter node: surface source, 1000 points, limit 1 000 000, seed
    /// 42, random distribution, not aligned to normals, sphere points on the
    /// surface, no relaxation.
    pub fn scatter_points() -> (n: SceneNode)
        ensures
            n == (SceneNode::ScatterPoints {
                source: PointSource::Surface,
                count: 1000,
                max_point_limit: 1_000_000,
                seed: 42,
                settings: ScatterSettings {
                    scatter_mode: ScatterMode::Random,
                    align_to_normal: false,
                    sphere_on_surface: true,
                    relax_iterations: 0,
                },
                target_proto_id: None,
                is_computed: false,
            }),
    {
        SceneNode::ScatterPoints {
            source: PointSource::Surface,
            count: 1000,
            max_point_limit: 1_000_000,
            seed: 42,
            settings: ScatterSettings {
                scatter_mode: ScatterMode::Random,
                align_to_normal: false,
                sphere_on_surface: true,
                relax_iterations: 0,
            },
            target_proto_id: None,
            is_computed: false,
        }
    }

    /// A new point instancer; `serial` numbers its prim path `/World/instancer<serial>`.
    pub fn point_instancer(serial: u32) -> (n: SceneNode)
        ensures
            n matches SceneNode::PointInstancer {
                instance_count,
                is_instanced,
                is_computing,
                compute_failed,
                prim_path,
            } && instance_count == 0 && !is_instanced && !is_computing && !compute_failed
                && prim_path@ == "/World/instancer"@ + decimal(serial as nat),
    {
        let mut prim_path = String::from_str("/World/instancer");
        push_decimal(&mut prim_path, serial as u64);
        SceneNode::PointInstancer {
            instance_count: 0,
            is_instanced: false,
            is_computing: false,
            compute_failed: false,
            prim_path,
        }
    }

    /// A new USD export node writing under `/BIF` as a sublayer.
    pub fn usd_export() -> (n: SceneNode)
        ensures
            n matches SceneNode::UsdExport {
                output_path,
                as_sublayer,
                export_root,
                is_exported,
                last_result,
            } && output_path@.len() == 0 && as_sublayer && export_root@ == "/BIF"@
                && !is_exported && last_result is None,
    {
        SceneNode::UsdExport {
            output_path: String::new(),
            as_sublayer: true,
            export_root: String::from_str("/BIF"),
            is_exported: false,
            last_result: None,
        }
    }

    /// A new transform node.
    pub fn xform() -> (n: SceneNode)
        ensures
            n matches SceneNode::Xform { prim_filter, is_applied } && prim_filter@.len() == 0
                && !is_applied,
    {
        SceneNode::Xform { prim_filter: String::new(), is_applied: false }
    }

    /// A new USD prim node: a `Scope` defined at `/root`, with no kind.
    pub fn usd_prim() -> (n: SceneNode)
        ensures
            n matches SceneNode::UsdPrim { prim_path, prim_type, kind, specifier, is_created }
                && prim_path@ == "/root"@ && prim_type == UsdPrimType::Scope && kind
                == UsdKind::Kindless && specifier == UsdSpecifier::Define && !is_created,
    {
        SceneNode::UsdPrim {
            prim_path: String::from_str("/root"),
            prim_type: UsdPrimType::Scope,
            kind: UsdKind::Kindless,
            specifier: UsdSpecifier::Define,
            is_created: false,
        }
    }

    /// A new graft node grafting under `/shot`.
    pub fn graft_branches() -> (n: SceneNode)
        ensures
            n matches SceneNode::GraftBranches { destination_path } && destination_path@
                == "/shot"@,
    {
        SceneNode::GraftBranches { destination_path: String::from_str("/shot") }
    }

    /// A new HDRI environment node with no file, shown as background.
    pub fn hdri_environment() -> (n: SceneNode)
        ensures
            n matches SceneNode::HdriEnvironment {
                file_path,
                is_loaded,
                is_loading,
                show_background,
                error,
            } && file_path@.len() == 0 && !is_loaded && !is_loading && show_background
                && error is None,
    {
        SceneNode::HdriEnvironment {
            file_path: String::new(),
            is_loaded: false,
            is_loading: false,
            show_background: true,
            error: None,
        }
    }

    /// Display name of the node.
    pub fn name(&self) -> (r: &'static str)
        ensures
            r@ == spec_name(*self),
    {
        match self {
            SceneNode::UsdRead { .. } => "USD Read",
            SceneNode::IvarRender { .. } => "Ivar Render",
            SceneNode::Primitive { kind, .. } => match kind {
                PrimitiveKind::Cube => "Cube",
                PrimitiveKind::Sphere => "Sphere",
                PrimitiveKind::Camera => "Camera",
            },
            SceneNode::ScatterPoints { .. } => "Scatter Points",
            SceneNode::PointInstancer { .. } => "Point Instancer",
            SceneNode::UsdExport { .. } => "USD Export",
            SceneNode::Xform { .. } => "Xform",
            SceneNode::UsdPrim { .. } => "USD Prim",
            SceneNode::GraftBranches { .. } => "Graft Branches",
            SceneNode::HdriEnvironment { .. } => "HDRI Environment",
        }
    }

    /// Number of input pins.
    pub fn input_count(&self) -> (c: usize)
        ensures
            c as nat == spec_input_count(*self),
    {
        match self {
            SceneNode::UsdRead { .. } => 0,
            SceneNode::IvarRender { .. } => 2,
            SceneNode::Primitive { .. } => 1,
            SceneNode::ScatterPoints { source, .. } => match source {
                PointSource::Surface => 1,
                PointSource::Grid | PointSource::Sphere => 0,
            },
            SceneNode::PointInstancer { .. } => 2,
            SceneNode::UsdExport { .. } => 1,
            SceneNode::Xform { .. } => 1,
            SceneNode::UsdPrim { .. } => 1,
            SceneNode::GraftBranches { .. } => 4,
            SceneNode::HdriEnvironment { .. } => 0,
        }
    }

    /// Number of output pins.
    pub fn output_count(&self) -> (c: usize)
        ensures
            c as nat == spec_output_count(*self),
    {
        match self {
            SceneNode::UsdExport { .. } => 0,
            _ => 1,
        }
    }

    /// Name and type of input pin `index`.
    pub fn input_pin(&self, index: usize) -> (p: Option<(&'static str, PinType)>)
        ensures
            pin_view(p) == spec_input_pin(*self, index as int),
    {
        match self {
            SceneNode::IvarRender { .. } => if index == 0 {
                Some(("scene", PinType::Scene))
            } else if index == 1 {
                Some(("env", PinType::Environment))
            } else {
                None
            },
            SceneNode::ScatterPoints { source, .. } => match source {
                PointSource::Surface => if index == 0 {
                    Some(("scene", PinType::Scene))
                } else {
                    None
                },
                PointSource::Grid | PointSource::Sphere => None,
            },
            SceneNode::PointInstancer { .. } => if index == 0 {
                Some(("points", PinType::Scene))
            } else if index == 1 {
                Some(("proto", PinType::Scene))
            } else {
                None
            },
            SceneNode::GraftBranches { .. } => if index == 0 {
                Some(("branch 1", PinType::Scene))
            } else if index == 1 {
                Some(("branch 2", PinType::Scene))
            } else if index == 2 {
                Some(("branch 3", PinType::Scene))
            } else if index == 3 {
                Some(("branch 4", PinType::Scene))
            } else {
                None
            },
            SceneNode::Primitive { .. }
            | SceneNode::UsdExport { .. }
            | SceneNode::Xform { .. }
            | SceneNode::UsdPrim { .. } => if index == 0 {
                Some(("scene", PinType::Scene))
            } else {
                None
            },
            SceneNode::UsdRead { .. } | SceneNode::HdriEnvironment { .. } => None,
        }
    }

    /// Name and type of output pin `index`.
    pub fn output_pin(&self, index: usize) -> (p: Option<(&'static str, PinType)>)
        ensures
            pin_view(p) == spec_output_pin(*self, index as int),
    {
        if index != 0 {
            return None;
        }
        match self {
            SceneNode::IvarRender { .. } => Some(("image", PinType::Image)),
            SceneNode::ScatterPoints { .. } => Some(("points", PinType::Scene)),
            SceneNode::UsdExport { .. } => None,
            SceneNode::HdriEnvironment { .. } => Some(("env", PinType::Environment)),
            _ => Some(("scene", PinType::Scene)),
        }
    }

    /// The path label shown on the node: its prim path, the graft destination,
    /// or the file name of a non-empty read or export path.
    pub fn prim_path_label(&self) -> (r: Option<&str>)
        ensures
            match *self {
                SceneNode::Primitive { prim_path, .. } => r matches Some(l) && l@ == prim_path@,
                SceneNode::PointInstancer { prim_path, .. } => r matches Some(l) && l@
                    == prim_path@,
                SceneNode::UsdPrim { prim_path, .. } => r matches Some(l) && l@ == prim_path@,
                SceneNode::GraftBranches { destination_path } => r matches Some(l) && l@
                    == destination_path@,
                SceneNode::UsdRead { file_path, .. } => if file_path@.len() > 0 {
                    r matches Some(l) && l@ == file_name_part(file_path@)
                } else {
                    r is None
                },
                SceneNode::UsdExport { output_path, .. } => if output_path@.len() > 0 {
                    r matches Some(l) && l@ == file_name_part(output_path@)
                } else {
                    r is None
                },
                _ => r is None,
            },
    {
        match self {
            SceneNode::Primitive { prim_path, .. } => Some(prim_path.as_str()),
            SceneNode::PointInstancer { prim_path, .. } => Some(prim_path.as_str()),
            SceneNode::UsdPrim { prim_path, .. } => Some(prim_path.as_str()),
            SceneNode::GraftBranches { destination_path } => Some(destination_path.as_str()),
            SceneNode::UsdRead { file_path, .. } => {
                if file_path.as_str().unicode_len() > 0 {
                    file_name_from_path(file_path.as_str())
                } else {
                    None
                }
            },
            SceneNode::UsdExport { output_path, .. } => {
                if output_path.as_str().unicode_len() > 0 {
                    file_name_from_path(output_path.as_str())
                } else {
                    None
                }
            },
            _ => None,
        }
    }
}

} // verus!
