//! Generative configurations: the versions an asset has produced, the input
//! bindings of a generation, and the nodes of the asset lab graph.

use vstd::prelude::*;

verus! {

/// Which frame of a video a still input takes.
#[derive(Clone, Copy, Debug, PartialEq, Eq, Structural)]
pub enum SourceFrameReference {
    First,
    Last,
}

/// A value bound to a provider input.
#[derive(Clone, Debug)]
pub enum InputValue {
    /// A literal value, held as its JSON text.
    Literal { json: String },
    /// Media from a project asset, optionally cut from a timeline clip.
    AssetRef {
        asset_id: u128,
        source_clip_id: Option<u128>,
        pinned: bool,
        frame_reference: Option<SourceFrameReference>,
    },
    /// The output of one generated version of an asset.
    GenerationRef {
        asset_id: u128,
        version: String,
        frame_reference: Option<SourceFrameReference>,
    },
}

impl InputValue {
    /// An equal copy of the value.
    pub fn duplicate(&self) -> (r: InputValue)
        ensures
            r == *self,
    {
        match self {
            InputValue::Literal { json } => InputValue::Literal { json: json.clone() },
            InputValue::AssetRef { asset_id, source_clip_id, pinned, frame_reference } => {
                InputValue::AssetRef {
                    asset_id: *asset_id,
                    source_clip_id: *source_clip_id,
                    pinned: *pinned,
                    frame_reference: *frame_reference,
                }
            },
            InputValue::GenerationRef { asset_id, version, frame_reference } => {
                InputValue::GenerationRef {
                    asset_id: *asset_id,
                    version: version.clone(),
                    frame_reference: *frame_reference,
                }
            },
        }
    }
}

/// An equal copy of a list of input bindings.
pub fn duplicate_bindings(v: &Vec<(String, InputValue)>) -> (r: Vec<(String, InputValue)>)
    ensures
        r@ == v@,
{
    let mut r: Vec<(String, InputValue)> = Vec::new();
    let n = v.len();
    for i in 0..n
        invariant
            n == v@.len(),
            r@ == v@.take(i as int),
    {
        let name = v[i].0.clone();
        let value = v[i].1.duplicate();
        r.push((name, value));
        assert(v@.take(i + 1) =~= v@.take(i as int).push(v@[i as int]));
    }
    assert(v@.take(n as int) =~= v@);
    r
}

/// One generated version of an asset.
#[derive(Clone, Debug)]
pub struct GenerationRecord {
    pub version: String,
    /// Creation time, in milliseconds since the Unix epoch.
    pub timestamp_ms: i64,
    pub provider_id: u128,
    pub inputs_snapshot: Vec<(String, InputValue)>,
    pub lab_node_id: Option<u128>,
}

/// A record as values.
pub open spec fn record_view(r: GenerationRecord) -> (
    Seq<char>,
    i64,
    u128,
    Seq<(String, InputValue)>,
    Option<u128>,
) {
    (r.version@, r.timestamp_ms, r.provider_id, r.inputs_snapshot@, r.lab_node_id)
}

impl GenerationRecord {
    /// A copy of the record with the same values.
    pub fn duplicate(&self) -> (r: GenerationRecord)
        ensures
            record_view(r) == record_view(*self),
            r.version == self.version,
    {
        let inputs_snapshot = duplicate_bindings(&self.inputs_snapshot);
        GenerationRecord {
            version: self.version.clone(),
            timestamp_ms: self.timestamp_ms,
            provider_id: self.provider_id,
            inputs_snapshot,
            lab_node_id: self.lab_node_id,
        }
    }
}

/// A node of the asset lab graph: one generation step, edited from its parent.
#[derive(Clone, Debug)]
pub struct AssetLabNode {
    pub id: u128,
    pub parent_node_id: Option<u128>,
    pub provider_id: Option<u128>,
    pub inputs: Vec<(String, InputValue)>,
    pub output_version: Option<String>,
}

/// The asset lab graph of a generative asset.
#[derive(Clone, Debug)]
pub struct AssetLabGraph {
    pub nodes: Vec<AssetLabNode>,
    pub selected_node_id: Option<u128>,
}

/// The generation setup and history of a generative asset.
#[derive(Clone, Debug)]
pub struct GenerativeConfig {
    pub provider_id: Option<u128>,
    pub active_version: Option<String>,
    pub inputs: Vec<(String, InputValue)>,
    pub reference_slots: Vec<(String, InputValue)>,
    pub versions: Vec<GenerationRecord>,
    pub lab_graph: AssetLabGraph,
}

/// The version names of a configuration's records, in order.
pub open spec fn version_names(versions: Seq<GenerationRecord>) -> Seq<Seq<char>> {
    versions.map_values(|r: GenerationRecord| r.version@)
}

/// The parent of the first node with identifier `id`, when that node exists
/// and has a parent.
pub open spec fn node_parent(nodes: Seq<AssetLabNode>, id: u128) -> Option<u128>
    decreases nodes.len(),
{
    if nodes.len() == 0 {
        None
    } else if nodes[0].id == id {
        nodes[0].parent_node_id
    } else {
        node_parent(nodes.drop_first(), id)
    }
}

/// Whether some node has identifier `id`.
pub open spec fn has_node(nodes: Seq<AssetLabNode>, id: u128) -> bool {
    exists|i: int| 0 <= i < nodes.len() && #[trigger] nodes[i].id == id
}

/// Whether some version was produced by lab node `id`.
pub open spec fn node_has_record(versions: Seq<GenerationRecord>, id: u128) -> bool {
    exists|i: int| 0 <= i < versions.len() && #[trigger] versions[i].lab_node_id == Some(id)
}

} // verus!
