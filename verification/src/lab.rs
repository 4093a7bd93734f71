//! Versions, references between generations, and provider inputs in the
//! asset lab.

use vstd::prelude::*;
use crate::model::{
    Asset, ProviderEntry, ProviderInputField, ProviderInputType, ProviderOutputType, kind_is_image,
    kind_is_video, kind_is_audio, kind_media,
};
use crate::library::asset_provider_output_type;
use crate::lab_model::{
    AssetLabNode, GenerationRecord, GenerativeConfig, InputValue, SourceFrameReference,
    version_names, duplicate_bindings,
};
use crate::uuid_text::{uuid_string, uuid_text};

verus! {

/// Whether a configuration has a version named `version`.
pub open spec fn has_version(config: GenerativeConfig, version: Seq<char>) -> bool {
    version_names(config.versions@).contains(version)
}

/// The index of the first record named `version`.
pub(crate) fn version_position(versions: &Vec<GenerationRecord>, version: &str) -> (r: Option<usize>)
    ensures
        match r {
            Some(i) => i < versions@.len() && versions@[i as int].version@ == version@ && forall|
                j: int,
            | 0 <= j < i ==> versions@[j].version@ != version@,
            None => !version_names(versions@).contains(version@),
        },
{
    let target = String::from_str(version);
    let mut i: usize = 0;
    while i < versions.len()
        invariant
            i <= versions.len(),
            target@ == version@,
            forall|j: int| 0 <= j < i ==> versions@[j].version@ != version@,
        decreases versions.len() - i,
    {
        if versions[i].version == target {
            return Some(i);
        }
        i = i + 1;
    }
    proof {
        if version_names(versions@).contains(version@) {
            let j = choose|j: int|
                0 <= j < version_names(versions@).len() && version_names(versions@)[j] == version@;
            assert(versions@[j].version@ == version@);
        }
    }
    None
}

/// Whether the configuration (if any) has a version named `version`.
pub fn asset_lab_version_exists(config: Option<&GenerativeConfig>, version: &str) -> (r: bool)
    ensures
        r == match config {
            Some(c) => has_version(*c, version@),
            None => false,
        },
{
    match config {
        Some(config) => match version_position(&config.versions, version) {
            Some(i) => {
                assert(version_names(config.versions@)[i as int] == version@);
                true
            },
            None => false,
        },
        None => false,
    }
}

/// The first record named `version`, when both the configuration and the
/// version are given and such a record exists.
pub fn asset_lab_record_for_version<'a>(
    config: Option<&'a GenerativeConfig>,
    version: Option<&str>,
) -> (r: Option<&'a GenerationRecord>)
    ensures
        match (config, version) {
            (Some(c), Some(v)) => match r {
                Some(rec) => rec.version@ == v@ && exists|i: int|
                    0 <= i < c.versions@.len() && c.versions@[i] == *rec && forall|j: int|
                        0 <= j < i ==> c.versions@[j].version@ != v@,
                None => !has_version(*c, v@),
            },
            _ => r is None,
        },
{
    let version = match version {
        Some(v) => v,
        None => {
            return None;
        },
    };
    match config {
        Some(config) => match version_position(&config.versions, version) {
            Some(i) => Some(&config.versions[i]),
            None => None,
        },
        None => None,
    }
}

/// Whether a record is the baseline output of a lab node: the record names
/// the node, or the node names the record's version as its output.
pub fn asset_lab_record_is_node_baseline(record: &GenerationRecord, node: &AssetLabNode) -> (r: bool)
    ensures
        r == (record.lab_node_id == Some(node.id) || match node.output_version {
            Some(v) => v@ == record.version@,
            None => false,
        }),
{
    let by_node = match record.lab_node_id {
        Some(id) => id == node.id,
        None => false,
    };
    by_node || match &node.output_version {
        Some(v) => *v == record.version,
        None => false,
    }
}

/// Whether an input refers to version `version` of asset `asset_id`.
pub open spec fn references_version(input: InputValue, asset_id: u128, version: Seq<char>) -> bool {
    match input {
        InputValue::GenerationRef { asset_id: a, version: v, .. } => a == asset_id && v@ == version,
        _ => false,
    }
}

/// Whether an input refers to version `version` of asset `asset_id`.
pub fn input_references_generation_version(input: &InputValue, asset_id: u128, version: &str) -> (r:
    bool)
    ensures
        r == references_version(*input, asset_id, version@),
{
    match input {
        InputValue::GenerationRef { asset_id: a, version: v, .. } => {
            let target = String::from_str(version);
            *a == asset_id && *v == target
        },
        _ => false,
    }
}

/// Whether some input of a binding list refers to the version.
pub open spec fn bindings_reference(
    bindings: Seq<(String, InputValue)>,
    asset_id: u128,
    version: Seq<char>,
) -> bool {
    exists|i: int| 0 <= i < bindings.len() && references_version(#[trigger] bindings[i].1, asset_id, version)
}

/// Whether a configuration refers to version `version` of asset `asset_id`
/// in its inputs, its reference slots, or the inputs of a lab node.
pub open spec fn config_references(config: GenerativeConfig, asset_id: u128, version: Seq<char>) -> bool {
    bindings_reference(config.inputs@, asset_id, version) || bindings_reference(
        config.reference_slots@,
        asset_id,
        version,
    ) || exists|n: int|
        0 <= n < config.lab_graph.nodes@.len() && bindings_reference(
            #[trigger] config.lab_graph.nodes@[n].inputs@,
            asset_id,
            version,
        )
}

/// Whether some binding refers to the version.
fn bindings_reference_exec(bindings: &Vec<(String, InputValue)>, asset_id: u128, version: &str) -> (r:
    bool)
    ensures
        r == bindings_reference(bindings@, asset_id, version@),
{
    let mut i: usize = 0;
    while i < bindings.len()
        invariant
            i <= bindings.len(),
            forall|j: int| 0 <= j < i ==> !references_version(#[trigger] bindings@[j].1, asset_id, version@),
        decreases bindings.len() - i,
    {
        if input_references_generation_version(&bindings[i].1, asset_id, version) {
            return true;
        }
        i = i + 1;
    }
    false
}

/// Whether a configuration refers to version `version` of asset `asset_id`.
pub fn generative_config_references_version(
    config: &GenerativeConfig,
    asset_id: u128,
    version: &str,
) -> (r: bool)
    ensures
        r == config_references(*config, asset_id, version@),
{
    if bindings_reference_exec(&config.inputs, asset_id, version) || bindings_reference_exec(
        &config.reference_slots,
        asset_id,
        version,
    ) {
        return true;
    }
    let nodes = &config.lab_graph.nodes;
    let mut n: usize = 0;
    while n < nodes.len()
        invariant
            n <= nodes.len(),
            nodes == &config.lab_graph.nodes,
            forall|m: int| 0 <= m < n ==> !bindings_reference(#[trigger] nodes@[m].inputs@, asset_id, version@),
        decreases nodes.len() - n,
    {
        if bindings_reference_exec(&nodes[n].inputs, asset_id, version) {
            return true;
        }
        n = n + 1;
    }
    false
}

/// The generation reference that binds version `version` of `asset` to a
/// provider input, when the input takes that media: an image input takes an
/// image, or the first frame of a video; video and audio inputs take their
/// own media.
pub open spec fn generation_ref_for(asset: Asset, input: ProviderInputField, version: Seq<char>) -> Option<
    (u128, Seq<char>, Option<SourceFrameReference>),
> {
    match input.input_type {
        ProviderInputType::Image => if kind_is_image(asset.kind) {
            Some((asset.id, version, None))
        } else if kind_is_video(asset.kind) {
            Some((asset.id, version, Some(SourceFrameReference::First)))
        } else {
            None
        },
        ProviderInputType::Video => if kind_is_video(asset.kind) {
            Some((asset.id, version, None))
        } else {
            None
        },
        ProviderInputType::Audio => if kind_is_audio(asset.kind) {
            Some((asset.id, version, None))
        } else {
            None
        },
        _ => None,
    }
}

/// A provider input takes a version of an asset of its own media, as it is:
/// a video input takes a video asset's version, an image input an image
/// asset's, an audio input an audio asset's; an image input takes the first
/// frame of a video asset's version.
pub proof fn law_inputs_take_versions_of_their_media(asset: Asset, input: ProviderInputField, version: Seq<char>)
    ensures
        input.input_type == ProviderInputType::Video && (asset.kind is Video || asset.kind is GenerativeVideo)
            ==> generation_ref_for(asset, input, version) == Some((asset.id, version, None::<SourceFrameReference>)),
        input.input_type == ProviderInputType::Image && (asset.kind is Image || asset.kind is GenerativeImage)
            ==> generation_ref_for(asset, input, version) == Some((asset.id, version, None::<SourceFrameReference>)),
        input.input_type == ProviderInputType::Audio && (asset.kind is Audio || asset.kind is GenerativeAudio)
            ==> generation_ref_for(asset, input, version) == Some((asset.id, version, None::<SourceFrameReference>)),
        input.input_type == ProviderInputType::Image && (asset.kind is Video || asset.kind is GenerativeVideo)
            ==> generation_ref_for(asset, input, version) == Some((asset.id, version, Some(SourceFrameReference::First))),
        input.input_type == ProviderInputType::Video && !(asset.kind is Video || asset.kind is GenerativeVideo)
            ==> generation_ref_for(asset, input, version) is None,
{
}

/// The parts of a generation reference.
pub open spec fn ref_parts(v: InputValue) -> Option<(u128, Seq<char>, Option<SourceFrameReference>)> {
    match v {
        InputValue::GenerationRef { asset_id, version, frame_reference } => Some(
            (asset_id, version@, frame_reference),
        ),
        _ => None,
    }
}

/// The generation reference that binds a version of `asset` to `input`.
pub fn asset_lab_generation_ref_for_input(
    asset: &Asset,
    input: &ProviderInputField,
    version: &str,
) -> (r: Option<InputValue>)
    ensures
        match r {
            Some(v) => v is GenerationRef && ref_parts(v) == generation_ref_for(
                *asset,
                *input,
                version@,
            ),
            None => generation_ref_for(*asset, *input, version@) is None,
        },
{
    match input.input_type {
        ProviderInputType::Image => {
            if asset.is_image() {
                Some(
                    InputValue::GenerationRef {
                        asset_id: asset.id,
                        version: String::from_str(version),
                        frame_reference: None,
                    },
                )
            } else if asset.is_video() {
                Some(
                    InputValue::GenerationRef {
                        asset_id: asset.id,
                        version: String::from_str(version),
                        frame_reference: Some(SourceFrameReference::First),
                    },
                )
            } else {
                None
            }
        },
        ProviderInputType::Video => {
            if asset.is_video() {
                Some(
                    InputValue::GenerationRef {
                        asset_id: asset.id,
                        version: String::from_str(version),
                        frame_reference: None,
                    },
                )
            } else {
                None
            }
        },
        ProviderInputType::Audio => {
            if asset.is_audio() {
                Some(
                    InputValue::GenerationRef {
                        asset_id: asset.id,
                        version: String::from_str(version),
                        frame_reference: None,
                    },
                )
            } else {
                None
            }
        },
        _ => None,
    }
}

/// Whether `input` can take media of `asset` (a link on the lab graph).
pub fn asset_lab_input_is_media_link(asset: &Asset, input: &ProviderInputField) -> (r: bool)
    ensures
        r == generation_ref_for(*asset, *input, "__probe__"@) is Some,
{
    asset_lab_generation_ref_for_input(asset, input, "__probe__").is_some()
}

/// The name of the first provider input that can take media of `asset`.
pub fn asset_lab_primary_media_input_name<'a>(asset: &Asset, provider: &'a ProviderEntry) -> (r:
    Option<&'a String>)
    ensures
        match r {
            Some(name) => exists|i: int|
                0 <= i < provider.inputs@.len() && provider.inputs@[i].name == *name
                    && generation_ref_for(*asset, provider.inputs@[i], "__probe__"@) is Some
                    && forall|j: int|
                    0 <= j < i ==> generation_ref_for(
                        *asset,
                        #[trigger] provider.inputs@[j],
                        "__probe__"@,
                    ) is None,
            None => forall|j: int|
                0 <= j < provider.inputs@.len() ==> generation_ref_for(
                    *asset,
                    #[trigger] provider.inputs@[j],
                    "__probe__"@,
                ) is None,
        },
{
    let mut i: usize = 0;
    while i < provider.inputs.len()
        invariant
            i <= provider.inputs.len(),
            forall|j: int|
                0 <= j < i ==> generation_ref_for(*asset, #[trigger] provider.inputs@[j], "__probe__"@) is None,
        decreases provider.inputs.len() - i,
    {
        if asset_lab_input_is_media_link(asset, &provider.inputs[i]) {
            return Some(&provider.inputs[i].name);
        }
        i = i + 1;
    }
    None
}

/// The first provider with identifier `id`.
pub open spec fn provider_with(providers: Seq<ProviderEntry>, id: u128) -> Option<ProviderEntry>
    decreases providers.len(),
{
    if providers.len() == 0 {
        None
    } else if providers[0].id == id {
        Some(providers[0])
    } else {
        provider_with(providers.drop_first(), id)
    }
}

/// The first provider with identifier `id`.
pub(crate) fn find_provider<'a>(providers: &'a Vec<ProviderEntry>, id: u128) -> (r: Option<&'a ProviderEntry>)
    ensures
        match r {
            Some(p) => provider_with(providers@, id) == Some(*p),
            None => provider_with(providers@, id) is None,
        },
{
    let mut i: usize = 0;
    assert(providers@.skip(0) =~= providers@);
    while i < providers.len()
        invariant
            i <= providers.len(),
            provider_with(providers@, id) == provider_with(providers@.skip(i as int), id),
        decreases providers.len() - i,
    {
        assert(providers@.skip(i as int).drop_first() =~= providers@.skip(i + 1));
        if providers[i].id == id {
            return Some(&providers[i]);
        }
        i = i + 1;
    }
    None
}

/// The provider a lab node uses, if it names one that exists.
pub fn asset_lab_node_provider<'a>(providers: &'a Vec<ProviderEntry>, node: &AssetLabNode) -> (r:
    Option<&'a ProviderEntry>)
    ensures
        match node.provider_id {
            Some(id) => match r {
                Some(p) => provider_with(providers@, id) == Some(*p),
                None => provider_with(providers@, id) is None,
            },
            None => r is None,
        },
{
    match node.provider_id {
        Some(id) => find_provider(providers, id),
        None => None,
    }
}

/// The name shown for a provider: its name, or the identifier's text when no
/// provider has that identifier.
pub fn asset_lab_provider_name(providers: &Vec<ProviderEntry>, provider_id: u128) -> (r: String)
    ensures
        r@ == match provider_with(providers@, provider_id) {
            Some(p) => p.name@,
            None => uuid_text(provider_id),
        },
{
    match find_provider(providers, provider_id) {
        Some(p) => p.name.clone(),
        None => uuid_string(provider_id),
    }
}

/// The position of the first node with identifier `id`.
pub open spec fn node_position(nodes: Seq<AssetLabNode>, id: u128) -> Option<int>
    decreases nodes.len(),
{
    if nodes.len() == 0 {
        None
    } else if nodes[0].id == id {
        Some(0)
    } else {
        match node_position(nodes.drop_first(), id) {
            Some(p) => Some(p + 1),
            None => None,
        }
    }
}

/// The position of the first node with identifier `id`.
pub(crate) fn find_node_position(nodes: &Vec<AssetLabNode>, id: u128) -> (r: Option<usize>)
    ensures
        match r {
            Some(i) => node_position(nodes@, id) == Some(i as int) && i < nodes@.len(),
            None => node_position(nodes@, id) is None,
        },
{
    let mut i: usize = 0;
    assert(nodes@.skip(0) =~= nodes@);
    while i < nodes.len()
        invariant
            i <= nodes.len(),
            match node_position(nodes@, id) {
                Some(p) => match node_position(nodes@.skip(i as int), id) {
                    Some(q) => p == q + i,
                    None => false,
                },
                None => node_position(nodes@.skip(i as int), id) is None,
            },
        decreases nodes.len() - i,
    {
        assert(nodes@.skip(i as int).drop_first() =~= nodes@.skip(i + 1));
        if nodes[i].id == id {
            return Some(i);
        }
        i = i + 1;
    }
    None
}

/// The configuration after making `record` (named `version`) active: the
/// version becomes active, its provider and input snapshot become the
/// configuration's, and the lab node that produced it, if any, becomes the
/// selected node and has the version as its output.
pub open spec fn activated(old: GenerativeConfig, new: GenerativeConfig, record: GenerationRecord, version: Seq<char>) -> bool {
    &&& new.active_version matches Some(v) && v@ == version
    &&& new.provider_id == Some(record.provider_id)
    &&& new.inputs@ == record.inputs_snapshot@
    &&& new.reference_slots == old.reference_slots
    &&& new.versions == old.versions
    &&& match record.lab_node_id {
        None => new.lab_graph == old.lab_graph,
        Some(node_id) => {
            &&& new.lab_graph.selected_node_id == Some(node_id)
            &&& new.lab_graph.nodes@.len() == old.lab_graph.nodes@.len()
            &&& forall|k: int|
                0 <= k < old.lab_graph.nodes@.len() && node_position(old.lab_graph.nodes@, node_id)
                    != Some(k) ==> #[trigger] new.lab_graph.nodes@[k] == old.lab_graph.nodes@[k]
            &&& match node_position(old.lab_graph.nodes@, node_id) {
                Some(k) => {
                    let o = old.lab_graph.nodes@[k];
                    let n = new.lab_graph.nodes@[k];
                    &&& n.id == o.id
                    &&& n.parent_node_id == o.parent_node_id
                    &&& n.provider_id == o.provider_id
                    &&& n.inputs == o.inputs
                    &&& n.output_version matches Some(v) && v@ == version
                },
                None => true,
            }
        },
    }
}

/// Makes `record`, named `version`, the configuration's active version:
/// its provider and input snapshot become the configuration's, and the lab
/// node that produced it, if any, becomes the selected node and has the
/// version as its output.
pub(crate) fn activate_record(config: &mut GenerativeConfig, record: &GenerationRecord, version: &str)
    ensures
        activated(*old(config), *final(config), *record, version@),
{
    let ghost before = *config;
    let provider_id = record.provider_id;
    let inputs = duplicate_bindings(&record.inputs_snapshot);
    let lab_node_id = record.lab_node_id;
    config.active_version = Some(String::from_str(version));
    config.provider_id = Some(provider_id);
    config.inputs = inputs;
    match lab_node_id {
        Some(node_id) => {
            config.lab_graph.selected_node_id = Some(node_id);
            match find_node_position(&config.lab_graph.nodes, node_id) {
                Some(k) => {
                    let mut nodes: Vec<AssetLabNode> = Vec::new();
                    std::mem::swap(&mut nodes, &mut config.lab_graph.nodes);
                    let mut node = nodes.remove(k);
                    node.output_version = Some(String::from_str(version));
                    nodes.insert(k, node);
                    config.lab_graph.nodes = nodes;
                    assert(config.lab_graph.nodes@ =~= before.lab_graph.nodes@.update(
                        k as int,
                        config.lab_graph.nodes@[k as int],
                    ));
                },
                None => {},
            }
        },
        None => {},
    }
}

/// Makes version `version` the active one of a configuration; false, with
/// nothing changed, when the configuration has no such version.
pub fn apply_active_generation_version_to_config(config: &mut GenerativeConfig, version: &str) -> (r:
    bool)
    ensures
        r == has_version(*old(config), version@),
        !r ==> *final(config) == *old(config),
        r ==> exists|i: int|
            0 <= i < old(config).versions@.len() && old(config).versions@[i].version@ == version@
                && (forall|j: int| 0 <= j < i ==> old(config).versions@[j].version@ != version@)
                && activated(*old(config), *final(config), old(config).versions@[i], version@),
{
    let index = match version_position(&config.versions, version) {
        Some(i) => i,
        None => {
            return false;
        },
    };
    assert(version_names(old(config).versions@)[index as int] == version@);
    let record = config.versions[index].duplicate();
    activate_record(config, &record, version);
    true
}

/// The media type of the asset lab's output for `asset`.
pub fn asset_lab_output_type(asset: &Asset) -> (r: Option<ProviderOutputType>)
    ensures
        r == Some(kind_media(asset.kind)),
{
    asset_provider_output_type(asset)
}

/// Whether a provider can generate the asset's media in the asset lab.
pub fn asset_lab_provider_is_compatible(asset: &Asset, provider: &ProviderEntry) -> (r: bool)
    ensures
        r == (kind_media(asset.kind) == provider.output_type),
{
    match asset_lab_output_type(asset) {
        Some(t) => t == provider.output_type,
        None => false,
    }
}

/// Whether some input of `p` can take version `version` of `asset`.
pub open spec fn takes_version(asset: Asset, p: ProviderEntry, version: Seq<char>) -> bool {
    exists|i: int| 0 <= i < p.inputs@.len() && (#[trigger] generation_ref_for(asset, p.inputs@[i], version)) is Some
}

/// The tests a provider for a new edit step is chosen by.
#[derive(Clone, Copy, Debug, PartialEq, Eq, Structural)]
pub enum ProviderTest {
    /// Compatible, the producing provider, and takes the version.
    SameAndTakes,
    /// Compatible and takes the version.
    Takes,
    /// The producing provider.
    Same,
    /// Compatible.
    Compatible,
}

/// The first provider from position `k` on that passes `test`.
pub open spec fn first_provider_from(
    asset: Asset,
    ps: Seq<ProviderEntry>,
    rid: u128,
    version: Seq<char>,
    test: ProviderTest,
    k: int,
) -> Option<ProviderEntry>
    decreases ps.len() - k,
{
    if k < 0 || k >= ps.len() {
        None
    } else if provider_fits(asset, ps[k], rid, version, test) {
        Some(ps[k])
    } else {
        first_provider_from(asset, ps, rid, version, test, k + 1)
    }
}

/// The tests of `first_provider_from`.
pub open spec fn provider_fits(asset: Asset, p: ProviderEntry, rid: u128, version: Seq<char>, test: ProviderTest) -> bool {
    let compatible = kind_media(asset.kind) == p.output_type;
    match test {
        ProviderTest::SameAndTakes => compatible && p.id == rid && takes_version(asset, p, version),
        ProviderTest::Takes => compatible && takes_version(asset, p, version),
        ProviderTest::Same => p.id == rid,
        ProviderTest::Compatible => compatible,
    }
}

/// The provider of a new edit step made from a version produced by
/// provider `rid`: the compatible provider `rid` if one of its inputs takes
/// the version, else the first compatible provider with such an input, else
/// provider `rid` if compatible, else the first compatible provider.
pub open spec fn edit_step_provider_of(
    asset: Asset,
    ps: Seq<ProviderEntry>,
    rid: u128,
    version: Seq<char>,
) -> Option<ProviderEntry> {
    let same = first_provider_from(asset, ps, rid, version, ProviderTest::SameAndTakes, 0);
    let any = first_provider_from(asset, ps, rid, version, ProviderTest::Takes, 0);
    let by_id = first_provider_from(asset, ps, rid, version, ProviderTest::Same, 0);
    let chosen = if same is Some {
        same
    } else if any is Some {
        any
    } else {
        match by_id {
            Some(p) => if kind_media(asset.kind) == p.output_type {
                Some(p)
            } else {
                None
            },
            None => None,
        }
    };
    if chosen is Some {
        chosen
    } else {
        first_provider_from(asset, ps, rid, version, ProviderTest::Compatible, 0)
    }
}

/// Whether some input of `p` can take version `version` of `asset`.
fn takes_version_exec(asset: &Asset, p: &ProviderEntry, version: &str) -> (r: bool)
    ensures
        r == takes_version(*asset, *p, version@),
{
    let mut i: usize = 0;
    while i < p.inputs.len()
        invariant
            i <= p.inputs.len(),
            forall|j: int|
                0 <= j < i ==> (#[trigger] generation_ref_for(*asset, p.inputs@[j], version@)) is None,
        decreases p.inputs.len() - i,
    {
        if asset_lab_generation_ref_for_input(asset, &p.inputs[i], version).is_some() {
            return true;
        }
        i = i + 1;
    }
    false
}

/// The first provider that passes `test`.
fn first_provider<'a>(
    asset: &Asset,
    ps: &'a Vec<ProviderEntry>,
    rid: u128,
    version: &str,
    test: ProviderTest,
) -> (r: Option<&'a ProviderEntry>)
    ensures
        match r {
            Some(p) => first_provider_from(*asset, ps@, rid, version@, test, 0) == Some(*p),
            None => first_provider_from(*asset, ps@, rid, version@, test, 0) is None,
        },
{
    let mut k: usize = 0;
    while k < ps.len()
        invariant
            k <= ps.len(),
            first_provider_from(*asset, ps@, rid, version@, test, 0) == first_provider_from(
                *asset,
                ps@,
                rid,
                version@,
                test,
                k as int,
            ),
        decreases ps.len() - k,
    {
        let p = &ps[k];
        let fits = match test {
            ProviderTest::SameAndTakes => asset_lab_provider_is_compatible(asset, p) && p.id == rid
                && takes_version_exec(asset, p, version),
            ProviderTest::Takes => asset_lab_provider_is_compatible(asset, p) && takes_version_exec(
                asset,
                p,
                version,
            ),
            ProviderTest::Same => p.id == rid,
            ProviderTest::Compatible => asset_lab_provider_is_compatible(asset, p),
        };
        if fits {
            return Some(p);
        }
        k = k + 1;
    }
    None
}

/// The provider given to a new edit step made from version `version`,
/// which provider `record_provider_id` produced.
pub fn edit_step_provider<'a>(
    asset: &Asset,
    record_provider_id: u128,
    version: &str,
    providers: &'a Vec<ProviderEntry>,
) -> (r: Option<&'a ProviderEntry>)
    ensures
        match r {
            Some(p) => edit_step_provider_of(*asset, providers@, record_provider_id, version@) == Some(*p),
            None => edit_step_provider_of(*asset, providers@, record_provider_id, version@) is None,
        },
{
    let rid = record_provider_id;
    let chosen = match first_provider(asset, providers, rid, version, ProviderTest::SameAndTakes) {
        Some(p) => Some(p),
        None => match first_provider(asset, providers, rid, version, ProviderTest::Takes) {
            Some(p) => Some(p),
            None => match first_provider(asset, providers, rid, version, ProviderTest::Same) {
                Some(p) => if asset_lab_provider_is_compatible(asset, p) {
                    Some(p)
                } else {
                    None
                },
                None => None,
            },
        },
    };
    match chosen {
        Some(p) => Some(p),
        None => first_provider(asset, providers, rid, version, ProviderTest::Compatible),
    }
}

/// The version a lab step shows: its output, else the last version
/// credited to it.
pub open spec fn node_version(config: GenerativeConfig, node_id: u128) -> Option<Seq<char>> {
    let from_node = match node_position(config.lab_graph.nodes@, node_id) {
        Some(k) => match config.lab_graph.nodes@[k].output_version {
            Some(v) => Some(v@),
            None => None,
        },
        None => None,
    };
    if from_node is Some {
        from_node
    } else {
        last_credited(config.versions@, node_id)
    }
}

/// The version of the last record credited to lab node `node_id`.
pub open spec fn last_credited(versions: Seq<GenerationRecord>, node_id: u128) -> Option<Seq<char>>
    decreases versions.len(),
{
    if versions.len() == 0 {
        None
    } else if versions.last().lab_node_id == Some(node_id) {
        Some(versions.last().version@)
    } else {
        last_credited(versions.drop_last(), node_id)
    }
}

/// The version to show when lab step `node_id` is selected.
pub fn asset_lab_node_version(config: &GenerativeConfig, node_id: u128) -> (r: Option<String>)
    ensures
        match r {
            Some(v) => node_version(*config, node_id) == Some(v@),
            None => node_version(*config, node_id) is None,
        },
{
    match find_node_position(&config.lab_graph.nodes, node_id) {
        Some(k) => match &config.lab_graph.nodes[k].output_version {
            Some(v) => {
                return Some(v.clone());
            },
            None => {},
        },
        None => {},
    }
    let n = config.versions.len();
    let mut i: usize = n;
    assert(config.versions@.take(n as int) =~= config.versions@);
    while i > 0
        invariant
            i <= n == config.versions@.len(),
            node_version(*config, node_id) == last_credited(config.versions@, node_id),
            last_credited(config.versions@, node_id) == last_credited(
                config.versions@.take(i as int),
                node_id,
            ),
        decreases i,
    {
        assert(config.versions@.take(i as int).drop_last() =~= config.versions@.take(i - 1));
        if config.versions[i - 1].lab_node_id == Some(node_id) {
            let v = config.versions[i - 1].version.clone();
            assert(config.versions@.take(i as int).last() == config.versions@[i - 1]);
            return Some(v);
        }
        i = i - 1;
    }
    None
}

/// An asset that an input can be bound to, as offered by the input pickers.
#[derive(Clone, Debug)]
pub struct AssetInputCandidate {
    pub asset_id: u128,
    pub source_clip_id: Option<u128>,
    pub frame_reference: Option<SourceFrameReference>,
    pub label: String,
    pub detail: String,
    pub contextual: bool,
}

/// Whether a binding is the candidate's asset reference with the given pin
/// state.
pub fn binding_matches_candidate(
    value: Option<&InputValue>,
    candidate: &AssetInputCandidate,
    pinned: bool,
) -> (r: bool)
    ensures
        r == match value {
            Some(InputValue::AssetRef { asset_id, source_clip_id, pinned: p, frame_reference }) => *asset_id
                == candidate.asset_id && *source_clip_id == candidate.source_clip_id && *p == pinned
                && *frame_reference == candidate.frame_reference,
            _ => false,
        },
{
    match value {
        Some(InputValue::AssetRef { asset_id, source_clip_id, pinned: p, frame_reference }) => {
            *asset_id == candidate.asset_id && *source_clip_id == candidate.source_clip_id && *p == pinned
                && *frame_reference == candidate.frame_reference
        },
        _ => false,
    }
}

} // verus!
