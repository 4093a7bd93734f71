//! Editor-level state and checks that need no user interface.

use vstd::prelude::*;
use crate::lab_model::{GenerativeConfig, InputValue, version_names};
use crate::moves::{Clip, clip_with};
use crate::uuid_text::{uuid_string, uuid_text};

verus! {

/// Which overlays (modals and panels) are open.
#[derive(Clone, Copy, Debug, Default, PartialEq, Eq, Structural)]
pub struct EditorOverlays {
    pub startup: bool,
    pub providers: bool,
    pub project_settings: bool,
    pub new_project: bool,
    pub queue: bool,
    pub agent_api: bool,
    pub generative_video: bool,
    pub export_video: bool,
    pub asset_lab: bool,
}

/// The frame count new generative videos start with.
pub const DEFAULT_GENERATIVE_VIDEO_FRAME_COUNT: u32 = 121;

/// The frame count new generative videos start with.
pub fn default_generative_video_frames() -> (r: u32)
    ensures
        r == DEFAULT_GENERATIVE_VIDEO_FRAME_COUNT,
{
    DEFAULT_GENERATIVE_VIDEO_FRAME_COUNT
}

/// The parts of a project that input references are checked against.
#[derive(Clone, Debug)]
pub struct ProjectRefs {
    pub asset_ids: Vec<u128>,
    pub clips: Vec<Clip>,
    /// The generative configuration of each generative asset.
    pub configs: Vec<(u128, GenerativeConfig)>,
}

/// Why an input binding refers to something that is not there.
#[derive(Clone, Debug)]
pub enum InputRefError {
    MissingAsset { input: String, asset_id: u128 },
    MissingSourceClip { input: String, clip_id: u128 },
    ClipOfOtherAsset { input: String, clip_id: u128, asset_id: u128 },
    NotGenerative { input: String, asset_id: u128 },
    MissingVersion { input: String, version: String },
}

/// The configuration of generative asset `id`.
pub open spec fn config_of(configs: Seq<(u128, GenerativeConfig)>, id: u128) -> Option<GenerativeConfig>
    decreases configs.len(),
{
    if configs.len() == 0 {
        None
    } else if configs[0].0 == id {
        Some(configs[0].1)
    } else {
        config_of(configs.drop_first(), id)
    }
}

/// What is wrong with one binding, if anything: a referenced asset must
/// exist; a source clip must exist and belong to the asset; a referenced
/// generation must belong to a generative asset that has the version.
pub open spec fn binding_problem(p: ProjectRefs, name: Seq<char>, value: InputValue) -> Option<(
    int,
    u128,
    u128,
    Seq<char>,
    Seq<char>,
)> {
    match value {
        InputValue::AssetRef { asset_id, source_clip_id, .. } => if !p.asset_ids@.contains(asset_id) {
            Some((0, asset_id, 0, name, seq![]))
        } else {
            match source_clip_id {
                Some(c) => match clip_with(p.clips@, c) {
                    None => Some((1, c, 0, name, seq![])),
                    Some(clip) => if clip.asset_id != asset_id {
                        Some((2, c, asset_id, name, seq![]))
                    } else {
                        None
                    },
                },
                None => None,
            }
        },
        InputValue::GenerationRef { asset_id, version, .. } => if !p.asset_ids@.contains(asset_id) {
            Some((0, asset_id, 0, name, seq![]))
        } else {
            match config_of(p.configs@, asset_id) {
                None => Some((3, asset_id, 0, name, seq![])),
                Some(c) => if !version_names(c.versions@).contains(version@) {
                    Some((4, 0, 0, name, version@))
                } else {
                    None
                },
            }
        },
        InputValue::Literal { .. } => None,
    }
}

/// The spec form of an error: its kind number, identifiers and text.
pub open spec fn error_parts(e: InputRefError) -> (int, u128, u128, Seq<char>, Seq<char>) {
    match e {
        InputRefError::MissingAsset { input, asset_id } => (0, asset_id, 0, input@, seq![]),
        InputRefError::MissingSourceClip { input, clip_id } => (1, clip_id, 0, input@, seq![]),
        InputRefError::ClipOfOtherAsset { input, clip_id, asset_id } => (
            2,
            clip_id,
            asset_id,
            input@,
            seq![],
        ),
        InputRefError::NotGenerative { input, asset_id } => (3, asset_id, 0, input@, seq![]),
        InputRefError::MissingVersion { input, version } => (4, 0, 0, input@, version@),
    }
}

/// The first problem among the bindings, in order.
pub open spec fn first_binding_problem(p: ProjectRefs, values: Seq<(String, InputValue)>) -> Option<(
    int,
    u128,
    u128,
    Seq<char>,
    Seq<char>,
)>
    decreases values.len(),
{
    if values.len() == 0 {
        None
    } else {
        match binding_problem(p, values[0].0@, values[0].1) {
            Some(e) => Some(e),
            None => first_binding_problem(p, values.drop_first()),
        }
    }
}

/// Whether `v` holds `x`.
pub(crate) fn id_listed(v: &Vec<u128>, x: u128) -> (r: bool)
    ensures
        r == v@.contains(x),
{
    let mut i: usize = 0;
    while i < v.len()
        invariant
            i <= v.len(),
            forall|j: int| 0 <= j < i ==> v@[j] != x,
        decreases v.len() - i,
    {
        if v[i] == x {
            assert(v@[i as int] == x);
            return true;
        }
        i = i + 1;
    }
    false
}

/// The configuration of generative asset `id`.
pub(crate) fn find_config(configs: &Vec<(u128, GenerativeConfig)>, id: u128) -> (r: Option<&GenerativeConfig>)
    ensures
        match r {
            Some(c) => config_of(configs@, id) == Some(*c),
            None => config_of(configs@, id) is None,
        },
{
    let mut i: usize = 0;
    assert(configs@.skip(0) =~= configs@);
    while i < configs.len()
        invariant
            i <= configs.len(),
            config_of(configs@, id) == config_of(configs@.skip(i as int), id),
        decreases configs.len() - i,
    {
        assert(configs@.skip(i as int).drop_first() =~= configs@.skip(i + 1));
        if configs[i].0 == id {
            return Some(&configs[i].1);
        }
        i = i + 1;
    }
    None
}

/// Whether some version is named `version`.
pub(crate) fn has_version_named(config: &GenerativeConfig, version: &String) -> (r: bool)
    ensures
        r == version_names(config.versions@).contains(version@),
{
    let mut i: usize = 0;
    while i < config.versions.len()
        invariant
            i <= config.versions.len(),
            forall|j: int| 0 <= j < i ==> config.versions@[j].version@ != version@,
        decreases config.versions.len() - i,
    {
        if config.versions[i].version == *version {
            assert(version_names(config.versions@)[i as int] == version@);
            return true;
        }
        i = i + 1;
    }
    proof {
        if version_names(config.versions@).contains(version@) {
            let j = choose|j: int|
                0 <= j < version_names(config.versions@).len() && version_names(config.versions@)[j]
                    == version@;
            assert(config.versions@[j].version@ == version@);
        }
    }
    false
}

/// The first clip with identifier `id`.
fn clip_by_id(clips: &Vec<Clip>, id: u128) -> (r: Option<Clip>)
    ensures
        r == clip_with(clips@, id),
{
    let mut i: usize = 0;
    assert(clips@.skip(0) =~= clips@);
    while i < clips.len()
        invariant
            i <= clips.len(),
            clip_with(clips@, id) == clip_with(clips@.skip(i as int), id),
        decreases clips.len() - i,
    {
        assert(clips@.skip(i as int).drop_first() =~= clips@.skip(i + 1));
        if clips[i].id == id {
            return Some(clips[i]);
        }
        i = i + 1;
    }
    None
}

/// Checks that every input binding refers to things the project has, and
/// reports the first that does not.
pub fn validate_generative_input_refs(project: &ProjectRefs, values: &Vec<(String, InputValue)>) -> (r:
    Result<(), InputRefError>)
    ensures
        match first_binding_problem(*project, values@) {
            None => r is Ok,
            Some(e) => r matches Err(err) && error_parts(err) == e,
        },
{
    let mut i: usize = 0;
    assert(values@.skip(0) =~= values@);
    while i < values.len()
        invariant
            i <= values.len(),
            first_binding_problem(*project, values@) == first_binding_problem(
                *project,
                values@.skip(i as int),
            ),
        decreases values.len() - i,
    {
        assert(values@.skip(i as int).drop_first() =~= values@.skip(i + 1));
        assert(values@.skip(i as int)[0] == values@[i as int]);
        let name = &values[i].0;
        match &values[i].1 {
            InputValue::AssetRef { asset_id, source_clip_id, .. } => {
                if !id_listed(&project.asset_ids, *asset_id) {
                    return Err(InputRefError::MissingAsset { input: name.clone(), asset_id: *asset_id });
                }
                match source_clip_id {
                    Some(c) => match clip_by_id(&project.clips, *c) {
                        None => {
                            return Err(
                                InputRefError::MissingSourceClip { input: name.clone(), clip_id: *c },
                            );
                        },
                        Some(clip) => {
                            if clip.asset_id != *asset_id {
                                return Err(
                                    InputRefError::ClipOfOtherAsset {
                                        input: name.clone(),
                                        clip_id: *c,
                                        asset_id: *asset_id,
                                    },
                                );
                            }
                        },
                    },
                    None => {},
                }
            },
            InputValue::GenerationRef { asset_id, version, .. } => {
                if !id_listed(&project.asset_ids, *asset_id) {
                    return Err(InputRefError::MissingAsset { input: name.clone(), asset_id: *asset_id });
                }
                match find_config(&project.configs, *asset_id) {
                    None => {
                        return Err(
                            InputRefError::NotGenerative { input: name.clone(), asset_id: *asset_id },
                        );
                    },
                    Some(config) => {
                        if !has_version_named(config, version) {
                            return Err(
                                InputRefError::MissingVersion {
                                    input: name.clone(),
                                    version: version.clone(),
                                },
                            );
                        }
                    },
                }
            },
            InputValue::Literal { .. } => {},
        }
        i = i + 1;
    }
    Ok(())
}

/// The message of an input reference error.
pub open spec fn error_message(e: InputRefError) -> Seq<char> {
    match e {
        InputRefError::MissingAsset { input, asset_id } => "Input "@ + input@
            + " references missing asset "@ + uuid_text(asset_id) + "."@,
        InputRefError::MissingSourceClip { input, clip_id } => "Input "@ + input@
            + " references missing source clip "@ + uuid_text(clip_id) + "."@,
        InputRefError::ClipOfOtherAsset { input, clip_id, asset_id } => "Input "@ + input@
            + " source clip "@ + uuid_text(clip_id) + " does not belong to asset "@ + uuid_text(
            asset_id,
        ) + "."@,
        InputRefError::NotGenerative { input, asset_id } => "Input "@ + input@
            + " references non-generative asset "@ + uuid_text(asset_id) + "."@,
        InputRefError::MissingVersion { input, version } => "Input "@ + input@
            + " references missing generation version "@ + version@ + "."@,
    }
}

impl InputRefError {
    /// The message shown for the error.
    pub fn message(&self) -> (r: String)
        ensures
            r@ == error_message(*self),
    {
        match self {
            InputRefError::MissingAsset { input, asset_id } => String::from_str("Input ").concat(
                input.as_str(),
            ).concat(" references missing asset ").concat(uuid_string(*asset_id).as_str()).concat(
                ".",
            ),
            InputRefError::MissingSourceClip { input, clip_id } => String::from_str("Input ").concat(
                input.as_str(),
            ).concat(" references missing source clip ").concat(uuid_string(*clip_id).as_str()).concat(
                ".",
            ),
            InputRefError::ClipOfOtherAsset { input, clip_id, asset_id } => String::from_str(
                "Input ",
            ).concat(input.as_str()).concat(" source clip ").concat(uuid_string(*clip_id).as_str()).concat(
                " does not belong to asset ",
            ).concat(uuid_string(*asset_id).as_str()).concat("."),
            InputRefError::NotGenerative { input, asset_id } => String::from_str("Input ").concat(
                input.as_str(),
            ).concat(" references non-generative asset ").concat(uuid_string(*asset_id).as_str()).concat(
                ".",
            ),
            InputRefError::MissingVersion { input, version } => String::from_str("Input ").concat(
                input.as_str(),
            ).concat(" references missing generation version ").concat(version.as_str()).concat("."),
        }
    }
}

/// Whether the project has unsaved changes, judged by fingerprints of its
/// content: the fingerprint taken when it was last saved or loaded.
#[derive(Clone, Debug)]
pub struct ProjectDirtyState {
    pub project_dirty: bool,
    pub saved_fingerprint: Option<String>,
}

/// A fingerprint as text.
pub open spec fn fingerprint_view(f: Option<String>) -> Option<Seq<char>> {
    match f {
        Some(s) => Some(s@),
        None => None,
    }
}

/// The state after recording `current` as the fingerprint of saved content.
pub open spec fn marked_clean(new: ProjectDirtyState, current: Option<String>) -> bool {
    !new.project_dirty && fingerprint_view(new.saved_fingerprint) == fingerprint_view(current)
}

/// The state after comparing the current fingerprint with the saved one.
pub open spec fn refreshed(old: ProjectDirtyState, new: ProjectDirtyState, current: Option<String>) -> bool {
    match fingerprint_view(current) {
        None => !new.project_dirty && new.saved_fingerprint is None,
        Some(c) => new.project_dirty == (fingerprint_view(old.saved_fingerprint) matches Some(s) && s != c)
            && fingerprint_view(new.saved_fingerprint) == fingerprint_view(old.saved_fingerprint),
    }
}

impl ProjectDirtyState {
    /// Records the fingerprint of the content just saved or loaded: the
    /// project is clean.
    pub fn mark_project_clean(&mut self, current: Option<String>)
        ensures
            marked_clean(*final(self), current),
    {
        self.saved_fingerprint = current;
        self.project_dirty = false;
    }

    /// Compares the current fingerprint with the saved one: without a
    /// current fingerprint (no project folder) the project is clean and
    /// nothing is remembered; otherwise it is dirty exactly when a saved
    /// fingerprint exists and differs.
    pub fn refresh_project_dirty_state(&mut self, current: Option<String>)
        ensures
            refreshed(*old(self), *final(self), current),
    {
        match current {
            None => {
                self.project_dirty = false;
                self.saved_fingerprint = None;
            },
            Some(c) => {
                let dirty = match &self.saved_fingerprint {
                    Some(saved) => *saved != c,
                    None => false,
                };
                self.project_dirty = dirty;
            },
        }
    }
}

/// Content saved with fingerprint `saved` and found again with fingerprint
/// `current` is dirty exactly when both fingerprints exist and differ; in
/// particular content unchanged since it was saved is clean.
pub proof fn law_saved_content_is_clean_until_it_changes(
    s1: ProjectDirtyState,
    s2: ProjectDirtyState,
    saved: Option<String>,
    current: Option<String>,
)
    requires
        marked_clean(s1, saved),
        refreshed(s1, s2, current),
    ensures
        s2.project_dirty == (fingerprint_view(saved) matches Some(a) && fingerprint_view(current) matches Some(
            b,
        ) && a != b),
{
}

} // verus!
