//! The editor's data model as the library's logic reads it: assets and the
//! kinds of media they hold, generation providers and their inputs.
//!
//! Identifiers are the 128-bit values of the editor's UUIDs; paths are the
//! project-relative path text.

use vstd::prelude::*;

verus! {

/// The kind of media a provider produces, or a media input accepts.
#[derive(Clone, Copy, Debug, PartialEq, Eq, Structural)]
pub enum ProviderOutputType {
    Image,
    Video,
    Audio,
}

/// What an asset is: imported media at a path, or a generative asset whose
/// versions live in a folder.
#[derive(Clone, Debug)]
pub enum AssetKind {
    Video { path: String },
    Image { path: String },
    Audio { path: String },
    GenerativeVideo { folder: String, active_version: Option<String> },
    GenerativeImage { folder: String, active_version: Option<String> },
    GenerativeAudio { folder: String, active_version: Option<String> },
}

/// A project asset.
#[derive(Clone, Debug)]
pub struct Asset {
    pub id: u128,
    pub name: String,
    pub kind: AssetKind,
}

/// Whether the kind is a video, imported or generative.
pub open spec fn kind_is_video(kind: AssetKind) -> bool {
    kind is Video || kind is GenerativeVideo
}

/// Whether the kind is an image, imported or generative.
pub open spec fn kind_is_image(kind: AssetKind) -> bool {
    kind is Image || kind is GenerativeImage
}

/// Whether the kind is audio, imported or generative.
pub open spec fn kind_is_audio(kind: AssetKind) -> bool {
    kind is Audio || kind is GenerativeAudio
}

/// Whether the kind is generative.
pub open spec fn kind_is_generative(kind: AssetKind) -> bool {
    kind is GenerativeVideo || kind is GenerativeImage || kind is GenerativeAudio
}

/// The media type of a kind.
pub open spec fn kind_media(kind: AssetKind) -> ProviderOutputType {
    if kind_is_image(kind) {
        ProviderOutputType::Image
    } else if kind_is_video(kind) {
        ProviderOutputType::Video
    } else {
        ProviderOutputType::Audio
    }
}

/// The path (imported media) or folder (generative media) of a kind.
pub open spec fn kind_source(kind: AssetKind) -> Seq<char> {
    match kind {
        AssetKind::Video { path } => path@,
        AssetKind::Image { path } => path@,
        AssetKind::Audio { path } => path@,
        AssetKind::GenerativeVideo { folder, .. } => folder@,
        AssetKind::GenerativeImage { folder, .. } => folder@,
        AssetKind::GenerativeAudio { folder, .. } => folder@,
    }
}

/// The active version of a generative kind.
pub open spec fn kind_active_version(kind: AssetKind) -> Option<Seq<char>> {
    match kind {
        AssetKind::GenerativeVideo { active_version, .. } => match active_version {
            Some(v) => Some(v@),
            None => None,
        },
        AssetKind::GenerativeImage { active_version, .. } => match active_version {
            Some(v) => Some(v@),
            None => None,
        },
        AssetKind::GenerativeAudio { active_version, .. } => match active_version {
            Some(v) => Some(v@),
            None => None,
        },
        _ => None,
    }
}

impl Asset {
    /// Whether the asset is a video, imported or generative.
    pub fn is_video(&self) -> (r: bool)
        ensures
            r == kind_is_video(self.kind),
    {
        match self.kind {
            AssetKind::Video { .. } | AssetKind::GenerativeVideo { .. } => true,
            _ => false,
        }
    }

    /// Whether the asset is an image, imported or generative.
    pub fn is_image(&self) -> (r: bool)
        ensures
            r == kind_is_image(self.kind),
    {
        match self.kind {
            AssetKind::Image { .. } | AssetKind::GenerativeImage { .. } => true,
            _ => false,
        }
    }

    /// Whether the asset is audio, imported or generative.
    pub fn is_audio(&self) -> (r: bool)
        ensures
            r == kind_is_audio(self.kind),
    {
        match self.kind {
            AssetKind::Audio { .. } | AssetKind::GenerativeAudio { .. } => true,
            _ => false,
        }
    }

    /// Whether the asset is generative.
    pub fn is_generative(&self) -> (r: bool)
        ensures
            r == kind_is_generative(self.kind),
    {
        match self.kind {
            AssetKind::GenerativeVideo { .. }
            | AssetKind::GenerativeImage { .. }
            | AssetKind::GenerativeAudio { .. } => true,
            _ => false,
        }
    }

    /// Whether the asset has pictures (video or image).
    pub fn is_visual(&self) -> (r: bool)
        ensures
            r == (kind_is_video(self.kind) || kind_is_image(self.kind)),
    {
        self.is_video() || self.is_image()
    }

    /// The active version of a generative asset.
    pub fn active_version(&self) -> (r: Option<&String>)
        ensures
            match r {
                Some(v) => kind_active_version(self.kind) == Some(v@),
                None => kind_active_version(self.kind) is None,
            },
    {
        match &self.kind {
            AssetKind::GenerativeVideo { active_version, .. }
            | AssetKind::GenerativeImage { active_version, .. }
            | AssetKind::GenerativeAudio { active_version, .. } => match active_version {
                Some(v) => Some(v),
                None => None,
            },
            _ => None,
        }
    }
}

/// How a provider input is typed.
#[derive(Clone, Debug)]
pub enum ProviderInputType {
    Text,
    Number,
    Integer,
    Boolean,
    Enum { options: Vec<String> },
    Image,
    Video,
    Audio,
}

/// One input a provider accepts.
#[derive(Clone, Debug)]
pub struct ProviderInputField {
    pub name: String,
    pub label: String,
    pub input_type: ProviderInputType,
}

/// A generation provider.
#[derive(Clone, Debug)]
pub struct ProviderEntry {
    pub id: u128,
    pub name: String,
    pub output_type: ProviderOutputType,
    pub inputs: Vec<ProviderInputField>,
}

/// An equal copy of a list of strings.
fn duplicate_strings(v: &Vec<String>) -> (r: Vec<String>)
    ensures
        r@ == v@,
{
    let mut r: Vec<String> = Vec::new();
    let n = v.len();
    for i in 0..n
        invariant
            n == v@.len(),
            r@ == v@.take(i as int),
    {
        r.push(v[i].clone());
        assert(v@.take(i + 1) =~= v@.take(i as int).push(v@[i as int]));
    }
    assert(v@.take(n as int) =~= v@);
    r
}

impl ProviderInputType {
    /// An equal copy of the type.
    pub fn duplicate(&self) -> (r: ProviderInputType)
        ensures
            match (r, *self) {
                (ProviderInputType::Enum { options: a }, ProviderInputType::Enum { options: b }) => a@
                    == b@,
                _ => r == *self,
            },
    {
        match self {
            ProviderInputType::Text => ProviderInputType::Text,
            ProviderInputType::Number => ProviderInputType::Number,
            ProviderInputType::Integer => ProviderInputType::Integer,
            ProviderInputType::Boolean => ProviderInputType::Boolean,
            ProviderInputType::Enum { options } => ProviderInputType::Enum {
                options: duplicate_strings(options),
            },
            ProviderInputType::Image => ProviderInputType::Image,
            ProviderInputType::Video => ProviderInputType::Video,
            ProviderInputType::Audio => ProviderInputType::Audio,
        }
    }
}

/// Two input types are the same: the same variant, and for enumerations
/// the same options.
pub open spec fn same_input_type(a: ProviderInputType, b: ProviderInputType) -> bool {
    match (a, b) {
        (ProviderInputType::Enum { options: x }, ProviderInputType::Enum { options: y }) => x@ == y@,
        (ProviderInputType::Enum { .. }, _) => false,
        (_, ProviderInputType::Enum { .. }) => false,
        _ => a == b,
    }
}

/// Two input fields are the same field.
pub open spec fn same_field(a: ProviderInputField, b: ProviderInputField) -> bool {
    a.name@ == b.name@ && a.label@ == b.label@ && same_input_type(a.input_type, b.input_type)
}

/// Two providers are the same: identifier, name, output type and fields.
pub open spec fn same_provider(a: ProviderEntry, b: ProviderEntry) -> bool {
    &&& a.id == b.id
    &&& a.name@ == b.name@
    &&& a.output_type == b.output_type
    &&& a.inputs@.len() == b.inputs@.len()
    &&& forall|k: int| 0 <= k < a.inputs@.len() ==> same_field(#[trigger] a.inputs@[k], b.inputs@[k])
}

impl ProviderEntry {
    /// A copy of the provider with the same values.
    pub fn duplicate(&self) -> (r: ProviderEntry)
        ensures
            same_provider(r, *self),
    {
        let mut inputs: Vec<ProviderInputField> = Vec::new();
        let n = self.inputs.len();
        for i in 0..n
            invariant
                n == self.inputs@.len(),
                inputs@.len() == i,
                forall|k: int| 0 <= k < i ==> same_field(#[trigger] inputs@[k], self.inputs@[k]),
        {
            let f = &self.inputs[i];
            let t = f.input_type.duplicate();
            inputs.push(ProviderInputField { name: f.name.clone(), label: f.label.clone(), input_type: t });
        }
        ProviderEntry { id: self.id, name: self.name.clone(), output_type: self.output_type, inputs }
    }
}

} // verus!
