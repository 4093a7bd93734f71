//! Where generative assets keep their outputs, and which output file a
//! version resolves to.

use vstd::prelude::*;
use crate::model::{Asset, AssetKind, ProviderOutputType, kind_active_version, kind_is_generative, kind_source, kind_media};
use crate::audio::{asset_with, find_asset};
use crate::naming::{path_label, path_label_text};

verus! {

/// Whether the kind is a generative image.
pub fn is_generative_image(kind: &AssetKind) -> (r: bool)
    ensures
        r == (*kind is GenerativeImage),
{
    match kind {
        AssetKind::GenerativeImage { .. } => true,
        _ => false,
    }
}

/// Whether the kind is generative audio.
pub fn is_generative_audio(kind: &AssetKind) -> (r: bool)
    ensures
        r == (*kind is GenerativeAudio),
{
    match kind {
        AssetKind::GenerativeAudio { .. } => true,
        _ => false,
    }
}

/// Whether the kind is a generative video.
pub fn is_generative_video(kind: &AssetKind) -> (r: bool)
    ensures
        r == (*kind is GenerativeVideo),
{
    match kind {
        AssetKind::GenerativeVideo { .. } => true,
        _ => false,
    }
}

/// The output folder of a generative asset.
pub fn generative_folder(asset: &Asset) -> (r: Option<&String>)
    ensures
        match r {
            Some(f) => kind_is_generative(asset.kind) && f@ == kind_source(asset.kind),
            None => !kind_is_generative(asset.kind),
        },
{
    match &asset.kind {
        AssetKind::GenerativeVideo { folder, .. }
        | AssetKind::GenerativeImage { folder, .. }
        | AssetKind::GenerativeAudio { folder, .. } => Some(folder),
        _ => None,
    }
}

/// The media type word of a generative asset ("video", "image", "audio").
pub fn generative_media_type(asset: &Asset) -> (r: Option<&'static str>)
    ensures
        match asset.kind {
            AssetKind::GenerativeVideo { .. } => r matches Some(t) && t@ == "video"@,
            AssetKind::GenerativeImage { .. } => r matches Some(t) && t@ == "image"@,
            AssetKind::GenerativeAudio { .. } => r matches Some(t) && t@ == "audio"@,
            _ => r is None,
        },
{
    match &asset.kind {
        AssetKind::GenerativeVideo { .. } => Some("video"),
        AssetKind::GenerativeImage { .. } => Some("image"),
        AssetKind::GenerativeAudio { .. } => Some("audio"),
        _ => None,
    }
}

/// Points a generative asset at another output folder; other assets are unchanged.
pub fn set_generative_folder(asset: &mut Asset, next_folder: String)
    ensures
        final(asset).id == old(asset).id,
        final(asset).name == old(asset).name,
        kind_is_generative(old(asset).kind) ==> kind_source(final(asset).kind) == next_folder@
            && kind_active_version(final(asset).kind) == kind_active_version(old(asset).kind)
            && (old(asset).kind is GenerativeVideo <==> final(asset).kind is GenerativeVideo)
            && (old(asset).kind is GenerativeImage <==> final(asset).kind is GenerativeImage)
            && (old(asset).kind is GenerativeAudio <==> final(asset).kind is GenerativeAudio),
        !kind_is_generative(old(asset).kind) ==> *final(asset) == *old(asset),
{
    match &mut asset.kind {
        AssetKind::GenerativeVideo { folder, .. } => {
            *folder = next_folder;
        },
        AssetKind::GenerativeImage { folder, .. } => {
            *folder = next_folder;
        },
        AssetKind::GenerativeAudio { folder, .. } => {
            *folder = next_folder;
        },
        _ => {},
    }
}

/// The project-relative source (path or folder) of an asset, shortened for display.
pub fn asset_source_label(asset: &Asset) -> (r: Option<String>)
    ensures
        r matches Some(l) && l@ == path_label_text(kind_source(asset.kind)),
{
    let source: &String = match &asset.kind {
        AssetKind::Video { path } | AssetKind::Image { path } | AssetKind::Audio { path } => path,
        AssetKind::GenerativeVideo { folder, .. }
        | AssetKind::GenerativeImage { folder, .. }
        | AssetKind::GenerativeAudio { folder, .. } => folder,
    };
    Some(path_label(source.as_str()))
}

/// The file extensions of image outputs, in order of preference.
pub open spec fn image_extensions() -> Seq<Seq<char>> {
    seq!["png"@, "jpg"@, "jpeg"@, "gif"@, "webp"@]
}

/// The file extensions of video outputs, in order of preference.
pub open spec fn video_extensions() -> Seq<Seq<char>> {
    seq!["mp4"@, "mov"@, "mkv"@, "webm"@, "avi"@]
}

/// The file extensions of audio outputs, in order of preference.
pub open spec fn audio_extensions() -> Seq<Seq<char>> {
    seq!["wav"@, "mp3"@, "flac"@, "ogg"@]
}

/// The output extensions of a generative kind.
pub open spec fn output_extensions(kind: AssetKind) -> Option<Seq<Seq<char>>> {
    match kind {
        AssetKind::GenerativeImage { .. } => Some(image_extensions()),
        AssetKind::GenerativeVideo { .. } => Some(video_extensions()),
        AssetKind::GenerativeAudio { .. } => Some(audio_extensions()),
        _ => None,
    }
}

/// The views of a list of string slices.
pub open spec fn str_views(v: Seq<&str>) -> Seq<Seq<char>> {
    v.map_values(|s: &str| s@)
}

/// The output extensions of a generative asset, in order of preference.
pub fn generative_output_extensions(asset: &Asset) -> (r: Option<Vec<&'static str>>)
    ensures
        match r {
            Some(v) => output_extensions(asset.kind) == Some(str_views(v@)),
            None => output_extensions(asset.kind) is None,
        },
{
    let r = match asset.kind {
        AssetKind::GenerativeImage { .. } => Some(vec!["png", "jpg", "jpeg", "gif", "webp"]),
        AssetKind::GenerativeVideo { .. } => Some(vec!["mp4", "mov", "mkv", "webm", "avi"]),
        AssetKind::GenerativeAudio { .. } => Some(vec!["wav", "mp3", "flac", "ogg"]),
        _ => None,
    };
    proof {
        if r is Some {
            assert(str_views(r->0@) =~= output_extensions(asset.kind)->0);
        }
    }
    r
}

/// The first "version.ext" file, trying the extensions in order, that is
/// among the files of the output folder.
pub open spec fn first_output_file(
    files: Seq<Seq<char>>,
    version: Seq<char>,
    extensions: Seq<Seq<char>>,
) -> Option<Seq<char>>
    decreases extensions.len(),
{
    if extensions.len() == 0 {
        None
    } else if files.contains(version + "."@ + extensions[0]) {
        Some(version + "."@ + extensions[0])
    } else {
        first_output_file(files, version, extensions.drop_first())
    }
}

/// Whether `name` is among `files`.
fn file_listed(files: &Vec<String>, name: &String) -> (r: bool)
    ensures
        r == files@.map_values(|f: String| f@).contains(name@),
{
    let ghost names = files@.map_values(|f: String| f@);
    let mut i: usize = 0;
    while i < files.len()
        invariant
            i <= files.len(),
            names == files@.map_values(|f: String| f@),
            forall|j: int| 0 <= j < i ==> files@[j]@ != name@,
        decreases files.len() - i,
    {
        if files[i] == *name {
            assert(names[i as int] == name@);
            return true;
        }
        i = i + 1;
    }
    proof {
        if names.contains(name@) {
            let j = choose|j: int| 0 <= j < names.len() && names[j] == name@;
            assert(files@[j]@ == name@);
        }
    }
    false
}

/// The output file of a version: the first "version.ext" present in the
/// output folder (whose file names are `files`), trying `extensions` in
/// order; nothing without a version.
pub fn resolve_generative_output_file(
    files: &Vec<String>,
    active_version: Option<&str>,
    extensions: &Vec<&str>,
) -> (r: Option<String>)
    ensures
        match active_version {
            None => r is None,
            Some(v) => match r {
                Some(f) => first_output_file(
                    files@.map_values(|f: String| f@),
                    v@,
                    str_views(extensions@),
                ) == Some(f@),
                None => first_output_file(
                    files@.map_values(|f: String| f@),
                    v@,
                    str_views(extensions@),
                ) is None,
            },
        },
{
    let version = match active_version {
        Some(v) => v,
        None => {
            return None;
        },
    };
    let ghost names = files@.map_values(|f: String| f@);
    let mut i: usize = 0;
    assert(str_views(extensions@).skip(0) =~= str_views(extensions@));
    while i < extensions.len()
        invariant
            i <= extensions.len(),
            active_version == Some(version),
            names == files@.map_values(|f: String| f@),
            first_output_file(names, version@, str_views(extensions@)) == first_output_file(
                names,
                version@,
                str_views(extensions@).skip(i as int),
            ),
        decreases extensions.len() - i,
    {
        let candidate = String::from_str(version).concat(".").concat(extensions[i]);
        assert(str_views(extensions@).skip(i as int)[0] == extensions@[i as int]@);
        assert(str_views(extensions@).skip(i as int).drop_first() =~= str_views(extensions@).skip(
            i + 1,
        ));
        assert(candidate@ == version@ + "."@ + str_views(extensions@).skip(i as int)[0]);
        if file_listed(files, &candidate) {
            return Some(candidate);
        }
        i = i + 1;
    }
    None
}

/// The kind of asset an extracted output becomes.
#[derive(Clone, Copy, Debug, PartialEq, Eq, Structural)]
pub enum ExtractedAssetOutput {
    Image,
    Video,
    Audio,
}

/// Where a generated output comes from and where its copy goes.
#[derive(Clone, Debug)]
pub struct GenerativeExtractionSource {
    /// The output file, inside the asset's output folder.
    pub file_name: String,
    pub output: ExtractedAssetOutput,
    /// The project folder the copy goes to.
    pub target_subdir: &'static str,
    /// The extension used when the output file has none.
    pub default_extension: &'static str,
    pub version: Option<String>,
}

/// The output file of a generative asset's version (the requested one,
/// else the active one), among the file names of its output folder; nothing
/// for other assets.
pub fn generative_output_file_for_version(
    asset: &Asset,
    version: Option<&str>,
    files: &Vec<String>,
) -> (r: Option<String>)
    ensures
        match (output_extensions(asset.kind), extraction_version(
            asset.kind,
            match version {
                Some(v) => Some(v@),
                None => None,
            },
        )) {
            (Some(exts), Some(v)) => match r {
                Some(f) => first_output_file(files@.map_values(|f: String| f@), v, exts) == Some(f@),
                None => first_output_file(files@.map_values(|f: String| f@), v, exts) is None,
            },
            _ => r is None,
        },
{
    if generative_folder(asset).is_none() {
        return None;
    }
    let extensions = match generative_output_extensions(asset) {
        Some(e) => e,
        None => {
            return None;
        },
    };
    let chosen: Option<&str> = match version {
        Some(v) => Some(v),
        None => match asset.active_version() {
            Some(a) => Some(a.as_str()),
            None => None,
        },
    };
    resolve_generative_output_file(files, chosen, &extensions)
}

/// The version extracted: the requested one, else the active one.
pub open spec fn extraction_version(kind: AssetKind, version_override: Option<Seq<char>>) -> Option<Seq<char>> {
    match version_override {
        Some(v) => Some(v),
        None => kind_active_version(kind),
    }
}

/// The extraction of a generative asset's version, given the files of its
/// output folder: the output file of the version (requested, else active) and
/// where its kind of media goes ("images"/"png", "video"/"mp4",
/// "audio"/"wav"); nothing for other assets or when no output file exists.
pub open spec fn extraction_matches(
    asset: Asset,
    version_override: Option<Seq<char>>,
    files: Seq<Seq<char>>,
    r: Option<GenerativeExtractionSource>,
) -> bool {
    match (output_extensions(asset.kind), extraction_version(asset.kind, version_override)) {
        (Some(exts), Some(v)) => match first_output_file(files, v, exts) {
            Some(f) => match r {
                Some(src) => {
                    &&& src.file_name@ == f
                    &&& (src.version matches Some(sv) && sv@ == v)
                    &&& match asset.kind {
                        AssetKind::GenerativeImage { .. } => src.output
                            == ExtractedAssetOutput::Image && src.target_subdir@ == "images"@
                            && src.default_extension@ == "png"@,
                        AssetKind::GenerativeVideo { .. } => src.output
                            == ExtractedAssetOutput::Video && src.target_subdir@ == "video"@
                            && src.default_extension@ == "mp4"@,
                        _ => src.output == ExtractedAssetOutput::Audio && src.target_subdir@
                            == "audio"@ && src.default_extension@ == "wav"@,
                    }
                },
                None => false,
            },
            None => r is None,
        },
        _ => r is None,
    }
}

/// The source of extracting a generative asset's version as an asset of its
/// own, given the file names of the asset's output folder.
pub fn generative_source_for_extraction(
    asset: &Asset,
    version_override: Option<&str>,
    files: &Vec<String>,
) -> (r: Option<GenerativeExtractionSource>)
    ensures
        extraction_matches(
            *asset,
            match version_override {
                Some(v) => Some(v@),
                None => None,
            },
            files@.map_values(|f: String| f@),
            r,
        ),
{
    let extensions = match generative_output_extensions(asset) {
        Some(e) => e,
        None => {
            return None;
        },
    };
    let version: Option<&str> = match version_override {
        Some(v) => Some(v),
        None => match asset.active_version() {
            Some(a) => Some(a.as_str()),
            None => None,
        },
    };
    let file_name = match resolve_generative_output_file(files, version, &extensions) {
        Some(f) => f,
        None => {
            return None;
        },
    };
    let v = match version {
        Some(v) => v,
        None => {
            return None;
        },
    };
    let (output, target_subdir, default_extension) = match asset.kind {
        AssetKind::GenerativeImage { .. } => (ExtractedAssetOutput::Image, "images", "png"),
        AssetKind::GenerativeVideo { .. } => (ExtractedAssetOutput::Video, "video", "mp4"),
        _ => (ExtractedAssetOutput::Audio, "audio", "wav"),
    };
    Some(
        GenerativeExtractionSource {
            file_name,
            output,
            target_subdir,
            default_extension,
            version: Some(String::from_str(v)),
        },
    )
}

/// The output folder and media type of generative asset `asset_id`;
/// nothing when no asset has the identifier or the asset is not generative.
pub fn generative_output_for_asset(assets: &Vec<Asset>, asset_id: u128) -> (r: Option<(String, ProviderOutputType)>)
    ensures
        match asset_with(assets@, asset_id) {
            Some(a) => if kind_is_generative(a.kind) {
                r matches Some(o) && o.0@ == kind_source(a.kind) && o.1 == kind_media(a.kind)
            } else {
                r is None
            },
            None => r is None,
        },
{
    let asset = match find_asset(assets, asset_id) {
        Some(a) => a,
        None => {
            return None;
        },
    };
    match &asset.kind {
        AssetKind::GenerativeImage { folder, .. } => Some((folder.clone(), ProviderOutputType::Image)),
        AssetKind::GenerativeVideo { folder, .. } => Some((folder.clone(), ProviderOutputType::Video)),
        AssetKind::GenerativeAudio { folder, .. } => Some((folder.clone(), ProviderOutputType::Audio)),
        _ => None,
    }
}

} // verus!
