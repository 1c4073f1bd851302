//! Optimization settings and their presets.
use crate::version::MinecraftVersion;
use vstd::prelude::*;

verus! {

#[derive(Clone, Debug, Copy, PartialEq, Eq, Structural)]
pub enum Compression {
    Fast,
    Normal,
}

impl Compression {
    pub open spec fn byte(self) -> u8 {
        match self {
            Compression::Fast => 0,
            Compression::Normal => 1,
        }
    }

    pub open spec fn from_byte(value: u8) -> Compression {
        if value == 0 {
            Compression::Fast
        } else {
            Compression::Normal
        }
    }

    /// The number of this compression (`Fast` is 0, `Normal` 1).
    pub fn to_u8(self) -> (r: u8)
        ensures
            r == self.byte(),
    {
        match self {
            Compression::Fast => 0,
            Compression::Normal => 1,
        }
    }

    /// 0 is `Fast`, anything else `Normal`.
    pub fn from_u8(value: u8) -> (r: Self)
        ensures
            r == Self::from_byte(value),
    {
        match value {
            0 => Self::Fast,
            _ => Self::Normal,
        }
    }
}

#[derive(Clone, Debug, Copy, PartialEq, Eq, Structural)]
pub enum ShaderCompression {
    Disabled,
    Minify,
    MinifyAndObfuscate,
}

#[derive(Clone, Debug, Copy, PartialEq, Eq, Structural)]
pub enum Preset {
    Fast,
    Normal,
    Best,
}

#[derive(Clone, Debug, Copy, PartialEq, Eq, Structural)]
pub struct Options {
    pub compression: Compression,
    pub shader_compression: ShaderCompression,
    pub rename_files: bool,
    pub block_unzipping: bool,
    pub corrupt_png_files: bool,
    pub num_threads: Option<usize>,
    pub target_version: Option<MinecraftVersion>,
}

impl Options {
    /// The options of `preset`: `Fast` and `Normal` only set the compression;
    /// `Best` also renames files, blocks unzipping and corrupts PNG files.
    pub open spec fn preset(preset: Preset) -> Options {
        Options {
            compression: if preset == Preset::Fast {
                Compression::Fast
            } else {
                Compression::Normal
            },
            shader_compression: ShaderCompression::Disabled,
            rename_files: preset == Preset::Best,
            block_unzipping: preset == Preset::Best,
            corrupt_png_files: preset == Preset::Best,
            num_threads: None,
            target_version: None,
        }
    }

    pub fn fast() -> (r: Self)
        ensures
            r == Self::preset(Preset::Fast),
    {
        Self {
            compression: Compression::Fast,
            shader_compression: ShaderCompression::Disabled,
            rename_files: false,
            block_unzipping: false,
            corrupt_png_files: false,
            num_threads: None,
            target_version: None,
        }
    }

    pub fn normal() -> (r: Self)
        ensures
            r == Self::preset(Preset::Normal),
    {
        Self {
            compression: Compression::Normal,
            shader_compression: ShaderCompression::Disabled,
            rename_files: false,
            block_unzipping: false,
            corrupt_png_files: false,
            num_threads: None,
            target_version: None,
        }
    }

    pub fn best() -> (r: Self)
        ensures
            r == Self::preset(Preset::Best),
    {
        Self {
            compression: Compression::Normal,
            shader_compression: ShaderCompression::Disabled,
            rename_files: true,
            block_unzipping: true,
            corrupt_png_files: true,
            num_threads: None,
            target_version: None,
        }
    }

    pub fn from_preset(preset: Preset) -> (r: Self)
        ensures
            r == Self::preset(preset),
    {
        match preset {
            Preset::Fast => Self::fast(),
            Preset::Normal => Self::normal(),
            Preset::Best => Self::best(),
        }
    }
}

/// The presets grow in effort: only `Fast` uses the fast compression; only
/// `Best` renames files, blocks unzipping and corrupts PNG files; no preset
/// sets a target version or minifies shaders.
pub proof fn presets_grow_in_effort(p: Preset)
    ensures
        (Options::preset(p).compression == Compression::Fast) <==> p == Preset::Fast,
        Options::preset(p).rename_files <==> p == Preset::Best,
        Options::preset(p).block_unzipping <==> p == Preset::Best,
        Options::preset(p).corrupt_png_files <==> p == Preset::Best,
        Options::preset(p).target_version is None,
        Options::preset(p).shader_compression == ShaderCompression::Disabled,
        Options::preset(Preset::Fast).compression.byte() <= Options::preset(Preset::Normal).compression.byte(),
        Options::preset(Preset::Normal).compression.byte() <= Options::preset(Preset::Best).compression.byte(),
{
}

} // verus!
