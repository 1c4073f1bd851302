//! The order of the optimizer's stages.
use crate::options::Options;
use crate::version::{MinecraftVersion, older_than};
use vstd::prelude::*;

verus! {

/// One stage of optimizing a pack, after its files are read.
#[derive(Clone, Copy, Debug, PartialEq, Eq, Structural)]
pub enum Stage {
    /// Merge the overlays meant for the target version and drop the others.
    RemoveOverlays,
    /// Drop the item definitions, which the target version does not know.
    DropItems,
    /// Warn of unused files and broken references.
    CheckUsage,
    /// Give overlays, models, textures and sounds short names.
    RenameFiles,
    /// Optimize each file and write the archive.
    WriteArchive,
}

/// The target's pack format, 0 without a target version.
pub open spec fn target_format(options: Options) -> u8 {
    match options.target_version {
        Some(v) => v.format(),
        None => 0,
    }
}

/// The stages that `options` call for, in order: overlays are removed and,
/// for targets older than 1.21.4, item definitions dropped when a target
/// version is set; usage is always checked; files are renamed when asked
/// to; the archive is written last.
pub open spec fn stage_plan(options: Options) -> Seq<Stage> {
    (if options.target_version is Some {
        if older_than(target_format(options), MinecraftVersion::V1_21_4) {
            seq![Stage::RemoveOverlays, Stage::DropItems]
        } else {
            seq![Stage::RemoveOverlays]
        }
    } else {
        Seq::empty()
    }) + seq![Stage::CheckUsage] + (if options.rename_files {
        seq![Stage::RenameFiles]
    } else {
        Seq::empty()
    }) + seq![Stage::WriteArchive]
}

/// The stages to run for `options`, in order (see `stage_plan`).
pub fn stages(options: &Options) -> (r: Vec<Stage>)
    ensures
        r@ == stage_plan(*options),
{
    let mut r: Vec<Stage> = Vec::new();
    match options.target_version {
        Some(v) => {
            r.push(Stage::RemoveOverlays);
            if crate::version::is_older_than_1_21_4(v.pack_format()) {
                r.push(Stage::DropItems);
            }
        },
        None => {},
    }
    r.push(Stage::CheckUsage);
    if options.rename_files {
        r.push(Stage::RenameFiles);
    }
    r.push(Stage::WriteArchive);
    assert(r@ =~= stage_plan(*options));
    r
}

/// Where a stage comes in a run: overlays first, then items, the usage
/// check, renaming, and the archive last.
pub open spec fn stage_position(s: Stage) -> int {
    match s {
        Stage::RemoveOverlays => 0,
        Stage::DropItems => 1,
        Stage::CheckUsage => 2,
        Stage::RenameFiles => 3,
        Stage::WriteArchive => 4,
    }
}

/// What the options decide about a run: files are renamed exactly when
/// renaming is asked for; overlays are removed exactly when a target version
/// is set, and item definitions dropped exactly when that target is older
/// than 1.21.4; usage is always checked and the archive always written, last;
/// no stage runs twice, and the stages come in their fixed order.
pub proof fn stages_follow_the_options(options: Options)
    ensures
        stage_plan(options).contains(Stage::RenameFiles) <==> options.rename_files,
        stage_plan(options).contains(Stage::RemoveOverlays) <==> options.target_version is Some,
        stage_plan(options).contains(Stage::DropItems) <==> (options.target_version matches Some(v) && v.format()
            < MinecraftVersion::V1_21_4.format()),
        stage_plan(options).contains(Stage::CheckUsage),
        stage_plan(options).len() > 0 && stage_plan(options).last() == Stage::WriteArchive,
        forall|i: int, j: int|
            0 <= i < j < stage_plan(options).len() ==> stage_position(#[trigger] stage_plan(options)[i])
                < stage_position(#[trigger] stage_plan(options)[j]),
{
    let p = stage_plan(options);
    let head: Seq<Stage> = if options.target_version is Some {
        if older_than(target_format(options), MinecraftVersion::V1_21_4) {
            seq![Stage::RemoveOverlays, Stage::DropItems]
        } else {
            seq![Stage::RemoveOverlays]
        }
    } else {
        Seq::empty()
    };
    let tail: Seq<Stage> = if options.rename_files {
        seq![Stage::RenameFiles]
    } else {
        Seq::empty()
    };
    assert(p =~= head + seq![Stage::CheckUsage] + tail + seq![Stage::WriteArchive]);
    let c = head.len() as int;
    assert(p[c] == Stage::CheckUsage);
    if options.rename_files {
        assert(p[c + 1] == Stage::RenameFiles);
    } else {
        assert forall|i: int| 0 <= i < p.len() implies p[i] != Stage::RenameFiles by {}
    }
    if options.target_version is Some {
        assert(p[0] == Stage::RemoveOverlays);
        if older_than(target_format(options), MinecraftVersion::V1_21_4) {
            assert(p[1] == Stage::DropItems);
        } else {
            assert forall|i: int| 0 <= i < p.len() implies p[i] != Stage::DropItems by {}
        }
    } else {
        assert forall|i: int| 0 <= i < p.len() implies p[i] != Stage::RemoveOverlays && p[i] != Stage::DropItems by {}
    }
    match options.target_version {
        Some(v) => {
            assert(v.format() > 0);
        },
        None => {},
    }
}

} // verus!
