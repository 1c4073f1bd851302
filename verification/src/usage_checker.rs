//! Finding unused files and references to files that do not exist.
use crate::minecraft::builtin_files::{BuiltinFiles, is_in_models, is_in_sounds, is_in_textures};
use crate::overlay_remover::{contains_text, texts};
use crate::resource_pack::mapping::{IdCategory, IdUsageCounter};
use crate::text::join3;
use crate::{LogLevel, LogMessage};
use vstd::prelude::*;

verus! {

/// The identifiers of `category` that ship with Minecraft.
pub open spec fn builtin_names(builtins: &BuiltinFiles, category: IdCategory) -> Set<Seq<char>> {
    match category {
        IdCategory::Model => builtins.models@,
        IdCategory::Texture => builtins.textures@,
        IdCategory::Sound => builtins.sounds@,
    }
}

/// The positions, in order, of the first `n` entries that satisfy `keep`.
pub open spec fn positions(keep: spec_fn(int) -> bool, n: int) -> Seq<usize>
    decreases n,
{
    if n <= 0 {
        Seq::empty()
    } else if keep(n - 1) {
        positions(keep, n - 1).push((n - 1) as usize)
    } else {
        positions(keep, n - 1)
    }
}

/// The files of the pack (by identifier text, in order) that nothing
/// references: their positions.
pub fn unused_files(ids: &Vec<String>, counter: &IdUsageCounter, category: IdCategory) -> (r: Vec<usize>)
    ensures
        r@ == positions(|j: int| !counter.table(category).contains_key(ids@[j]@), ids.len() as int),
{
    let ghost keep = |j: int| !counter.table(category).contains_key(ids@[j]@);
    let mut out: Vec<usize> = Vec::new();
    let mut i: usize = 0;
    while i < ids.len()
        invariant
            i <= ids.len(),
            keep == (|j: int| !counter.table(category).contains_key(ids@[j]@)),
            out@ == positions(keep, i as int),
        decreases ids.len() - i,
    {
        if !referenced(counter, ids[i].as_str(), category) {
            out.push(i);
        }
        i = i + 1;
    }
    out
}

fn referenced(counter: &IdUsageCounter, id: &str, category: IdCategory) -> (r: bool)
    ensures
        r == counter.table(category).contains_key(id@),
{
    match category {
        IdCategory::Model => counter.model_counter.contains_key(id),
        IdCategory::Texture => counter.texture_counter.contains_key(id),
        IdCategory::Sound => counter.sound_counter.contains_key(id),
    }
}

/// The references (by identifier text) to files of `category` that are
/// neither built into Minecraft nor in the pack: their positions.
pub fn broken_references(
    referenced_ids: &Vec<String>,
    ids_in_pack: &Vec<String>,
    builtins: &BuiltinFiles,
    category: IdCategory,
) -> (r: Vec<usize>)
    ensures
        r@ == positions(
            |k: int|
                !builtin_names(builtins, category).contains(referenced_ids@[k]@) && !texts(ids_in_pack@).contains(
                    referenced_ids@[k]@,
                ),
            referenced_ids.len() as int,
        ),
{
    let ghost keep = |k: int|
        !builtin_names(builtins, category).contains(referenced_ids@[k]@) && !texts(ids_in_pack@).contains(
            referenced_ids@[k]@,
        );
    let mut out: Vec<usize> = Vec::new();
    let mut i: usize = 0;
    while i < referenced_ids.len()
        invariant
            i <= referenced_ids.len(),
            keep == (|k: int|
                !builtin_names(builtins, category).contains(referenced_ids@[k]@) && !texts(ids_in_pack@).contains(
                    referenced_ids@[k]@,
                )),
            out@ == positions(keep, i as int),
        decreases referenced_ids.len() - i,
    {
        let id = &referenced_ids[i];
        let builtin = match category {
            IdCategory::Model => is_in_models(builtins, id.as_str()),
            IdCategory::Texture => is_in_textures(builtins, id.as_str()),
            IdCategory::Sound => is_in_sounds(builtins, id.as_str()),
        };
        if !builtin && !contains_text(ids_in_pack, id) {
            out.push(i);
        }
        i = i + 1;
    }
    out
}

/// The warnings for the first `n` files (key, identifier text) of the pack
/// that nothing references.
pub open spec fn unused_warnings(
    label: Seq<char>,
    files: Seq<(Seq<char>, Seq<char>)>,
    counted: Map<Seq<char>, usize>,
    n: int,
) -> Seq<Seq<char>>
    decreases n,
{
    if n <= 0 {
        Seq::empty()
    } else {
        let before = unused_warnings(label, files, counted, n - 1);
        let (key, id) = files[n - 1];
        if counted.contains_key(id) {
            before
        } else {
            before.push("Unused "@ + label + ": "@ + id + " (File: "@ + key + ")"@)
        }
    }
}

/// The warnings for the first `n` references that point at no file of the
/// pack and at no vanilla file.
pub open spec fn broken_warnings(
    label: Seq<char>,
    referenced: Seq<Seq<char>>,
    in_pack: Seq<Seq<char>>,
    builtin: Set<Seq<char>>,
    n: int,
) -> Seq<Seq<char>>
    decreases n,
{
    if n <= 0 {
        Seq::empty()
    } else {
        let before = broken_warnings(label, referenced, in_pack, builtin, n - 1);
        let id = referenced[n - 1];
        if builtin.contains(id) || in_pack.contains(id) {
            before
        } else {
            before.push("Broken "@ + label + " Reference: '"@ + id + "' is referenced but not found in the pack"@)
        }
    }
}

pub open spec fn message_texts(m: Seq<LogMessage>) -> Seq<Seq<char>> {
    m.map_values(|l: LogMessage| l.message@)
}

/// The warnings of one category (`label` names it): files of the pack
/// (key, identifier text) that nothing references, then references (by
/// identifier text) that point at neither a file of the pack nor a vanilla
/// file. All are warnings.
pub fn usage_warnings(
    label: &str,
    files: &Vec<(String, String)>,
    referenced_ids: &Vec<String>,
    counter: &IdUsageCounter,
    builtins: &BuiltinFiles,
    category: IdCategory,
) -> (r: Vec<LogMessage>)
    ensures
        message_texts(r@) == unused_warnings(
            label@,
            files@.map_values(|e: (String, String)| (e.0@, e.1@)),
            counter.table(category),
            files.len() as int,
        ) + broken_warnings(
            label@,
            texts(referenced_ids@),
            files@.map_values(|e: (String, String)| e.1@),
            builtin_names(builtins, category),
            referenced_ids.len() as int,
        ),
        forall|j: int| 0 <= j < r.len() ==> (#[trigger] r@[j]).level == LogLevel::Warning,
{
    proof {
        reveal_strlit("Unused ");
        reveal_strlit(": ");
        reveal_strlit(" (File: ");
        reveal_strlit(")");
        reveal_strlit("Broken ");
        reveal_strlit(" Reference: '");
        reveal_strlit("' is referenced but not found in the pack");
    }
    let ghost fs = files@.map_values(|e: (String, String)| (e.0@, e.1@));
    let mut out: Vec<LogMessage> = Vec::new();
    let mut ids: Vec<String> = Vec::new();
    let mut i: usize = 0;
    while i < files.len()
        invariant
            i <= files.len(),
            fs == files@.map_values(|e: (String, String)| (e.0@, e.1@)),
            ids.len() == i,
            texts(ids@) == files@.map_values(|e: (String, String)| e.1@).take(i as int),
            message_texts(out@) == unused_warnings(label@, fs, counter.table(category), i as int),
            forall|j: int| 0 <= j < out.len() ==> (#[trigger] out@[j]).level == LogLevel::Warning,
        decreases files.len() - i,
    {
        let key = &files[i].0;
        let id = &files[i].1;
        assert(fs[i as int] == (key@, id@));
        let ghost before = out@;
        if !referenced(counter, id.as_str(), category) {
            let a = join3("Unused ", label, ": ");
            let b = join3(a.as_str(), id.as_str(), " (File: ");
            let message = join3(b.as_str(), key.as_str(), ")");
            out.push(LogMessage { level: LogLevel::Warning, message });
            assert(message_texts(out@) =~= message_texts(before).push(
                "Unused "@ + label@ + ": "@ + id@ + " (File: "@ + key@ + ")"@,
            ));
        }
        let ghost ids_before = ids@;
        let copy = id.clone();
        ids.push(copy);
        proof {
            let want = files@.map_values(|e: (String, String)| e.1@);
            assert(want[i as int] == id@);
            assert(ids@[i as int]@ == id@);
            assert forall|q: int| 0 <= q < i + 1 implies #[trigger] texts(ids@)[q] == want.take(i + 1)[q] by {
                if q < i {
                    assert(ids@[q] == ids_before[q]);
                    assert(texts(ids_before)[q] == want.take(i as int)[q]);
                }
            }
            assert(texts(ids@) =~= want.take(i + 1));
        }
        i = i + 1;
    }
    assert(files@.map_values(|e: (String, String)| e.1@).take(files.len() as int) =~= files@.map_values(
        |e: (String, String)| e.1@,
    ));
    assert(texts(ids@) =~= files@.map_values(|e: (String, String)| e.1@));
    let ghost unused_part = out@;
    let ghost refs = texts(referenced_ids@);
    let ghost in_pack = files@.map_values(|e: (String, String)| e.1@);
    let mut k: usize = 0;
    while k < referenced_ids.len()
        invariant
            k <= referenced_ids.len(),
            refs == texts(referenced_ids@),
            in_pack == texts(ids@),
            message_texts(out@) == message_texts(unused_part) + broken_warnings(
                label@,
                refs,
                in_pack,
                builtin_names(builtins, category),
                k as int,
            ),
            forall|j: int| 0 <= j < out.len() ==> (#[trigger] out@[j]).level == LogLevel::Warning,
        decreases referenced_ids.len() - k,
    {
        let id = &referenced_ids[k];
        assert(refs[k as int] == id@);
        let builtin = match category {
            IdCategory::Model => is_in_models(builtins, id.as_str()),
            IdCategory::Texture => is_in_textures(builtins, id.as_str()),
            IdCategory::Sound => is_in_sounds(builtins, id.as_str()),
        };
        let ghost before = out@;
        if !builtin && !contains_text(&ids, id) {
            let a = join3("Broken ", label, " Reference: '");
            let message = join3(a.as_str(), id.as_str(), "' is referenced but not found in the pack");
            out.push(LogMessage { level: LogLevel::Warning, message });
            assert(message_texts(out@) =~= message_texts(before).push(
                "Broken "@ + label@ + " Reference: '"@ + id@ + "' is referenced but not found in the pack"@,
            ));
        }
        k = k + 1;
    }
    out
}

/// A pack whose files are all referenced gets no unused-file warning, and
/// one where none is gets one per file; references that all point at files
/// of the pack or at vanilla files give no broken-reference warning, and
/// references to neither give one each.
pub proof fn warnings_count_the_problems(
    label: Seq<char>,
    files: Seq<(Seq<char>, Seq<char>)>,
    counted: Map<Seq<char>, usize>,
    referenced: Seq<Seq<char>>,
    in_pack: Seq<Seq<char>>,
    builtin: Set<Seq<char>>,
    n: int,
    m: int,
)
    requires
        0 <= n <= files.len(),
        0 <= m <= referenced.len(),
    ensures
        (forall|j: int| 0 <= j < n ==> counted.contains_key((#[trigger] files[j]).1)) ==> unused_warnings(
            label,
            files,
            counted,
            n,
        ).len() == 0,
        (forall|j: int| 0 <= j < n ==> !counted.contains_key((#[trigger] files[j]).1)) ==> unused_warnings(
            label,
            files,
            counted,
            n,
        ).len() == n,
        (forall|k: int| 0 <= k < m ==> builtin.contains(#[trigger] referenced[k]) || in_pack.contains(referenced[k]))
            ==> broken_warnings(label, referenced, in_pack, builtin, m).len() == 0,
        (forall|k: int| 0 <= k < m ==> !builtin.contains(#[trigger] referenced[k]) && !in_pack.contains(referenced[k]))
            ==> broken_warnings(label, referenced, in_pack, builtin, m).len() == m,
    decreases n + m,
{
    if n > 0 {
        warnings_count_the_problems(label, files, counted, referenced, in_pack, builtin, n - 1, m);
        let f = files[n - 1];
        assert(f == files[n - 1]);
    }
    if m > 0 {
        warnings_count_the_problems(label, files, counted, referenced, in_pack, builtin, n, m - 1);
        let r = referenced[m - 1];
        assert(r == referenced[m - 1]);
    }
}

} // verus!
