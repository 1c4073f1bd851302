//! Removing overlays for a known target version: the overlay directories
//! that apply to the target are merged into the base pack, the others are
//! dropped, and `pack.mcmeta` no longer declares any.
use crate::resource_pack::files::pack_mcmeta::{FormatRange, OverlayEntry, PackMcmeta, PackVersion};
use crate::text::{chars_of, concat_chars, split_once, split_once_chars, starts_with, starts_with_chars, string_of};
use vstd::hash_map::StringHashMap;
use vstd::prelude::*;

verus! {

/// A pack version as (major, minor).
pub open spec fn version_pair(v: PackVersion) -> (int, int) {
    match v {
        PackVersion::Integer(major) => (major as int, 0),
        PackVersion::Decimal(parts) => (parts@[0] as int, parts@[1] as int),
    }
}

/// Lexicographic order on (major, minor).
pub open spec fn pair_le(a: (int, int), b: (int, int)) -> bool {
    a.0 < b.0 || (a.0 == b.0 && a.1 <= b.1)
}

/// The overlay entry applies to pack format `target` (as `target.0`).
pub open spec fn entry_applies(entry: OverlayEntry, target: int) -> bool {
    let t = (target, 0int);
    match entry.formats {
        Some(FormatRange::Int(exact)) => t == (exact as int, 0int),
        Some(FormatRange::List(range)) => pair_le((range@[0] as int, 0int), t) && pair_le(
            t,
            (range@[1] as int, 0int),
        ),
        Some(FormatRange::Object { min_inclusive, max_inclusive }) => pair_le(
            version_pair(min_inclusive),
            t,
        ) && pair_le(t, version_pair(max_inclusive)),
        None => (match entry.min_format {
            Some(min) => pair_le(version_pair(min), t),
            None => true,
        }) && (match entry.max_format {
            Some(max) => pair_le(t, version_pair(max)),
            None => true,
        }),
    }
}

/// (major, minor) of a pack version; a bare number has minor 0.
pub fn version(v: &PackVersion) -> (r: (i32, i32))
    ensures
        (r.0 as int, r.1 as int) == version_pair(*v),
{
    match v {
        PackVersion::Integer(major) => (*major, 0),
        PackVersion::Decimal(parts) => (parts[0], parts[1]),
    }
}

fn pair_at_most(a: (i32, i32), b: (i32, i32)) -> (r: bool)
    ensures
        r == pair_le((a.0 as int, a.1 as int), (b.0 as int, b.1 as int)),
{
    a.0 < b.0 || (a.0 == b.0 && a.1 <= b.1)
}

/// Whether the overlay of `entry` applies to pack format `target_major`: by
/// its `formats` when it has them, else by `min_format` and `max_format`
/// (each bound that is missing admits every format).
pub fn entry_matches(entry: &OverlayEntry, target_major: i32) -> (r: bool)
    ensures
        r == entry_applies(*entry, target_major as int),
{
    let target = (target_major, 0i32);
    match &entry.formats {
        Some(FormatRange::Int(exact)) => target_major == *exact,
        Some(FormatRange::List(range)) => pair_at_most((range[0], 0), target) && pair_at_most(
            target,
            (range[1], 0),
        ),
        Some(FormatRange::Object { min_inclusive, max_inclusive }) => pair_at_most(
            version(min_inclusive),
            target,
        ) && pair_at_most(target, version(max_inclusive)),
        None => {
            let above_min = match &entry.min_format {
                Some(min) => pair_at_most(version(min), target),
                None => true,
            };
            let below_max = match &entry.max_format {
                Some(max) => pair_at_most(target, version(max)),
                None => true,
            };
            above_min && below_max
        },
    }
}

/// The path without its first directory; a path without `/` stays as it is.
pub open spec fn stripped(path: Seq<char>) -> Seq<char> {
    match split_once(path, '/') {
        Some((_, rest)) => rest,
        None => path,
    }
}

/// Drops the overlay directory in front of a path.
pub fn strip_overlay(path: &str) -> (r: String)
    ensures
        r@ == stripped(path@),
{
    let s = chars_of(path);
    match split_once_chars(&s, '/') {
        Some((_, rest)) => string_of(&rest),
        None => path.to_owned(),
    }
}

/// The views of a list of strings.
pub open spec fn texts(v: Seq<String>) -> Seq<Seq<char>> {
    v.map_values(|s: String| s@)
}

/// `path` lies in directory `dir`.
pub open spec fn in_directory(path: Seq<char>, dir: Seq<char>) -> bool {
    starts_with(path, dir + seq!['/'])
}

/// The first of `dirs[i..]` that `path` lies in, or the empty text.
pub open spec fn overlay_of_path(path: Seq<char>, dirs: Seq<Seq<char>>, i: int) -> Seq<char>
    decreases dirs.len() - i,
{
    if i < 0 || i >= dirs.len() {
        Seq::empty()
    } else if in_directory(path, dirs[i]) {
        dirs[i]
    } else {
        overlay_of_path(path, dirs, i + 1)
    }
}

/// The declared overlay directory that `path` lies in (the first that
/// matches), or the empty text when it lies in none.
pub fn overlay_from_path(path: &str, declared: &Vec<String>) -> (r: String)
    ensures
        r@ == overlay_of_path(path@, texts(declared@), 0),
{
    let p = chars_of(path);
    let mut i: usize = 0;
    while i < declared.len()
        invariant
            i <= declared.len(),
            p@ == path@,
            overlay_of_path(path@, texts(declared@), 0) == overlay_of_path(path@, texts(declared@), i as int),
        decreases declared.len() - i,
    {
        let dir = chars_of(declared[i].as_str());
        let slash = vec!['/'];
        assert(slash@ =~= seq!['/']);
        let with_slash = concat_chars(&dir, &slash);
        assert(texts(declared@).len() == declared@.len());
        assert(texts(declared@)[i as int] == dir@);
        assert(in_directory(path@, dir@) == starts_with(p@, with_slash@));
        if starts_with_chars(&p, &with_slash) {
            return declared[i].clone();
        }
        i = i + 1;
    }
    String::new()
}

/// `v` holds a string with the text of `s`.
pub fn contains_text(v: &Vec<String>, s: &String) -> (r: bool)
    ensures
        r == texts(v@).contains(s@),
{
    let mut i: usize = 0;
    while i < v.len()
        invariant
            i <= v.len(),
            forall|j: int| 0 <= j < i ==> texts(v@)[j] != s@,
        decreases v.len() - i,
    {
        if v[i] == *s {
            assert(texts(v@)[i as int] == s@);
            return true;
        }
        i = i + 1;
    }
    proof {
        if texts(v@).contains(s@) {
            let j = choose|j: int| 0 <= j < texts(v@).len() && texts(v@)[j] == s@;
            assert(texts(v@)[j] != s@);
        }
    }
    false
}

/// The overlay directories that `pack.mcmeta` declares, and those of them
/// that apply to the target format, each in declaration order.
pub struct OverlayPlan {
    pub declared: Vec<String>,
    pub active: Vec<String>,
}

/// The directories of the entries.
pub open spec fn directories(entries: Seq<OverlayEntry>) -> Seq<Seq<char>> {
    entries.map_values(|e: OverlayEntry| e.directory@)
}

/// The directories of the entries that apply to `target`, in order.
pub open spec fn applying_directories(entries: Seq<OverlayEntry>, target: int) -> Seq<Seq<char>>
    decreases entries.len(),
{
    if entries.len() == 0 {
        Seq::empty()
    } else {
        let rest = applying_directories(entries.drop_last(), target);
        if entry_applies(entries.last(), target) {
            rest.push(entries.last().directory@)
        } else {
            rest
        }
    }
}

/// The overlay entries that `pack.mcmeta` declares (none when it has no
/// `overlays` section or the section has no entries).
pub open spec fn declared_entries(mcmeta: PackMcmeta) -> Seq<OverlayEntry> {
    match mcmeta.overlays {
        Some(overlay) => match overlay.entries {
            Some(entries) => entries@,
            None => Seq::empty(),
        },
        None => Seq::empty(),
    }
}

/// Takes the overlay declarations out of `pack.mcmeta` and decides which
/// overlay directories to merge for pack format `target_major`. Returns
/// `None` when no overlay entry was declared (nothing to merge or drop).
pub fn remove_overlays(mcmeta: &mut PackMcmeta, target_major: i32) -> (r: Option<OverlayPlan>)
    ensures
        final(mcmeta).overlays is None,
        match r {
            None => declared_entries(*old(mcmeta)).len() == 0,
            Some(plan) => {
                &&& declared_entries(*old(mcmeta)).len() > 0
                &&& texts(plan.declared@) == directories(declared_entries(*old(mcmeta)))
                &&& texts(plan.active@) == applying_directories(
                    declared_entries(*old(mcmeta)),
                    target_major as int,
                )
            },
        },
{
    let ghost entries_view = declared_entries(*mcmeta);
    let taken = mcmeta.overlays.take();
    let entries: Vec<OverlayEntry> = match taken {
        Some(overlay) => match overlay.entries {
            Some(entries) => entries,
            None => Vec::new(),
        },
        None => Vec::new(),
    };
    assert(entries@ == entries_view);
    if entries.len() == 0 {
        return None;
    }
    let mut declared: Vec<String> = Vec::new();
    let mut active: Vec<String> = Vec::new();
    let mut i: usize = 0;
    while i < entries.len()
        invariant
            i <= entries.len(),
            texts(declared@) == directories(entries@.take(i as int)),
            texts(active@) == applying_directories(entries@.take(i as int), target_major as int),
        decreases entries.len() - i,
    {
        let ghost before_declared = declared@;
        let ghost before_active = active@;
        let dir = entries[i].directory.clone();
        let applies = entry_matches(&entries[i], target_major);
        assert(entries@.take(i + 1).drop_last() =~= entries@.take(i as int));
        assert(entries@.take(i + 1).last() == entries@[i as int]);
        declared.push(entries[i].directory.clone());
        assert(texts(declared@) =~= texts(before_declared).push(dir@));
        assert(directories(entries@.take(i + 1)) =~= directories(entries@.take(i as int)).push(
            entries@[i as int].directory@,
        ));
        if applies {
            active.push(dir);
            assert(texts(active@) =~= texts(before_active).push(entries@[i as int].directory@));
        }
        i = i + 1;
    }
    assert(entries@.take(entries.len() as int) =~= entries@);
    Some(OverlayPlan { declared, active })
}

/// A file of the pack, by its key, the overlay it lies in (empty for the
/// base pack) and the key it takes once moved into the base pack.
pub struct OverlayFile {
    pub key: String,
    pub overlay: String,
    pub promoted_key: String,
}

/// The files not in a declared overlay, by key: the base pack.
pub open spec fn base_files(files: Seq<OverlayFile>, declared: Seq<Seq<char>>, n: int) -> Map<Seq<char>, usize>
    decreases n,
{
    if n <= 0 {
        Map::empty()
    } else {
        let before = base_files(files, declared, n - 1);
        if declared.contains(files[n - 1].overlay@) {
            before
        } else {
            before.insert(files[n - 1].key@, (n - 1) as usize)
        }
    }
}

/// `m` after the first `n` files of overlay `dir` are moved to their
/// promoted keys (each replacing what was there).
pub open spec fn promote_directory(
    m: Map<Seq<char>, usize>,
    files: Seq<OverlayFile>,
    declared: Seq<Seq<char>>,
    dir: Seq<char>,
    n: int,
) -> Map<Seq<char>, usize>
    decreases n,
{
    if n <= 0 {
        m
    } else {
        let before = promote_directory(m, files, declared, dir, n - 1);
        if declared.contains(files[n - 1].overlay@) && files[n - 1].overlay@ == dir {
            before.insert(files[n - 1].promoted_key@, (n - 1) as usize)
        } else {
            before
        }
    }
}

/// The pack after the first `a` active overlays are merged, in order, into
/// the base pack.
pub open spec fn merged(files: Seq<OverlayFile>, declared: Seq<Seq<char>>, active: Seq<Seq<char>>, a: int) -> Map<
    Seq<char>,
    usize,
>
    decreases a,
{
    if a <= 0 {
        base_files(files, declared, files.len() as int)
    } else {
        promote_directory(
            merged(files, declared, active, a - 1),
            files,
            declared,
            active[a - 1],
            files.len() as int,
        )
    }
}

/// How many of the first `n` files lie in a declared overlay.
pub open spec fn overlay_file_count(files: Seq<OverlayFile>, declared: Seq<Seq<char>>, n: int) -> nat
    decreases n,
{
    if n <= 0 {
        0
    } else {
        overlay_file_count(files, declared, n - 1) + if declared.contains(files[n - 1].overlay@) {
            1nat
        } else {
            0nat
        }
    }
}

/// Merges the active overlays into the base pack: files of declared
/// overlays leave their keys; then, overlay by overlay in `active` order,
/// the files of each active overlay take their promoted keys, replacing what
/// was there. Returns the resulting key to file index map and the number of
/// files that lay in a declared overlay.
pub fn resolve_overlay_files(files: &Vec<OverlayFile>, declared: &Vec<String>, active: &Vec<String>) -> (r: (
    StringHashMap<usize>,
    usize,
))
    ensures
        r.0@ == merged(files@, texts(declared@), texts(active@), active.len() as int),
        r.1 == overlay_file_count(files@, texts(declared@), files.len() as int),
{
    let ghost d = texts(declared@);
    let ghost fs = files@;
    let mut in_declared: Vec<bool> = Vec::new();
    let mut map: StringHashMap<usize> = StringHashMap::new();
    let mut count: usize = 0;
    let mut i: usize = 0;
    while i < files.len()
        invariant
            i <= files.len(),
            fs == files@,
            d == texts(declared@),
            in_declared.len() == i,
            forall|j: int| 0 <= j < i ==> #[trigger] in_declared@[j] == d.contains(fs[j].overlay@),
            map@ == base_files(fs, d, i as int),
            count == overlay_file_count(fs, d, i as int),
            count <= i,
        decreases files.len() - i,
    {
        let dec = contains_text(declared, &files[i].overlay);
        in_declared.push(dec);
        if dec {
            count = count + 1;
        } else {
            map.insert(files[i].key.clone(), i);
        }
        i = i + 1;
    }
    let mut a: usize = 0;
    while a < active.len()
        invariant
            a <= active.len(),
            fs == files@,
            d == texts(declared@),
            in_declared.len() == files.len(),
            forall|j: int| 0 <= j < files.len() ==> #[trigger] in_declared@[j] == d.contains(fs[j].overlay@),
            map@ == merged(fs, d, texts(active@), a as int),
        decreases active.len() - a,
    {
        let ghost start = map@;
        let mut k: usize = 0;
        while k < files.len()
            invariant
                k <= files.len(),
                a < active.len(),
                fs == files@,
                d == texts(declared@),
                in_declared.len() == files.len(),
                forall|j: int| 0 <= j < files.len() ==> #[trigger] in_declared@[j] == d.contains(fs[j].overlay@),
                map@ == promote_directory(start, fs, d, texts(active@)[a as int], k as int),
            decreases files.len() - k,
        {
            assert(texts(active@)[a as int] == active@[a as int]@);
            assert(in_declared@[k as int] == d.contains(fs[k as int].overlay@));
            if in_declared[k] && files[k].overlay == active[a] {
                map.insert(files[k].promoted_key.clone(), k);
            }
            k = k + 1;
        }
        a = a + 1;
    }
    (map, count)
}

} // verus!

verus! {

/// File `i` lies in a declared overlay that is active and takes key `k`
/// once merged.
pub open spec fn promoted_to(
    files: Seq<OverlayFile>,
    declared: Seq<Seq<char>>,
    active: Seq<Seq<char>>,
    i: int,
    k: Seq<char>,
) -> bool {
    &&& 0 <= i < files.len()
    &&& declared.contains(files[i].overlay@)
    &&& active.contains(files[i].overlay@)
    &&& files[i].promoted_key@ == k
}

/// File `i` lies outside every declared overlay and has key `k`.
pub open spec fn base_file_at(files: Seq<OverlayFile>, declared: Seq<Seq<char>>, i: int, k: Seq<char>) -> bool {
    &&& 0 <= i < files.len()
    &&& !declared.contains(files[i].overlay@)
    &&& files[i].key@ == k
}

proof fn lemma_base_files(files: Seq<OverlayFile>, declared: Seq<Seq<char>>, n: int)
    requires
        0 <= n <= files.len() <= usize::MAX,
        forall|i: int, j: int| 0 <= i < j < files.len() ==> files[i].key@ != files[j].key@,
    ensures
        forall|k: Seq<char>| #[trigger] base_files(files, declared, n).contains_key(k) ==> base_file_at(
            files,
            declared,
            base_files(files, declared, n)[k] as int,
            k,
        ),
        forall|i: int|
            0 <= i < n && !declared.contains(#[trigger] files[i].overlay@) ==> base_files(files, declared, n).contains_key(
                files[i].key@,
            ) && base_files(files, declared, n)[files[i].key@] == i,
    decreases n,
{
    if n > 0 {
        lemma_base_files(files, declared, n - 1);
        let before = base_files(files, declared, n - 1);
        let cur = base_files(files, declared, n);
        assert forall|k: Seq<char>| #[trigger] cur.contains_key(k) implies base_file_at(files, declared, cur[k] as int, k) by {
            if !declared.contains(files[n - 1].overlay@) && k != files[n - 1].key@ {
                assert(before.contains_key(k));
            }
        }
        assert forall|i: int|
            0 <= i < n && !declared.contains(#[trigger] files[i].overlay@) implies cur.contains_key(files[i].key@)
            && cur[files[i].key@] == i by {
            if i < n - 1 {
                assert(before.contains_key(files[i].key@) && before[files[i].key@] == i);
            }
        }
    }
}

/// One of the first `n` files lies in declared overlay `dir` and is promoted
/// to key `k`.
pub open spec fn some_promoted_to(files: Seq<OverlayFile>, declared: Seq<Seq<char>>, dir: Seq<char>, n: int, k: Seq<char>) -> bool
    decreases n,
{
    if n <= 0 {
        false
    } else {
        (declared.contains(files[n - 1].overlay@) && files[n - 1].overlay@ == dir && files[n - 1].promoted_key@ == k)
            || some_promoted_to(files, declared, dir, n - 1, k)
    }
}

proof fn lemma_some_promoted_witness(files: Seq<OverlayFile>, declared: Seq<Seq<char>>, dir: Seq<char>, n: int, k: Seq<char>) -> (j: int)
    requires
        some_promoted_to(files, declared, dir, n, k),
    ensures
        0 <= j < n,
        declared.contains(files[j].overlay@),
        files[j].overlay@ == dir,
        files[j].promoted_key@ == k,
    decreases n,
{
    if declared.contains(files[n - 1].overlay@) && files[n - 1].overlay@ == dir && files[n - 1].promoted_key@ == k {
        n - 1
    } else {
        lemma_some_promoted_witness(files, declared, dir, n - 1, k)
    }
}

proof fn lemma_promote_directory(
    m: Map<Seq<char>, usize>,
    files: Seq<OverlayFile>,
    declared: Seq<Seq<char>>,
    dir: Seq<char>,
    n: int,
)
    requires
        0 <= n <= files.len() <= usize::MAX,
    ensures
        forall|k: Seq<char>| #[trigger]
            promote_directory(m, files, declared, dir, n).contains_key(k) ==> (m.contains_key(k)
                && promote_directory(m, files, declared, dir, n)[k] == m[k]) || ({
                let i = promote_directory(m, files, declared, dir, n)[k] as int;
                0 <= i < n && declared.contains(files[i].overlay@) && files[i].overlay@ == dir
                    && files[i].promoted_key@ == k
            }),
        forall|i: int|
            0 <= i < n && declared.contains(#[trigger] files[i].overlay@) && files[i].overlay@ == dir
                ==> promote_directory(m, files, declared, dir, n).contains_key(files[i].promoted_key@) && ({
                let w = promote_directory(m, files, declared, dir, n)[files[i].promoted_key@] as int;
                0 <= w < n && declared.contains(files[w].overlay@) && files[w].overlay@ == dir
            }),
        forall|k: Seq<char>|
            !#[trigger] some_promoted_to(files, declared, dir, n, k) ==> promote_directory(
                m,
                files,
                declared,
                dir,
                n,
            ).contains_key(k) == m.contains_key(k) && (m.contains_key(k) ==> promote_directory(
                m,
                files,
                declared,
                dir,
                n,
            )[k] == m[k]),
        forall|k: Seq<char>|
            m.contains_key(k) ==> #[trigger] promote_directory(m, files, declared, dir, n).contains_key(k),
    decreases n,
{
    if n > 0 {
        lemma_promote_directory(m, files, declared, dir, n - 1);
        let before = promote_directory(m, files, declared, dir, n - 1);
        let cur = promote_directory(m, files, declared, dir, n);
        let moves = declared.contains(files[n - 1].overlay@) && files[n - 1].overlay@ == dir;
        assert forall|k: Seq<char>| #[trigger] cur.contains_key(k) implies (m.contains_key(k) && cur[k] == m[k]) || ({
            let i = cur[k] as int;
            0 <= i < n && declared.contains(files[i].overlay@) && files[i].overlay@ == dir
                && files[i].promoted_key@ == k
        }) by {
            if !(moves && k == files[n - 1].promoted_key@) {
                assert(before.contains_key(k));
            }
        }
        assert forall|i: int|
            0 <= i < n && declared.contains(#[trigger] files[i].overlay@) && files[i].overlay@ == dir
                implies cur.contains_key(files[i].promoted_key@) && ({
                let w = cur[files[i].promoted_key@] as int;
                0 <= w < n && declared.contains(files[w].overlay@) && files[w].overlay@ == dir
            }) by {
            if i < n - 1 {
                assert(before.contains_key(files[i].promoted_key@));
            }
        }
        assert forall|k: Seq<char>| !#[trigger] some_promoted_to(files, declared, dir, n, k) implies cur.contains_key(k)
            == m.contains_key(k) && (m.contains_key(k) ==> cur[k] == m[k]) by {
            assert(!some_promoted_to(files, declared, dir, n - 1, k));
        }
        assert forall|k: Seq<char>| m.contains_key(k) implies #[trigger] cur.contains_key(k) by {
            assert(before.contains_key(k));
        }
    }
}

proof fn lemma_merged(files: Seq<OverlayFile>, declared: Seq<Seq<char>>, active: Seq<Seq<char>>, a: int)
    requires
        0 <= a <= active.len(),
        files.len() <= usize::MAX,
        forall|i: int, j: int| 0 <= i < j < files.len() ==> files[i].key@ != files[j].key@,
    ensures
        forall|k: Seq<char>| #[trigger]
            merged(files, declared, active, a).contains_key(k) ==> base_file_at(
                files,
                declared,
                merged(files, declared, active, a)[k] as int,
                k,
            ) || promoted_to(files, declared, active.take(a), merged(files, declared, active, a)[k] as int, k),
    decreases a,
{
    let n = files.len() as int;
    if a == 0 {
        lemma_base_files(files, declared, n);
        assert(active.take(a) =~= Seq::<Seq<char>>::empty());
        assert forall|k: Seq<char>| #[trigger]
            merged(files, declared, active, a).contains_key(k) implies base_file_at(
            files,
            declared,
            merged(files, declared, active, a)[k] as int,
            k,
        ) by {}
    } else {
        lemma_merged(files, declared, active, a - 1);
        let prev = merged(files, declared, active, a - 1);
        let dir = active[a - 1];
        lemma_promote_directory(prev, files, declared, dir, n);
        let cur = merged(files, declared, active, a);
        assert(active.take(a) =~= active.take(a - 1).push(dir));
        assert forall|k: Seq<char>| #[trigger] cur.contains_key(k) implies base_file_at(
            files,
            declared,
            cur[k] as int,
            k,
        ) || promoted_to(files, declared, active.take(a), cur[k] as int, k) by {
            if prev.contains_key(k) && cur[k] == prev[k] {
                if promoted_to(files, declared, active.take(a - 1), prev[k] as int, k) {
                    let i = prev[k] as int;
                    let p = choose|p: int| 0 <= p < a - 1 && #[trigger] active.take(a - 1)[p] == files[i].overlay@;
                    assert(active.take(a)[p] == files[i].overlay@);
                }
            } else {
                let i = cur[k] as int;
                assert(active.take(a)[a - 1] == files[i].overlay@);
            }
        }
    }
}

proof fn lemma_promoted_file_placed(
    files: Seq<OverlayFile>,
    declared: Seq<Seq<char>>,
    active: Seq<Seq<char>>,
    a: int,
    i: int,
)
    requires
        0 <= a <= active.len(),
        files.len() <= usize::MAX,
        forall|x: int, y: int| 0 <= x < y < files.len() ==> files[x].key@ != files[y].key@,
        promoted_to(files, declared, active.take(a), i, files[i].promoted_key@),
    ensures
        merged(files, declared, active, a).contains_key(files[i].promoted_key@),
        promoted_to(
            files,
            declared,
            active.take(a),
            merged(files, declared, active, a)[files[i].promoted_key@] as int,
            files[i].promoted_key@,
        ),
    decreases a,
{
    let n = files.len() as int;
    let k = files[i].promoted_key@;
    if a == 0 {
        assert(active.take(a) =~= Seq::<Seq<char>>::empty());
    } else {
        let prev = merged(files, declared, active, a - 1);
        let dir = active[a - 1];
        lemma_merged(files, declared, active, a - 1);
        lemma_promote_directory(prev, files, declared, dir, n);
        let cur = merged(files, declared, active, a);
        assert(active.take(a) =~= active.take(a - 1).push(dir));
        if files[i].overlay@ == dir {
            let w = cur[k] as int;
            assert(active.take(a)[a - 1] == files[w].overlay@);
        } else {
            let p = choose|p: int| 0 <= p < a && #[trigger] active.take(a)[p] == files[i].overlay@;
            assert(p != a - 1);
            assert(active.take(a - 1)[p] == files[i].overlay@);
            lemma_promoted_file_placed(files, declared, active, a - 1, i);
            assert(prev.contains_key(k));
            assert(cur.contains_key(k));
            if cur[k] == prev[k] {
                let w = prev[k] as int;
                let q = choose|q: int| 0 <= q < a - 1 && #[trigger] active.take(a - 1)[q] == files[w].overlay@;
                assert(active.take(a)[q] == files[w].overlay@);
            } else {
                let w = cur[k] as int;
                assert(active.take(a)[a - 1] == files[w].overlay@);
            }
        }
    }
}

proof fn lemma_base_file_kept(
    files: Seq<OverlayFile>,
    declared: Seq<Seq<char>>,
    active: Seq<Seq<char>>,
    a: int,
    i: int,
)
    requires
        0 <= a <= active.len(),
        files.len() <= usize::MAX,
        forall|x: int, y: int| 0 <= x < y < files.len() ==> files[x].key@ != files[y].key@,
        base_file_at(files, declared, i, files[i].key@),
    ensures
        merged(files, declared, active, a).contains_key(files[i].key@),
        merged(files, declared, active, a)[files[i].key@] == i || promoted_to(
            files,
            declared,
            active.take(a),
            merged(files, declared, active, a)[files[i].key@] as int,
            files[i].key@,
        ),
    decreases a,
{
    let n = files.len() as int;
    let k = files[i].key@;
    if a == 0 {
        lemma_base_files(files, declared, n);
        assert(!declared.contains(files[i].overlay@));
    } else {
        lemma_base_file_kept(files, declared, active, a - 1, i);
        lemma_merged(files, declared, active, a - 1);
        let prev = merged(files, declared, active, a - 1);
        let dir = active[a - 1];
        lemma_promote_directory(prev, files, declared, dir, n);
        let cur = merged(files, declared, active, a);
        assert(active.take(a) =~= active.take(a - 1).push(dir));
        assert(cur.contains_key(k));
        if cur[k] == prev[k] {
            if prev[k] != i {
                let w = prev[k] as int;
                let q = choose|q: int| 0 <= q < a - 1 && #[trigger] active.take(a - 1)[q] == files[w].overlay@;
                assert(active.take(a)[q] == files[w].overlay@);
            }
        } else {
            let w = cur[k] as int;
            assert(active.take(a)[a - 1] == files[w].overlay@);
        }
    }
}

/// What merging overlays keeps and moves, for a pack whose keys are
/// distinct: every key of the result holds either a base-pack file under its
/// own key or a file of an active overlay under its promoted key (files of
/// inactive overlays are gone); every file of an active overlay is
/// represented at its promoted key by a file of an active overlay; and a
/// base-pack file whose key no active overlay file takes keeps its key.
pub proof fn overlay_merge_laws(files: Seq<OverlayFile>, declared: Seq<Seq<char>>, active: Seq<Seq<char>>)
    requires
        files.len() <= usize::MAX,
        forall|i: int, j: int| 0 <= i < j < files.len() ==> files[i].key@ != files[j].key@,
    ensures
        forall|k: Seq<char>| #[trigger]
            merged(files, declared, active, active.len() as int).contains_key(k) ==> base_file_at(
                files,
                declared,
                merged(files, declared, active, active.len() as int)[k] as int,
                k,
            ) || promoted_to(files, declared, active, merged(files, declared, active, active.len() as int)[k] as int, k),
        forall|i: int|
            promoted_to(files, declared, active, i, files[i].promoted_key@) ==> #[trigger] merged(
                files,
                declared,
                active,
                active.len() as int,
            ).contains_key(files[i].promoted_key@) && promoted_to(
                files,
                declared,
                active,
                merged(files, declared, active, active.len() as int)[files[i].promoted_key@] as int,
                files[i].promoted_key@,
            ),
        forall|i: int|
            base_file_at(files, declared, i, files[i].key@) && (forall|j: int|
                !promoted_to(files, declared, active, j, files[i].key@)) ==> #[trigger] merged(
                files,
                declared,
                active,
                active.len() as int,
            ).contains_key(files[i].key@) && merged(files, declared, active, active.len() as int)[files[i].key@] == i,
{
    let m = merged(files, declared, active, active.len() as int);
    lemma_merged(files, declared, active, active.len() as int);
    assert(active.take(active.len() as int) =~= active);
    assert forall|i: int| promoted_to(files, declared, active, i, files[i].promoted_key@) implies #[trigger] m.contains_key(
        files[i].promoted_key@,
    ) && promoted_to(files, declared, active, m[files[i].promoted_key@] as int, files[i].promoted_key@) by {
        lemma_promoted_file_placed(files, declared, active, active.len() as int, i);
    }
    assert forall|i: int|
        base_file_at(files, declared, i, files[i].key@) && (forall|j: int|
            !promoted_to(files, declared, active, j, files[i].key@)) implies #[trigger] m.contains_key(
        files[i].key@,
    ) && m[files[i].key@] == i by {
        let k = files[i].key@;
        lemma_base_file_kept(files, declared, active, active.len() as int, i);
        assert(m.contains_key(k));
        let w = m[k] as int;
        if w != i {
            assert(promoted_to(files, declared, active.take(active.len() as int), w, k));
            assert(promoted_to(files, declared, active, w, k));
            assert(!promoted_to(files, declared, active, w, k));
        }
    }
}

/// The key file `f` has once overlays are merged: its promoted key when it
/// lies in a declared overlay, else its own key.
pub open spec fn final_key(f: OverlayFile, declared: Seq<Seq<char>>) -> Seq<char> {
    if declared.contains(f.overlay@) {
        f.promoted_key@
    } else {
        f.key@
    }
}

/// The files among the first `n` that the merge `m` keeps, in file order,
/// each with its final key and its position.
pub open spec fn survivors(files: Seq<OverlayFile>, declared: Seq<Seq<char>>, m: Map<Seq<char>, usize>, n: int) -> Seq<
    (Seq<char>, usize),
>
    decreases n,
{
    if n <= 0 {
        Seq::empty()
    } else {
        let before = survivors(files, declared, m, n - 1);
        let k = final_key(files[n - 1], declared);
        if m.contains_key(k) && m[k] == n - 1 {
            before.push((k, (n - 1) as usize))
        } else {
            before
        }
    }
}

proof fn lemma_survivors(files: Seq<OverlayFile>, declared: Seq<Seq<char>>, m: Map<Seq<char>, usize>, n: int)
    requires
        0 <= n <= files.len() <= usize::MAX,
    ensures
        forall|j: int|
            0 <= j < survivors(files, declared, m, n).len() ==> {
                let e = #[trigger] survivors(files, declared, m, n)[j];
                &&& 0 <= e.1 < n
                &&& m.contains_key(e.0)
                &&& m[e.0] == e.1
                &&& e.0 == final_key(files[e.1 as int], declared)
            },
        forall|i: int|
            0 <= i < n && m.contains_key(final_key(files[i], declared)) && m[final_key(files[i], declared)] == i
                ==> exists|j: int|
                0 <= j < survivors(files, declared, m, n).len() && (#[trigger] survivors(files, declared, m, n)[j]).1
                    == i,
    decreases n,
{
    if n > 0 {
        lemma_survivors(files, declared, m, n - 1);
        let before = survivors(files, declared, m, n - 1);
        let cur = survivors(files, declared, m, n);
        assert forall|i: int|
            0 <= i < n && m.contains_key(final_key(files[i], declared)) && m[final_key(files[i], declared)] == i
                implies exists|j: int| 0 <= j < cur.len() && (#[trigger] cur[j]).1 == i by {
            if i < n - 1 {
                let j = choose|j: int| 0 <= j < before.len() && (#[trigger] before[j]).1 == i;
                assert(cur[j] == before[j]);
            } else {
                assert(cur[before.len() as int].1 == i);
            }
        }
    }
}

/// Applies the overlay merge to a pack's files: the files that remain, in
/// file order, each with the key it takes (its promoted key when it lies in
/// a declared overlay) and its position in `files`, and the number of files
/// that lay in a declared overlay. Files of declared overlays that are not
/// active are gone; a file an active overlay replaces is gone; every other
/// file stays, under its own key.
pub fn merged_files(files: &Vec<OverlayFile>, declared: &Vec<String>, active: &Vec<String>) -> (r: (
    Vec<(String, usize)>,
    usize,
))
    ensures
        r.0@.map_values(|e: (String, usize)| (e.0@, e.1)) == survivors(
            files@,
            texts(declared@),
            merged(files@, texts(declared@), texts(active@), active.len() as int),
            files.len() as int,
        ),
        r.1 == overlay_file_count(files@, texts(declared@), files.len() as int),
{
    let (map, count) = resolve_overlay_files(files, declared, active);
    let ghost d = texts(declared@);
    let ghost m = map@;
    let mut out: Vec<(String, usize)> = Vec::new();
    let mut i: usize = 0;
    while i < files.len()
        invariant
            i <= files.len(),
            d == texts(declared@),
            m == map@,
            out@.map_values(|e: (String, usize)| (e.0@, e.1)) == survivors(files@, d, m, i as int),
        decreases files.len() - i,
    {
        let f = &files[i];
        let key = if contains_text(declared, &f.overlay) {
            f.promoted_key.clone()
        } else {
            f.key.clone()
        };
        assert(key@ == final_key(files@[i as int], d));
        let ghost before = out@;
        match map.get(key.as_str()) {
            Some(j) => {
                if *j == i {
                    out.push((key, i));
                    assert(out@.map_values(|e: (String, usize)| (e.0@, e.1)) =~= before.map_values(
                        |e: (String, usize)| (e.0@, e.1),
                    ).push((key@, i)));
                }
            },
            None => {},
        }
        i = i + 1;
    }
    (out, count)
}

/// What applying the overlay merge keeps, for a pack whose keys are
/// distinct: every key of the merge is taken by exactly the file the merge
/// gives it, each kept file appears once, under its final key.
pub proof fn merged_files_follow_the_merge(
    files: Seq<OverlayFile>,
    declared: Seq<Seq<char>>,
    active: Seq<Seq<char>>,
)
    requires
        files.len() <= usize::MAX,
        forall|i: int, j: int| 0 <= i < j < files.len() ==> files[i].key@ != files[j].key@,
    ensures
        ({
            let m = merged(files, declared, active, active.len() as int);
            let s = survivors(files, declared, m, files.len() as int);
            &&& forall|j: int| 0 <= j < s.len() ==> m.contains_key((#[trigger] s[j]).0) && m[s[j].0] == s[j].1
            &&& forall|k: Seq<char>| #[trigger] m.contains_key(k) ==> exists|j: int| 0 <= j < s.len() && (#[trigger] s[j]).0 == k
            &&& forall|j1: int, j2: int| 0 <= j1 < j2 < s.len() ==> (#[trigger] s[j1]).0 != (#[trigger] s[j2]).0
        }),
{
    let m = merged(files, declared, active, active.len() as int);
    let n = files.len() as int;
    let s = survivors(files, declared, m, n);
    overlay_merge_laws(files, declared, active);
    lemma_survivors(files, declared, m, n);
    assert forall|k: Seq<char>| #[trigger] m.contains_key(k) implies exists|j: int| 0 <= j < s.len() && (#[trigger] s[j]).0 == k by {
        let i = m[k] as int;
        assert(base_file_at(files, declared, i, k) || promoted_to(files, declared, active, i, k));
        assert(final_key(files[i], declared) == k);
        let j = choose|j: int| 0 <= j < s.len() && (#[trigger] s[j]).1 == i;
        assert(s[j].0 == final_key(files[s[j].1 as int], declared));
    }
    assert forall|j1: int, j2: int| 0 <= j1 < j2 < s.len() implies (#[trigger] s[j1]).0 != (#[trigger] s[j2]).0 by {
        lemma_survivors_ordered(files, declared, m, n, j1, j2);
    }
}

proof fn lemma_survivors_ordered(files: Seq<OverlayFile>, declared: Seq<Seq<char>>, m: Map<Seq<char>, usize>, n: int, j1: int, j2: int)
    requires
        0 <= n <= files.len() <= usize::MAX,
        0 <= j1 < j2 < survivors(files, declared, m, n).len(),
    ensures
        survivors(files, declared, m, n)[j1].1 < survivors(files, declared, m, n)[j2].1,
    decreases n,
{
    lemma_survivors(files, declared, m, n);
    if n > 0 {
        let before = survivors(files, declared, m, n - 1);
        lemma_survivors(files, declared, m, n - 1);
        if j2 < before.len() {
            lemma_survivors_ordered(files, declared, m, n - 1, j1, j2);
        } else {
            assert(before[j1].1 < n - 1);
        }
    }
}

/// Every file kept under its own key, in order.
pub open spec fn all_kept(keys: Seq<String>) -> Seq<(Seq<char>, usize)> {
    Seq::new(keys.len(), |i: int| (keys[i]@, i as usize))
}

/// Removes the overlays of a pack whose files have the keys `keys` (their
/// paths, `[overlay/]assets/...`), for pack format `target_major`: the
/// overlay declarations leave `pack.mcmeta`; the files of the declared
/// overlays that apply move, overlay by overlay in declaration order, to
/// their path without the overlay directory, replacing what was there (a
/// later overlay wins); the files of the other declared overlays are gone;
/// every other file stays under its key. Returns each file's key, overlay
/// and overlay-free key, the files kept (final key and position in `keys`,
/// in order), and how many files lay in a declared overlay. Without overlay
/// declarations every file stays.
pub fn remove_pack_overlays(mcmeta: &mut PackMcmeta, target_major: i32, keys: &Vec<String>) -> (r: (
    Vec<OverlayFile>,
    Vec<(String, usize)>,
    usize,
))
    ensures
        final(mcmeta).overlays is None,
        r.0.len() == keys.len(),
        forall|i: int|
            0 <= i < keys.len() ==> {
                &&& (#[trigger] r.0@[i]).key@ == keys@[i]@
                &&& r.0@[i].overlay@ == overlay_of_path(keys@[i]@, directories(declared_entries(*old(mcmeta))), 0)
                &&& r.0@[i].promoted_key@ == stripped(keys@[i]@)
            },
        ({
            let decl = declared_entries(*old(mcmeta));
            let dirs = directories(decl);
            let active = applying_directories(decl, target_major as int);
            if decl.len() == 0 {
                r.1@.map_values(|e: (String, usize)| (e.0@, e.1)) == all_kept(keys@) && r.2 == 0
            } else {
                &&& r.1@.map_values(|e: (String, usize)| (e.0@, e.1)) == survivors(
                    r.0@,
                    dirs,
                    merged(r.0@, dirs, active, active.len() as int),
                    keys.len() as int,
                )
                &&& r.2 == overlay_file_count(r.0@, dirs, keys.len() as int)
            }
        }),
{
    let ghost decl = declared_entries(*mcmeta);
    let plan = remove_overlays(mcmeta, target_major);
    let declared: Vec<String> = match &plan {
        Some(p) => p.declared.clone(),
        None => Vec::new(),
    };
    proof {
        if decl.len() == 0 {
            assert(texts(declared@) =~= directories(decl));
        }
    }
    let mut files: Vec<OverlayFile> = Vec::new();
    let mut i: usize = 0;
    while i < keys.len()
        invariant
            i <= keys.len(),
            texts(declared@) == directories(decl),
            files.len() == i,
            forall|q: int|
                0 <= q < i ==> {
                    &&& (#[trigger] files@[q]).key@ == keys@[q]@
                    &&& files@[q].overlay@ == overlay_of_path(keys@[q]@, directories(decl), 0)
                    &&& files@[q].promoted_key@ == stripped(keys@[q]@)
                },
        decreases keys.len() - i,
    {
        let key = keys[i].clone();
        let overlay = overlay_from_path(keys[i].as_str(), &declared);
        let promoted_key = strip_overlay(keys[i].as_str());
        files.push(OverlayFile { key, overlay, promoted_key });
        i = i + 1;
    }
    match plan {
        Some(p) => {
            let (kept, count) = merged_files(&files, &p.declared, &p.active);
            (files, kept, count)
        },
        None => {
            let mut kept: Vec<(String, usize)> = Vec::new();
            let mut j: usize = 0;
            while j < keys.len()
                invariant
                    j <= keys.len(),
                    kept.len() == j,
                    kept@.map_values(|e: (String, usize)| (e.0@, e.1)) == all_kept(keys@).take(j as int),
                decreases keys.len() - j,
            {
                let ghost before = kept@;
                let k = keys[j].clone();
                kept.push((k, j));
                assert(kept@[j as int].0@ == keys@[j as int]@);
                assert forall|q: int| 0 <= q < j implies kept@[q] == before[q] by {}
                assert(kept@.map_values(|e: (String, usize)| (e.0@, e.1)) =~= all_kept(keys@).take(j + 1));
                j = j + 1;
            }
            assert(all_kept(keys@).take(keys.len() as int) =~= all_kept(keys@));
            (files, kept, 0)
        },
    }
}

/// Which targets an overlay entry applies to, by the way it gives its
/// formats: a single format applies to that format only; a range `[lo, hi]`
/// (as a list, or as an object of whole formats) applies exactly to the
/// targets from `lo` to `hi`, so a target below `lo` or above `hi` never
/// applies; without `formats`, whole `min_format`/`max_format` bound the
/// targets the same way, and a missing bound does not limit them.
pub proof fn overlay_entry_targets(entry: OverlayEntry, target: int)
    ensures
        entry.formats matches Some(FormatRange::Int(x)) ==> (entry_applies(entry, target) <==> target == x),
        entry.formats matches Some(FormatRange::List(r)) ==> (entry_applies(entry, target) <==> r@[0] <= target
            && target <= r@[1]),
        entry.formats matches Some(
            FormatRange::Object { min_inclusive: PackVersion::Integer(lo), max_inclusive: PackVersion::Integer(hi) },
        ) ==> (entry_applies(entry, target) <==> lo <= target && target <= hi),
        entry.formats is None ==> (entry_applies(entry, target) <==> (entry.min_format matches Some(
            PackVersion::Integer(lo),
        ) ==> lo <= target) && (entry.max_format matches Some(PackVersion::Integer(hi)) ==> target <= hi)
            && (entry.min_format matches Some(PackVersion::Decimal(m)) ==> pair_le(
            (m@[0] as int, m@[1] as int),
            (target, 0),
        )) && (entry.max_format matches Some(PackVersion::Decimal(m)) ==> pair_le(
            (target, 0),
            (m@[0] as int, m@[1] as int),
        ))),
        entry.formats is None && entry.min_format is None && entry.max_format is None ==> entry_applies(
            entry,
            target,
        ),
{
}

/// A target outside an overlay's range is never merged: when the entry gives
/// its formats as the range `[lo, hi]`, the directories that apply to a
/// target below `lo` or above `hi` leave it out (unless another entry with
/// the same directory applies).
pub proof fn out_of_range_overlays_are_dropped(entries: Seq<OverlayEntry>, target: int, k: int)
    requires
        0 <= k < entries.len(),
        entries[k].formats matches Some(FormatRange::List(r)) && (target < r@[0] || target > r@[1]),
        forall|j: int| 0 <= j < entries.len() && j != k ==> entries[j].directory@ != entries[k].directory@,
    ensures
        !applying_directories(entries, target).contains(entries[k].directory@),
    decreases entries.len(),
{
    overlay_entry_targets(entries[k], target);
    lemma_applying_from(entries, target, entries[k].directory@);
}

proof fn lemma_applying_from(entries: Seq<OverlayEntry>, target: int, d: Seq<char>)
    ensures
        applying_directories(entries, target).contains(d) ==> exists|j: int|
            0 <= j < entries.len() && entries[j].directory@ == d && entry_applies(entries[j], target),
    decreases entries.len(),
{
    if entries.len() > 0 {
        let rest = entries.drop_last();
        lemma_applying_from(rest, target, d);
        if applying_directories(entries, target).contains(d) {
            let a = applying_directories(entries, target);
            let i = choose|i: int| 0 <= i < a.len() && a[i] == d;
            if applying_directories(rest, target).contains(d) {
                let j = choose|j: int| 0 <= j < rest.len() && rest[j].directory@ == d && entry_applies(rest[j], target);
                assert(entries[j] == rest[j]);
            } else {
                if entry_applies(entries.last(), target) {
                    if i < a.len() - 1 {
                        assert(a[i] == applying_directories(rest, target)[i]);
                    }
                    assert(entries[entries.len() - 1] == entries.last());
                } else {
                    assert(a == applying_directories(rest, target));
                }
            }
        }
    }
}

/// The overlay a path is read in is one of the declared directories that
/// the path lies in, the first of them; a path in no declared directory is
/// in the base pack (the empty overlay).
pub proof fn overlay_of_path_is_a_containing_directory(path: Seq<char>, dirs: Seq<Seq<char>>, i: int)
    requires
        0 <= i,
    ensures
        (exists|k: int| i <= k < dirs.len() && in_directory(path, #[trigger] dirs[k])) ==> exists|k: int|
            i <= k < dirs.len() && overlay_of_path(path, dirs, i) == #[trigger] dirs[k] && in_directory(path, dirs[k])
                && forall|j: int| i <= j < k ==> !in_directory(path, #[trigger] dirs[j]),
        (forall|k: int| i <= k < dirs.len() ==> !in_directory(path, #[trigger] dirs[k])) ==> overlay_of_path(
            path,
            dirs,
            i,
        ).len() == 0,
    decreases dirs.len() - i,
{
    if i < dirs.len() {
        overlay_of_path_is_a_containing_directory(path, dirs, i + 1);
        if !in_directory(path, dirs[i]) {
            if exists|k: int| i <= k < dirs.len() && in_directory(path, #[trigger] dirs[k]) {
                let k = choose|k: int| i <= k < dirs.len() && in_directory(path, #[trigger] dirs[k]);
                assert(k != i);
                assert(exists|k: int| i + 1 <= k < dirs.len() && in_directory(path, #[trigger] dirs[k]));
                let k2 = choose|k2: int|
                    i + 1 <= k2 < dirs.len() && overlay_of_path(path, dirs, i + 1) == #[trigger] dirs[k2] && in_directory(
                        path,
                        dirs[k2],
                    ) && forall|j: int| i + 1 <= j < k2 ==> !in_directory(path, #[trigger] dirs[j]);
                assert forall|j: int| i <= j < k2 implies !in_directory(path, #[trigger] dirs[j]) by {
                    if j > i {
                    }
                }
            }
        } else {
            assert(forall|j: int| i <= j < i ==> !in_directory(path, #[trigger] dirs[j]));
        }
    }
}

/// Moving a file out of overlay `dir` keeps its path inside the overlay:
/// `dir/rest` becomes `rest`.
pub proof fn stripping_keeps_the_inner_path(dir: Seq<char>, rest: Seq<char>)
    requires
        !dir.contains('/'),
    ensures
        stripped(dir + seq!['/'] + rest) == rest,
{
    let full = dir + seq!['/'] + rest;
    crate::text::lemma_split_once_concat(dir, '/', rest);
}

} // verus!
