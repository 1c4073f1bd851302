//! Short names for renamed files and the plan of which identifiers get which
//! name.
use crate::minecraft::builtin_files::{AtlasType, BuiltinFiles};
use crate::resource_pack::files::asset_texture::AssetTexture;
use crate::resource_pack::files::atlas::{Atlas, AtlasSource, SourceView, copy_source, source_views};
use crate::resource_pack::files::pack_mcmeta::{Overlay, OverlayEntry, PackMcmeta};
use crate::resource_pack::mapping::Mapping;
use crate::resource_pack::identifier::{Identifier, id_text, minecraft_namespace, parse_id};
use crate::resource_pack::mapping::{IdCategory, IdUsageCounter, count_of};
use crate::text::{chars_eq, chars_of, concat_chars, lex_less, lex_less_chars, string_of};
use vstd::hash_map::StringHashMap;
use vstd::prelude::*;

verus! {

/// The characters of short names, in digit order.
pub open spec fn name_charset() -> Seq<char> {
    seq![
        'a', 'b', 'c', 'd', 'e', 'f', 'g', 'h', 'i', 'j', 'k', 'l', 'm', 'n', 'o', 'p', 'q', 'r', 's',
        't', 'u', 'v', 'w', 'x', 'y', 'z', '0', '1', '2', '3', '4', '5', '6', '7', '8', '9', '_', '-',
    ]
}

/// The digits of `id` in base `base`, least significant first; zero has the
/// single digit 0.
pub open spec fn digits(id: nat, base: nat) -> Seq<nat>
    recommends
        base > 1,
    decreases id,
{
    if base <= 1 || id < base {
        seq![id]
    } else {
        proof {
            assert(id / base < id) by (nonlinear_arith)
                requires
                    base > 1,
                    id >= base,
            ;
        }
        seq![id % base] + digits(id / base, base)
    }
}

/// The short name of number `id`: its base-38 digits, least significant
/// first, written with `name_charset`.
pub open spec fn short_name(id: nat) -> Seq<char> {
    digits(id, 38).map_values(|d: nat| name_charset()[d as int])
}

pub proof fn lemma_digits_bounded(id: nat, base: nat)
    requires
        base > 1,
    ensures
        forall|i: int| 0 <= i < digits(id, base).len() ==> digits(id, base)[i] < base,
        digits(id, base).len() >= 1,
    decreases id,
{
    if id >= base {
        assert(id / base < id) by (nonlinear_arith)
            requires
                base > 1,
                id >= base,
        ;
        lemma_digits_bounded(id / base, base);
        let rest = digits(id / base, base);
        assert forall|i: int| 0 <= i < digits(id, base).len() implies digits(id, base)[i] < base by {
            if i > 0 {
                assert(digits(id, base)[i] == rest[i - 1]);
            }
        }
    }
}

pub proof fn lemma_digits_injective(a: nat, b: nat, base: nat)
    requires
        base > 1,
        digits(a, base) == digits(b, base),
    ensures
        a == b,
    decreases a,
{
    if a < base {
        assert(digits(a, base)[0] == a);
        if b >= base {
            lemma_digits_bounded(b / base, base);
            assert(digits(b, base).len() >= 2);
        }
    } else {
        if b < base {
            lemma_digits_bounded(a / base, base);
            assert(digits(a, base).len() >= 2);
        } else {
            assert(digits(a, base)[0] == a % base);
            assert(digits(b, base)[0] == b % base);
            assert(digits(a, base).drop_first() =~= digits(a / base, base));
            assert(digits(b, base).drop_first() =~= digits(b / base, base));
            assert(a / base < a) by (nonlinear_arith)
                requires
                    base > 1,
                    a >= base,
            ;
            lemma_digits_injective(a / base, b / base, base);
            assert(a == base * (a / base) + a % base) by (nonlinear_arith)
                requires base > 1;
            assert(b == base * (b / base) + b % base) by (nonlinear_arith)
                requires base > 1;
        }
    }
}

proof fn lemma_charset_distinct(x: int, y: int)
    requires
        0 <= x < 38,
        0 <= y < 38,
        name_charset()[x] == name_charset()[y],
    ensures
        x == y,
{
    let c = name_charset();
    assert(c[0] == 'a' && c[1] == 'b' && c[2] == 'c' && c[3] == 'd' && c[4] == 'e' && c[5] == 'f'
        && c[6] == 'g' && c[7] == 'h' && c[8] == 'i' && c[9] == 'j' && c[10] == 'k' && c[11] == 'l'
        && c[12] == 'm' && c[13] == 'n' && c[14] == 'o' && c[15] == 'p' && c[16] == 'q' && c[17]
        == 'r' && c[18] == 's' && c[19] == 't' && c[20] == 'u' && c[21] == 'v' && c[22] == 'w'
        && c[23] == 'x' && c[24] == 'y' && c[25] == 'z' && c[26] == '0' && c[27] == '1' && c[28]
        == '2' && c[29] == '3' && c[30] == '4' && c[31] == '5' && c[32] == '6' && c[33] == '7'
        && c[34] == '8' && c[35] == '9' && c[36] == '_' && c[37] == '-');
}

/// Different numbers get different short names.
pub proof fn short_name_injective(a: nat, b: nat)
    requires
        short_name(a) == short_name(b),
    ensures
        a == b,
{
    let da = digits(a, 38);
    let db = digits(b, 38);
    lemma_digits_bounded(a, 38);
    lemma_digits_bounded(b, 38);
    assert(da.len() == short_name(a).len());
    assert(db.len() == short_name(b).len());
    assert forall|i: int| 0 <= i < da.len() implies da[i] == db[i] by {
        assert(short_name(a)[i] == name_charset()[da[i] as int]);
        assert(short_name(b)[i] == name_charset()[db[i] as int]);
        lemma_charset_distinct(da[i] as int, db[i] as int);
    }
    assert(da =~= db);
    lemma_digits_injective(a, b, 38);
}

/// The short name of `id`: base-38 digits over `a-z0-9_-`, least significant
/// first (0 is `a`, 1 is `b`, 38 is `ab`).
pub fn generate_short_name(id: usize) -> (r: String)
    ensures
        r@ == short_name(id as nat),
{
    let charset: Vec<char> = vec![
        'a', 'b', 'c', 'd', 'e', 'f', 'g', 'h', 'i', 'j', 'k', 'l', 'm', 'n', 'o', 'p', 'q', 'r', 's',
        't', 'u', 'v', 'w', 'x', 'y', 'z', '0', '1', '2', '3', '4', '5', '6', '7', '8', '9', '_', '-',
    ];
    assert(charset@ =~= name_charset());
    let mut name: Vec<char> = Vec::new();
    let mut rest: usize = id;
    loop
        invariant_except_break
            charset@ == name_charset(),
            short_name(id as nat) == name@ + short_name(rest as nat),
        ensures
            short_name(id as nat) == name@,
        decreases rest,
    {
        let rem = rest % 38;
        name.push(charset[rem]);
        proof {
            let tail = short_name((rest / 38) as nat);
            if rest >= 38 {
                assert(digits(rest as nat, 38) =~= seq![(rest % 38) as nat] + digits((rest / 38) as nat, 38));
                assert(short_name(rest as nat) =~= seq![name_charset()[rem as int]] + tail);
            } else {
                assert(short_name(rest as nat) =~= seq![name_charset()[rem as int]]);
            }
        }
        if rest < 38 {
            assert(short_name(id as nat) =~= name@);
            break;
        }
        rest = rest / 38;
        assert(short_name(id as nat) =~= name@ + short_name(rest as nat));
    }
    crate::text::string_of(&name)
}

/// The renaming order: entry `i` comes before entry `j` when both are
/// renamed and `i` is used more, or as much with a smaller identifier text,
/// or has the same text and comes first.
pub open spec fn precedes(texts: Seq<Seq<char>>, usages: Seq<int>, eligible: Seq<bool>, i: int, j: int) -> bool {
    &&& 0 <= i < texts.len()
    &&& 0 <= j < texts.len()
    &&& eligible[i]
    &&& eligible[j]
    &&& (usages[i] > usages[j] || (usages[i] == usages[j] && (lex_less(texts[i], texts[j]) || (
    texts[i] == texts[j] && i < j))))
}

/// How many of the first `m` entries precede entry `j`.
pub open spec fn count_preceding(texts: Seq<Seq<char>>, usages: Seq<int>, eligible: Seq<bool>, j: int, m: int) -> nat
    decreases m,
{
    if m <= 0 {
        0
    } else {
        count_preceding(texts, usages, eligible, j, m - 1) + if precedes(
            texts,
            usages,
            eligible,
            m - 1,
            j,
        ) {
            1nat
        } else {
            0nat
        }
    }
}

/// The position of entry `j` in the renaming order.
pub open spec fn rank(texts: Seq<Seq<char>>, usages: Seq<int>, eligible: Seq<bool>, j: int) -> nat {
    count_preceding(texts, usages, eligible, j, texts.len() as int)
}

/// The text of a new identifier: `_:<name>`.
pub open spec fn renamed_text(name: Seq<char>) -> Seq<char> {
    seq!['_', ':'] + name
}

/// The renaming table after the first `m` entries.
pub open spec fn table_after(
    texts: Seq<Seq<char>>,
    usages: Seq<int>,
    eligible: Seq<bool>,
    old: Map<Seq<char>, Seq<char>>,
    m: int,
) -> Map<Seq<char>, Seq<char>>
    decreases m,
{
    if m <= 0 {
        old
    } else {
        let before = table_after(texts, usages, eligible, old, m - 1);
        let t = texts[m - 1];
        if eligible[m - 1] && !before.contains_key(t) {
            before.insert(t, renamed_text(short_name(rank(texts, usages, eligible, m - 1))))
        } else {
            before
        }
    }
}

/// The new identifier (namespace, path) of entry `j`, which is renamed.
pub open spec fn renamed(
    texts: Seq<Seq<char>>,
    usages: Seq<int>,
    eligible: Seq<bool>,
    old: Map<Seq<char>, Seq<char>>,
    j: int,
) -> (Seq<char>, Seq<char>) {
    let before = table_after(texts, usages, eligible, old, j);
    if before.contains_key(texts[j]) {
        parse_id(before[texts[j]])
    } else {
        (seq!['_'], short_name(rank(texts, usages, eligible, j)))
    }
}

/// The views of the renaming table's values.
pub open spec fn table_texts(table: Map<Seq<char>, String>) -> Map<Seq<char>, Seq<char>> {
    Map::new(|k: Seq<char>| table.contains_key(k), |k: Seq<char>| table[k]@)
}

/// Entry `i` is renamed: it is not a vanilla file in the `minecraft`
/// namespace.
pub open spec fn renamable(id: (Seq<char>, Seq<char>), vanilla: Set<Seq<char>>) -> bool {
    !(id.0 == minecraft_namespace() && vanilla.contains(id_text(id.0, id.1)))
}

pub open spec fn vanilla_names(builtins: &BuiltinFiles, category: IdCategory) -> Set<Seq<char>> {
    match category {
        IdCategory::Model => builtins.models@,
        IdCategory::Texture => builtins.textures@,
        IdCategory::Sound => builtins.sounds@,
    }
}

proof fn lemma_precedes_irreflexive(texts: Seq<Seq<char>>, usages: Seq<int>, eligible: Seq<bool>, i: int)
    ensures
        !precedes(texts, usages, eligible, i, i),
{
    if 0 <= i < texts.len() {
        crate::text::lemma_lex_irreflexive(texts[i]);
    }
}

proof fn lemma_precedes_transitive(texts: Seq<Seq<char>>, usages: Seq<int>, eligible: Seq<bool>, i: int, j: int, k: int)
    requires
        precedes(texts, usages, eligible, i, j),
        precedes(texts, usages, eligible, j, k),
    ensures
        precedes(texts, usages, eligible, i, k),
{
    if usages[i] == usages[k] {
        if lex_less(texts[i], texts[j]) && lex_less(texts[j], texts[k]) {
            crate::text::lemma_lex_transitive(texts[i], texts[j], texts[k]);
        }
    }
}

proof fn lemma_precedes_total(texts: Seq<Seq<char>>, usages: Seq<int>, eligible: Seq<bool>, i: int, j: int)
    requires
        0 <= i < texts.len(),
        0 <= j < texts.len(),
        i != j,
        eligible[i],
        eligible[j],
    ensures
        precedes(texts, usages, eligible, i, j) || precedes(texts, usages, eligible, j, i),
{
    if texts[i] != texts[j] {
        crate::text::lemma_lex_total(texts[i], texts[j]);
    }
}

proof fn lemma_count_monotone(texts: Seq<Seq<char>>, usages: Seq<int>, eligible: Seq<bool>, a: int, b: int, m: int)
    requires
        precedes(texts, usages, eligible, a, b),
    ensures
        count_preceding(texts, usages, eligible, a, m) + (if a < m {
            1int
        } else {
            0int
        }) <= count_preceding(texts, usages, eligible, b, m),
    decreases m,
{
    if m > 0 {
        lemma_count_monotone(texts, usages, eligible, a, b, m - 1);
        lemma_precedes_irreflexive(texts, usages, eligible, a);
        if precedes(texts, usages, eligible, m - 1, a) {
            lemma_precedes_transitive(texts, usages, eligible, m - 1, a, b);
        }
    }
}

/// Two different renamed entries have different positions in the renaming
/// order.
pub proof fn rank_injective(texts: Seq<Seq<char>>, usages: Seq<int>, eligible: Seq<bool>, i: int, j: int)
    requires
        0 <= i < texts.len(),
        0 <= j < texts.len(),
        i != j,
        eligible[i],
        eligible[j],
    ensures
        rank(texts, usages, eligible, i) != rank(texts, usages, eligible, j),
{
    lemma_precedes_total(texts, usages, eligible, i, j);
    if precedes(texts, usages, eligible, i, j) {
        lemma_count_monotone(texts, usages, eligible, i, j, texts.len() as int);
    } else {
        lemma_count_monotone(texts, usages, eligible, j, i, texts.len() as int);
    }
}

/// The first of the first `m` entries that is renamed and has text `t`.
pub open spec fn first_with_text(texts: Seq<Seq<char>>, eligible: Seq<bool>, t: Seq<char>, m: int) -> Option<int>
    decreases m,
{
    if m <= 0 {
        None
    } else {
        match first_with_text(texts, eligible, t, m - 1) {
            Some(k) => Some(k),
            None => if eligible[m - 1] && texts[m - 1] == t {
                Some(m - 1)
            } else {
                None
            },
        }
    }
}

proof fn lemma_first_with_text(texts: Seq<Seq<char>>, eligible: Seq<bool>, t: Seq<char>, m: int)
    requires
        0 <= m <= texts.len(),
        eligible.len() == texts.len(),
    ensures
        match first_with_text(texts, eligible, t, m) {
            Some(k) => 0 <= k < m && eligible[k] && texts[k] == t && forall|q: int|
                0 <= q < k ==> !(eligible[q] && texts[q] == t),
            None => forall|q: int| 0 <= q < m ==> !(eligible[q] && texts[q] == t),
        },
    decreases m,
{
    if m > 0 {
        lemma_first_with_text(texts, eligible, t, m - 1);
    }
}

proof fn lemma_first_with_text_stable(texts: Seq<Seq<char>>, eligible: Seq<bool>, t: Seq<char>, m: int, n: int)
    requires
        0 <= m <= n <= texts.len(),
        eligible.len() == texts.len(),
        first_with_text(texts, eligible, t, m) is Some,
    ensures
        first_with_text(texts, eligible, t, n) == first_with_text(texts, eligible, t, m),
    decreases n - m,
{
    if n > m {
        lemma_first_with_text_stable(texts, eligible, t, m, n - 1);
    }
}

proof fn lemma_table_after(
    texts: Seq<Seq<char>>,
    usages: Seq<int>,
    eligible: Seq<bool>,
    old: Map<Seq<char>, Seq<char>>,
    t: Seq<char>,
    m: int,
)
    requires
        0 <= m <= texts.len(),
        eligible.len() == texts.len(),
    ensures
        old.contains_key(t) ==> table_after(texts, usages, eligible, old, m).contains_key(t)
            && table_after(texts, usages, eligible, old, m)[t] == old[t],
        !old.contains_key(t) ==> (table_after(texts, usages, eligible, old, m).contains_key(t)
            <==> first_with_text(texts, eligible, t, m) is Some),
        !old.contains_key(t) && first_with_text(texts, eligible, t, m) is Some ==> table_after(
            texts,
            usages,
            eligible,
            old,
            m,
        )[t] == renamed_text(
            short_name(rank(texts, usages, eligible, first_with_text(texts, eligible, t, m)->0)),
        ),
    decreases m,
{
    if m > 0 {
        lemma_table_after(texts, usages, eligible, old, t, m - 1);
    }
}

proof fn lemma_parse_renamed(name: Seq<char>)
    ensures
        parse_id(renamed_text(name)) == (seq!['_'], name),
{
    assert(!seq!['_'].contains(':')) by {
        if seq!['_'].contains(':') {
            let j = choose|j: int| 0 <= j < 1 && seq!['_'][j] == ':';
        }
    }
    assert(renamed_text(name) =~= seq!['_'] + seq![':'] + name);
    crate::text::lemma_split_once_concat(seq!['_'], ':', name);
}

/// A renamed entry whose text the old table did not hold gets `_` and the
/// short name of the first renamed entry with its text.
pub proof fn renamed_by_first(
    texts: Seq<Seq<char>>,
    usages: Seq<int>,
    eligible: Seq<bool>,
    old: Map<Seq<char>, Seq<char>>,
    j: int,
)
    requires
        0 <= j < texts.len(),
        eligible.len() == texts.len(),
        eligible[j],
        !old.contains_key(texts[j]),
    ensures
        first_with_text(texts, eligible, texts[j], texts.len() as int) is Some,
        renamed(texts, usages, eligible, old, j) == (
            seq!['_'],
            short_name(
                rank(texts, usages, eligible, first_with_text(texts, eligible, texts[j], texts.len() as int)->0),
            ),
        ),
{
    let t = texts[j];
    let n = texts.len() as int;
    lemma_table_after(texts, usages, eligible, old, t, j);
    lemma_first_with_text(texts, eligible, t, j);
    assert(first_with_text(texts, eligible, t, j + 1) is Some);
    lemma_first_with_text_stable(texts, eligible, t, j + 1, n);
    match first_with_text(texts, eligible, t, j) {
        Some(k) => {
            lemma_first_with_text_stable(texts, eligible, t, j, j + 1);
            lemma_parse_renamed(short_name(rank(texts, usages, eligible, k)));
        },
        None => {},
    }
}

/// Renaming is consistent and collision-free: renamed entries with the same
/// identifier get the same new identifier, and renamed entries with different
/// identifiers get different new identifiers (for identifiers the table did
/// not already rename).
pub proof fn renaming_is_consistent_and_distinct(
    texts: Seq<Seq<char>>,
    usages: Seq<int>,
    eligible: Seq<bool>,
    old: Map<Seq<char>, Seq<char>>,
    i: int,
    j: int,
)
    requires
        0 <= i < texts.len(),
        0 <= j < texts.len(),
        eligible.len() == texts.len(),
        eligible[i],
        eligible[j],
        !old.contains_key(texts[i]),
        !old.contains_key(texts[j]),
    ensures
        texts[i] == texts[j] ==> renamed(texts, usages, eligible, old, i) == renamed(texts, usages, eligible, old, j),
        texts[i] != texts[j] ==> renamed(texts, usages, eligible, old, i) != renamed(texts, usages, eligible, old, j),
{
    let n = texts.len() as int;
    renamed_by_first(texts, usages, eligible, old, i);
    renamed_by_first(texts, usages, eligible, old, j);
    if texts[i] != texts[j] {
        let fi = first_with_text(texts, eligible, texts[i], n)->0;
        let fj = first_with_text(texts, eligible, texts[j], n)->0;
        lemma_first_with_text(texts, eligible, texts[i], n);
        lemma_first_with_text(texts, eligible, texts[j], n);
        rank_injective(texts, usages, eligible, fi, fj);
        if short_name(rank(texts, usages, eligible, fi)) == short_name(rank(texts, usages, eligible, fj)) {
            short_name_injective(rank(texts, usages, eligible, fi), rank(texts, usages, eligible, fj));
        }
    }
}

pub open spec fn plan_texts(ids: Seq<Identifier>) -> Seq<Seq<char>> {
    ids.map_values(|id: Identifier| id.text())
}

pub open spec fn plan_usages(ids: Seq<Identifier>, counter: &IdUsageCounter, category: IdCategory) -> Seq<int> {
    ids.map_values(|id: Identifier| count_of(counter.table(category), id.text()) as int)
}

pub open spec fn plan_eligible(ids: Seq<Identifier>, builtins: &BuiltinFiles, category: IdCategory) -> Seq<bool> {
    ids.map_values(|id: Identifier| renamable(id.parts(), vanilla_names(builtins, category)))
}

fn in_vanilla(builtins: &BuiltinFiles, category: IdCategory, text: &str) -> (r: bool)
    ensures
        r == vanilla_names(builtins, category).contains(text@),
{
    match category {
        IdCategory::Model => crate::minecraft::builtin_files::is_in_models(builtins, text),
        IdCategory::Texture => crate::minecraft::builtin_files::is_in_textures(builtins, text),
        IdCategory::Sound => crate::minecraft::builtin_files::is_in_sounds(builtins, text),
    }
}

/// Chooses the new identifier of each of `ids` (files of `category`):
/// vanilla files of the `minecraft` namespace keep theirs; the others, in the
/// order of decreasing usage then identifier text, get `_:<short name of
/// their position>`, or the name `table` already gives their identifier.
/// New names are recorded in `table`, by identifier text.
pub fn plan_renames(
    ids: &Vec<Identifier>,
    category: IdCategory,
    builtins: &BuiltinFiles,
    counter: &IdUsageCounter,
    table: &mut StringHashMap<String>,
) -> (r: Vec<Identifier>)
    ensures
        r.len() == ids.len(),
        forall|j: int|
            0 <= j < ids.len() ==> #[trigger] r@[j].parts() == if plan_eligible(ids@, builtins, category)[j] {
                renamed(
                    plan_texts(ids@),
                    plan_usages(ids@, counter, category),
                    plan_eligible(ids@, builtins, category),
                    table_texts(old(table)@),
                    j,
                )
            } else {
                ids@[j].parts()
            },
        table_texts(final(table)@) == table_after(
            plan_texts(ids@),
            plan_usages(ids@, counter, category),
            plan_eligible(ids@, builtins, category),
            table_texts(old(table)@),
            ids.len() as int,
        ),
        forall|i: int, j: int|
            0 <= i < ids.len() && 0 <= j < ids.len() && plan_eligible(ids@, builtins, category)[i]
                && plan_eligible(ids@, builtins, category)[j] && !table_texts(old(table)@).contains_key(
                ids@[i].text(),
            ) && !table_texts(old(table)@).contains_key(ids@[j].text()) && count_of(
                counter.table(category),
                ids@[i].text(),
            ) > count_of(counter.table(category), ids@[j].text()) ==> (#[trigger] r@[i]).parts().1.len()
                <= (#[trigger] r@[j]).parts().1.len(),
{
    let n = ids.len();
    let ghost texts = plan_texts(ids@);
    let ghost usages = plan_usages(ids@, counter, category);
    let ghost eligible = plan_eligible(ids@, builtins, category);
    let mut text_v: Vec<Vec<char>> = Vec::new();
    let mut usage_v: Vec<usize> = Vec::new();
    let mut elig_v: Vec<bool> = Vec::new();
    let minecraft = chars_of(string_of(&vec!['m', 'i', 'n', 'e', 'c', 'r', 'a', 'f', 't']).as_str());
    assert(minecraft@ =~= minecraft_namespace());
    let mut k: usize = 0;
    while k < n
        invariant
            k <= n == ids.len(),
            minecraft@ == minecraft_namespace(),
            text_v.len() == k,
            usage_v.len() == k,
            elig_v.len() == k,
            texts == plan_texts(ids@),
            usages == plan_usages(ids@, counter, category),
            eligible == plan_eligible(ids@, builtins, category),
            forall|q: int| 0 <= q < k ==> (#[trigger] text_v@[q])@ == texts[q],
            forall|q: int| 0 <= q < k ==> #[trigger] usage_v@[q] == usages[q],
            forall|q: int| 0 <= q < k ==> #[trigger] elig_v@[q] == eligible[q],
        decreases n - k,
    {
        let text = ids[k].to_string();
        let usage = counter.get_usage_count(text.as_str(), category);
        let ns = chars_of(ids[k].namespace.as_str());
        let vanilla = chars_eq(&ns, &minecraft) && in_vanilla(builtins, category, text.as_str());
        assert(texts[k as int] == ids@[k as int].text());
        assert(usages[k as int] == count_of(counter.table(category), ids@[k as int].text()) as int);
        assert(eligible[k as int] == renamable(ids@[k as int].parts(), vanilla_names(builtins, category)));
        assert(ns@ == ids@[k as int].namespace@);
        assert(text@ == ids@[k as int].text());
        text_v.push(chars_of(text.as_str()));
        usage_v.push(usage);
        elig_v.push(!vanilla);
        k = k + 1;
    }
    let mut ranks: Vec<usize> = Vec::new();
    let mut j: usize = 0;
    while j < n
        invariant
            j <= n == ids.len(),
            text_v.len() == n,
            usage_v.len() == n,
            elig_v.len() == n,
            ranks.len() == j,
            texts.len() == n,
            usages.len() == n,
            eligible.len() == n,
            forall|q: int| 0 <= q < n ==> (#[trigger] text_v@[q])@ == texts[q],
            forall|q: int| 0 <= q < n ==> #[trigger] usage_v@[q] == usages[q],
            forall|q: int| 0 <= q < n ==> #[trigger] elig_v@[q] == eligible[q],
            forall|q: int| 0 <= q < j ==> #[trigger] ranks@[q] == rank(texts, usages, eligible, q),
        decreases n - j,
    {
        let mut count: usize = 0;
        let mut i: usize = 0;
        while i < n
            invariant
                i <= n,
                j < n,
                text_v.len() == n,
                usage_v.len() == n,
                elig_v.len() == n,
                texts.len() == n,
                usages.len() == n,
                eligible.len() == n,
                forall|q: int| 0 <= q < n ==> (#[trigger] text_v@[q])@ == texts[q],
                forall|q: int| 0 <= q < n ==> #[trigger] usage_v@[q] == usages[q],
                forall|q: int| 0 <= q < n ==> #[trigger] elig_v@[q] == eligible[q],
                count == count_preceding(texts, usages, eligible, j as int, i as int),
                count <= i,
            decreases n - i,
        {
            assert(text_v@[i as int]@ == texts[i as int] && usage_v@[i as int] == usages[i as int]
                && elig_v@[i as int] == eligible[i as int]);
            assert(text_v@[j as int]@ == texts[j as int] && usage_v@[j as int] == usages[j as int]
                && elig_v@[j as int] == eligible[j as int]);
            let before = elig_v[i] && elig_v[j] && (usage_v[i] > usage_v[j] || (usage_v[i] == usage_v[j]
                && (lex_less_chars(&text_v[i], &text_v[j]) || (chars_eq(&text_v[i], &text_v[j]) && i < j))));
            assert(before == precedes(texts, usages, eligible, i as int, j as int));
            if before {
                count = count + 1;
            }
            i = i + 1;
        }
        ranks.push(count);
        assert forall|q: int| 0 <= q < j + 1 implies #[trigger] ranks@[q] == rank(texts, usages, eligible, q) by {
            if q < j {
            }
        }
        j = j + 1;
    }
    let ghost old_table = table_texts(table@);
    let mut out: Vec<Identifier> = Vec::new();
    let mut m: usize = 0;
    while m < n
        invariant
            m <= n == ids.len(),
            text_v.len() == n,
            elig_v.len() == n,
            ranks.len() == n,
            texts.len() == n,
            eligible.len() == n,
            texts == plan_texts(ids@),
            eligible == plan_eligible(ids@, builtins, category),
            forall|q: int| 0 <= q < n ==> (#[trigger] text_v@[q])@ == texts[q],
            forall|q: int| 0 <= q < n ==> #[trigger] elig_v@[q] == eligible[q],
            forall|q: int| 0 <= q < n ==> #[trigger] ranks@[q] == rank(texts, usages, eligible, q),
            out.len() == m,
            table_texts(table@) == table_after(texts, usages, eligible, old_table, m as int),
            forall|q: int|
                0 <= q < m ==> #[trigger] out@[q].parts() == if eligible[q] {
                    renamed(texts, usages, eligible, old_table, q)
                } else {
                    ids@[q].parts()
                },
        decreases n - m,
    {
        let ghost prev_out = out@;
        let ghost t = texts[m as int];
        assert(text_v@[m as int]@ == t && elig_v@[m as int] == eligible[m as int]);
        assert(ranks@[m as int] == rank(texts, usages, eligible, m as int));
        if elig_v[m] {
            let text = string_of(&text_v[m]);
            let found = match table.get(text.as_str()) {
                Some(mapped) => Some(mapped.clone()),
                None => None,
            };
            match found {
                Some(mapped) => {
                    assert(table_texts(table@).contains_key(t));
                    assert(table_texts(table@)[t] == mapped@);
                    out.push(Identifier::parse(mapped.as_str()));
                },
                None => {
                    assert(!table_texts(table@).contains_key(t));
                    let name = generate_short_name(ranks[m]);
                    let name_chars = chars_of(name.as_str());
                    let new_id = Identifier::from_chars(&vec!['_'], &name_chars);
                    let value = string_of(&concat_chars(&vec!['_', ':'], &name_chars));
                    assert(value@ == renamed_text(short_name(rank(texts, usages, eligible, m as int))));
                    let ghost before = table@;
                    table.insert(text, value);
                    assert(table_texts(table@) =~= table_texts(before).insert(texts[m as int], value@));
                    out.push(new_id);
                },
            }
        } else {
            out.push(ids[m].copy());
        }
        assert forall|q: int| 0 <= q < m + 1 implies #[trigger] out@[q].parts() == if eligible[q] {
            renamed(texts, usages, eligible, old_table, q)
        } else {
            ids@[q].parts()
        } by {
            if q < m {
                assert(out@[q] == prev_out[q]);
            }
        }
        m = m + 1;
    }
    proof {
        assert forall|p: int, q: int|
            0 <= p < texts.len() && 0 <= q < texts.len() && #[trigger] texts[p] == #[trigger] texts[q] implies usages[p]
            == usages[q] by {}
        assert forall|i: int, j: int|
            0 <= i < n && 0 <= j < n && eligible[i] && eligible[j] && !old_table.contains_key(texts[i])
                && !old_table.contains_key(texts[j]) && usages[i] > usages[j] implies (#[trigger] out@[i]).parts().1.len()
            <= (#[trigger] out@[j]).parts().1.len() by {
            more_used_gets_shorter_name(texts, usages, eligible, old_table, i, j);
        }
    }
    out
}

} // verus!

verus! {

/// A source that places textures by name (a directory or a single file).
pub open spec fn places_textures(s: SourceView) -> bool {
    s is Directory || s is Single
}

/// The sources that do not place textures by name, in order.
pub open spec fn kept_sources(s: Seq<SourceView>) -> Seq<SourceView>
    decreases s.len(),
{
    if s.len() == 0 {
        Seq::empty()
    } else {
        let rest = kept_sources(s.drop_last());
        if places_textures(s.last()) {
            rest
        } else {
            rest.push(s.last())
        }
    }
}

/// The directory source that the renamed textures of an atlas live in:
/// `b/` for blocks, `i/` for items.
pub open spec fn folder_source(t: AtlasType) -> Option<SourceView> {
    match t {
        AtlasType::Blocks => Some(SourceView::Directory { source: seq!['b'], prefix: seq!['b', '/'] }),
        AtlasType::Items => Some(SourceView::Directory { source: seq!['i'], prefix: seq!['i', '/'] }),
        _ => None,
    }
}

/// The sources of an atlas once the textures it holds are renamed: block and
/// item atlases lose their directory and single sources and list the folder
/// of renamed textures instead; other atlases keep their sources.
pub open spec fn rebuilt_sources(s: Seq<SourceView>, t: AtlasType) -> Seq<SourceView> {
    match folder_source(t) {
        Some(d) => kept_sources(s).push(d),
        None => s,
    }
}

/// The base pack (no overlay) has an atlas of type `t`.
pub open spec fn has_base_atlas(atlases: Seq<Atlas>, t: AtlasType) -> bool {
    exists|i: int| 0 <= i < atlases.len() && #[trigger] atlases[i].atlas_type == t && atlases[i].overlay@.len() == 0
}

/// A new base-pack atlas of type `t` that only holds its renamed folder.
pub open spec fn is_new_folder_atlas(a: Atlas, t: AtlasType) -> bool {
    &&& a.overlay@.len() == 0
    &&& a.atlas_type == t
    &&& source_views(a.sources@) == seq![folder_source(t)->0]
}

fn folder_directory(t: AtlasType) -> (r: Option<AtlasSource>)
    ensures
        match r {
            Some(s) => folder_source(t) == Some(s@),
            None => folder_source(t) is None,
        },
{
    match t {
        AtlasType::Blocks => {
            let src = vec!['b'];
            let pre = vec!['b', '/'];
            assert(src@ =~= seq!['b'] && pre@ =~= seq!['b', '/']);
            let s = AtlasSource::Directory { source: string_of(&src), prefix: string_of(&pre) };
            assert(s@ == folder_source(t)->0);
            Some(s)
        },
        AtlasType::Items => {
            let src = vec!['i'];
            let pre = vec!['i', '/'];
            assert(src@ =~= seq!['i'] && pre@ =~= seq!['i', '/']);
            let s = AtlasSource::Directory { source: string_of(&src), prefix: string_of(&pre) };
            assert(s@ == folder_source(t)->0);
            Some(s)
        },
        _ => None,
    }
}

/// Points the block and item atlases at the folders of renamed textures:
/// their directory and single sources are replaced by the directory `b/`
/// (blocks) or `i/` (items), other atlases are left as they are, and a
/// base-pack atlas is added for each of the two that the base pack lacks
/// (blocks first).
pub fn rebuild_atlas(atlases: &mut Vec<Atlas>)
    ensures
        ({
            let old_len = old(atlases).len() as int;
            let add_blocks = !has_base_atlas(old(atlases)@, AtlasType::Blocks);
            let add_items = !has_base_atlas(old(atlases)@, AtlasType::Items);
            let items_at = old_len + if add_blocks { 1int } else { 0int };
            &&& final(atlases).len() == items_at + if add_items { 1int } else { 0int }
            &&& forall|i: int|
                0 <= i < old_len ==> #[trigger] final(atlases)@[i].overlay@ == old(atlases)@[i].overlay@
                    && final(atlases)@[i].atlas_type == old(atlases)@[i].atlas_type && source_views(
                    final(atlases)@[i].sources@,
                ) == rebuilt_sources(source_views(old(atlases)@[i].sources@), old(atlases)@[i].atlas_type)
            &&& add_blocks ==> is_new_folder_atlas(final(atlases)@[old_len], AtlasType::Blocks)
            &&& add_items ==> is_new_folder_atlas(final(atlases)@[items_at], AtlasType::Items)
        }),
{
    let ghost before = atlases@;
    let mut out: Vec<Atlas> = Vec::new();
    let mut block_atlas_exists = false;
    let mut item_atlas_exists = false;
    let mut i: usize = 0;
    while i < atlases.len()
        invariant
            i <= atlases.len(),
            atlases@ == before,
            out.len() == i,
            block_atlas_exists == exists|j: int|
                0 <= j < i && #[trigger] before[j].atlas_type == AtlasType::Blocks && before[j].overlay@.len() == 0,
            item_atlas_exists == exists|j: int|
                0 <= j < i && #[trigger] before[j].atlas_type == AtlasType::Items && before[j].overlay@.len() == 0,
            forall|j: int|
                0 <= j < i ==> (#[trigger] out@[j]).overlay@ == before[j].overlay@ && out@[j].atlas_type
                    == before[j].atlas_type && source_views(out@[j].sources@) == rebuilt_sources(
                    source_views(before[j].sources@),
                    before[j].atlas_type,
                ),
        decreases atlases.len() - i,
    {
        let atlas = &atlases[i];
        let folder = folder_directory(atlas.atlas_type);
        let renames_here = folder.is_some();
        let mut sources: Vec<AtlasSource> = Vec::new();
        let mut k: usize = 0;
        while k < atlas.sources.len()
            invariant
                k <= atlas.sources.len(),
                renames_here == folder_source(atlas.atlas_type) is Some,
                source_views(sources@) == if renames_here {
                    kept_sources(source_views(atlas.sources@).take(k as int))
                } else {
                    source_views(atlas.sources@).take(k as int)
                },
            decreases atlas.sources.len() - k,
        {
            let ghost prev = sources@;
            let s = &atlas.sources[k];
            let ghost views = source_views(atlas.sources@);
            assert(views.take(k + 1).drop_last() =~= views.take(k as int));
            assert(views.take(k + 1).last() == s@);
            let by_name = match s {
                AtlasSource::Directory { .. } => true,
                AtlasSource::Single { .. } => true,
                _ => false,
            };
            if !(renames_here && by_name) {
                sources.push(copy_source(s));
                assert(source_views(sources@) =~= source_views(prev).push(s@));
            }
            k = k + 1;
        }
        assert(source_views(atlas.sources@).take(atlas.sources.len() as int) =~= source_views(atlas.sources@));
        let is_base = atlas.overlay.as_str().is_empty();
        if atlas.atlas_type == AtlasType::Blocks && is_base {
            block_atlas_exists = true;
        }
        if atlas.atlas_type == AtlasType::Items && is_base {
            item_atlas_exists = true;
        }
        match folder {
            Some(d) => {
                let ghost prev = sources@;
                sources.push(d);
                assert(source_views(sources@) =~= source_views(prev).push(d@));
            },
            None => {},
        }
        let ghost prev_out = out@;
        out.push(Atlas { overlay: atlas.overlay.clone(), atlas_type: atlas.atlas_type, sources });
        assert forall|j: int|
            0 <= j < i + 1 implies (#[trigger] out@[j]).overlay@ == before[j].overlay@ && out@[j].atlas_type
                == before[j].atlas_type && source_views(out@[j].sources@) == rebuilt_sources(
                source_views(before[j].sources@),
                before[j].atlas_type,
            ) by {
            if j < i {
                assert(out@[j] == prev_out[j]);
            }
        }
        i = i + 1;
    }
    let old_len = out.len();
    assert(block_atlas_exists == has_base_atlas(before, AtlasType::Blocks));
    assert(item_atlas_exists == has_base_atlas(before, AtlasType::Items));
    let ghost rebuilt = out@;
    if !block_atlas_exists {
        let d = folder_directory(AtlasType::Blocks).unwrap();
        let sources = vec![d];
        assert(source_views(sources@) =~= seq![d@]);
        out.push(Atlas { overlay: String::new(), atlas_type: AtlasType::Blocks, sources });
    }
    if !item_atlas_exists {
        let d = folder_directory(AtlasType::Items).unwrap();
        let sources = vec![d];
        assert(source_views(sources@) =~= seq![d@]);
        out.push(Atlas { overlay: String::new(), atlas_type: AtlasType::Items, sources });
    }
    assert forall|j: int| 0 <= j < old_len implies #[trigger] out@[j] == rebuilt[j] by {}
    *atlases = out;
}

} // verus!

verus! {

/// The renaming table after the first `n` overlay directories are given the
/// short names of their positions.
pub open spec fn overlay_table(old: Map<Seq<char>, Seq<char>>, dirs: Seq<Seq<char>>, n: int) -> Map<Seq<char>, Seq<char>>
    decreases n,
{
    if n <= 0 {
        old
    } else {
        overlay_table(old, dirs, n - 1).insert(dirs[n - 1], short_name((n - 1) as nat))
    }
}

/// The overlay entries of `pack.mcmeta`, when it declares any list of them.
pub open spec fn overlay_entries(mcmeta: PackMcmeta) -> Option<Seq<OverlayEntry>> {
    match mcmeta.overlays {
        Some(overlay) => match overlay.entries {
            Some(entries) => Some(entries@),
            None => None,
        },
        None => None,
    }
}

/// Gives each declared overlay directory the short name of its position
/// (`a`, `b`, ...) and records the new names in `mapping`, by old name.
pub fn rename_overlays(mcmeta: &mut PackMcmeta, mapping: &mut StringHashMap<String>)
    ensures
        match overlay_entries(*old(mcmeta)) {
            Some(entries) => {
                &&& overlay_entries(*final(mcmeta)) is Some
                &&& overlay_entries(*final(mcmeta))->0.len() == entries.len()
                &&& forall|i: int|
                    0 <= i < entries.len() ==> {
                        let e = #[trigger] overlay_entries(*final(mcmeta))->0[i];
                        &&& e.directory@ == short_name(i as nat)
                        &&& e.min_format == entries[i].min_format
                        &&& e.max_format == entries[i].max_format
                        &&& e.formats == entries[i].formats
                    }
                &&& table_texts(final(mapping)@) == overlay_table(
                    table_texts(old(mapping)@),
                    crate::overlay_remover::directories(entries),
                    entries.len() as int,
                )
            },
            None => *final(mcmeta) == *old(mcmeta) && final(mapping)@ == old(mapping)@,
        },
{
    let taken = mcmeta.overlays.take();
    match taken {
        Some(overlay) => match overlay.entries {
            Some(entries) => {
                let ghost dirs = crate::overlay_remover::directories(entries@);
                let ghost start = table_texts(mapping@);
                let mut renamed: Vec<OverlayEntry> = Vec::new();
                let mut i: usize = 0;
                while i < entries.len()
                    invariant
                        i <= entries.len(),
                        dirs == crate::overlay_remover::directories(entries@),
                        renamed.len() == i,
                        forall|j: int|
                            0 <= j < i ==> {
                                let e = #[trigger] renamed@[j];
                                &&& e.directory@ == short_name(j as nat)
                                &&& e.min_format == entries@[j].min_format
                                &&& e.max_format == entries@[j].max_format
                                &&& e.formats == entries@[j].formats
                            },
                        table_texts(mapping@) == overlay_table(start, dirs, i as int),
                    decreases entries.len() - i,
                {
                    let ghost prev = renamed@;
                    let new_name = generate_short_name(i);
                    let ghost before = mapping@;
                    mapping.insert(entries[i].directory.clone(), new_name.clone());
                    assert(table_texts(mapping@) =~= table_texts(before).insert(dirs[i as int], new_name@));
                    renamed.push(
                        OverlayEntry {
                            directory: new_name,
                            min_format: entries[i].min_format,
                            max_format: entries[i].max_format,
                            formats: entries[i].formats,
                        },
                    );
                    assert forall|j: int| 0 <= j < i + 1 implies {
                        let e = #[trigger] renamed@[j];
                        &&& e.directory@ == short_name(j as nat)
                        &&& e.min_format == entries@[j].min_format
                        &&& e.max_format == entries@[j].max_format
                        &&& e.formats == entries@[j].formats
                    } by {
                        if j < i {
                            assert(renamed@[j] == prev[j]);
                        }
                    }
                    i = i + 1;
                }
                mcmeta.overlays = Some(Overlay { entries: Some(renamed) });
            },
            None => {
                mcmeta.overlays = Some(Overlay { entries: None });
            },
        },
        None => {},
    }
}

/// Where a file is written in the output archive: a path in an overlay
/// directory (anything not under `assets/`) moves to the overlay's new name
/// when the overlay was renamed.
pub open spec fn output_path(path: Seq<char>, overlays: Map<Seq<char>, String>) -> Seq<char> {
    if crate::text::starts_with(path, crate::assets_prefix()) {
        path
    } else {
        match crate::text::split_once(path, '/') {
            Some((overlay, rest)) => if overlays.contains_key(overlay) {
                overlays[overlay]@ + seq!['/'] + rest
            } else {
                path
            },
            None => path,
        }
    }
}

/// The path a file is written to, after overlay directories are renamed.
pub fn resolve_asset_path(path: &str, mapping: &Mapping) -> (r: String)
    ensures
        r@ == output_path(path@, mapping.overlay_mappings@),
{
    let p = chars_of(path);
    let assets = vec!['a', 's', 's', 'e', 't', 's', '/'];
    assert(assets@ =~= crate::assets_prefix());
    if !crate::text::starts_with_chars(&p, &assets) {
        match crate::text::split_once_chars(&p, '/') {
            Some((overlay, rest)) => {
                let name = string_of(&overlay);
                match mapping.overlay_mappings.get(name.as_str()) {
                    Some(value) => {
                        let v = chars_of(value.as_str());
                        let slash = vec!['/'];
                        assert(slash@ =~= seq!['/']);
                        let with_slash = concat_chars(&v, &slash);
                        return string_of(&concat_chars(&with_slash, &rest));
                    },
                    None => {},
                }
            },
            None => {},
        }
    }
    path.to_owned()
}

} // verus!

verus! {

/// The folder a renamed texture moves to: `b/` when the blocks atlas holds
/// it, else `i/` when the items atlas does, else the top folder when a font
/// uses it; `None` when it is in none of them (it is not renamed).
pub open spec fn texture_folder(in_blocks: bool, in_items: bool, in_font: bool) -> Option<Seq<char>> {
    if in_blocks {
        Some(seq!['b', '/'])
    } else if in_items {
        Some(seq!['i', '/'])
    } else if in_font {
        Some(Seq::empty())
    } else {
        None
    }
}

/// Where a renamed texture goes: a texture of the blocks atlas goes to `b/`
/// (also when the items atlas holds it too), one only of the items atlas to
/// `i/`, one only a font uses to the top folder, and a texture that no atlas
/// and no font uses is not renamed.
pub proof fn texture_folder_choice(in_blocks: bool, in_items: bool, in_font: bool)
    ensures
        texture_folder(in_blocks, in_items, in_font) is None <==> !in_blocks && !in_items && !in_font,
        in_blocks ==> texture_folder(in_blocks, in_items, in_font) == Some(seq!['b', '/']),
        !in_blocks && in_items ==> texture_folder(in_blocks, in_items, in_font) == Some(seq!['i', '/']),
        texture_folder(in_blocks, in_items, in_font) == Some(Seq::<char>::empty()) <==> !in_blocks && !in_items
            && in_font,
{
    assert(seq!['b', '/'] != Seq::<char>::empty() && seq!['i', '/'] != Seq::<char>::empty()) by {
        assert(seq!['b', '/'].len() == 2 && seq!['i', '/'].len() == 2);
    }
}

/// One of the first `k` atlases lies in `overlay`, has type `t` and holds
/// texture `id`.
pub open spec fn atlas_holds(atlases: Seq<Atlas>, overlay: Seq<char>, id: (Seq<char>, Seq<char>), t: AtlasType, k: int) -> bool
    decreases k,
{
    if k <= 0 {
        false
    } else {
        atlas_holds(atlases, overlay, id, t, k - 1) || (atlases[k - 1].overlay@ == overlay
            && atlases[k - 1].atlas_type == t && crate::resource_pack::files::atlas::atlas_sprite(
            atlases[k - 1].sources@,
            id,
        ) is Some)
    }
}

/// The texture is in the atlas of type `t`: an atlas of its overlay holds it,
/// or Minecraft puts its path in that atlas.
pub open spec fn in_atlas(atlases: Seq<Atlas>, texture: AssetTexture, t: AtlasType) -> bool {
    atlas_holds(atlases, texture.overlay@, texture.identifier.parts(), t, atlases.len() as int)
        || crate::minecraft::builtin_files::atlas_of(texture.identifier.path@) == Some(t)
}

/// The folder of each texture.
pub open spec fn texture_folders(textures: Seq<AssetTexture>, atlases: Seq<Atlas>, fonts: Seq<Seq<char>>) -> Seq<
    Option<Seq<char>>,
> {
    textures.map_values(
        |t: AssetTexture|
            texture_folder(
                in_atlas(atlases, t, AtlasType::Blocks),
                in_atlas(atlases, t, AtlasType::Items),
                fonts.contains(t.identifier.text()),
            ),
    )
}

/// The texture can get a new name: it is renamable and lies in a folder.
pub open spec fn nameable(eligible: Seq<bool>, folders: Seq<Option<Seq<char>>>) -> Seq<bool> {
    Seq::new(eligible.len(), |i: int| eligible[i] && folders[i] is Some)
}

/// How many of the first `m` textures get a new name in the folder of
/// texture `j` before it (in the renaming order).
pub open spec fn count_in_folder(
    texts: Seq<Seq<char>>,
    usages: Seq<int>,
    named: Seq<bool>,
    folders: Seq<Option<Seq<char>>>,
    old: Map<Seq<char>, Seq<char>>,
    j: int,
    m: int,
) -> nat
    decreases m,
{
    if m <= 0 {
        0
    } else {
        let i = m - 1;
        count_in_folder(texts, usages, named, folders, old, j, m - 1) + if precedes(texts, usages, named, i, j)
            && first_with_text(texts, named, texts[i], i) is None && !old.contains_key(texts[i]) && folders[i]
            == folders[j] {
            1nat
        } else {
            0nat
        }
    }
}

/// The new text of texture `j` when it is the first to get its name:
/// `_:<folder><short name of its position in the folder>`.
pub open spec fn texture_name(
    texts: Seq<Seq<char>>,
    usages: Seq<int>,
    named: Seq<bool>,
    folders: Seq<Option<Seq<char>>>,
    old: Map<Seq<char>, Seq<char>>,
    j: int,
) -> Seq<char> {
    folders[j]->0 + short_name(count_in_folder(texts, usages, named, folders, old, j, texts.len() as int))
}

/// The renaming table after the first `m` textures.
pub open spec fn texture_table_after(
    texts: Seq<Seq<char>>,
    usages: Seq<int>,
    named: Seq<bool>,
    folders: Seq<Option<Seq<char>>>,
    old: Map<Seq<char>, Seq<char>>,
    m: int,
) -> Map<Seq<char>, Seq<char>>
    decreases m,
{
    if m <= 0 {
        old
    } else {
        let before = texture_table_after(texts, usages, named, folders, old, m - 1);
        let t = texts[m - 1];
        if named[m - 1] && !before.contains_key(t) {
            before.insert(t, renamed_text(texture_name(texts, usages, named, folders, old, m - 1)))
        } else {
            before
        }
    }
}

/// The new (namespace, path) of texture `j`: the name the table already
/// gives its identifier, else a new name in its folder, else its own.
pub open spec fn renamed_texture(
    texts: Seq<Seq<char>>,
    usages: Seq<int>,
    eligible: Seq<bool>,
    folders: Seq<Option<Seq<char>>>,
    old: Map<Seq<char>, Seq<char>>,
    own: (Seq<char>, Seq<char>),
    j: int,
) -> (Seq<char>, Seq<char>) {
    let named = nameable(eligible, folders);
    let before = texture_table_after(texts, usages, named, folders, old, j);
    if !eligible[j] {
        own
    } else if before.contains_key(texts[j]) {
        parse_id(before[texts[j]])
    } else if folders[j] is Some {
        (seq!['_'], texture_name(texts, usages, named, folders, old, j))
    } else {
        own
    }
}

} // verus!

verus! {

/// The identifiers of the textures.
pub open spec fn texture_ids(textures: Seq<AssetTexture>) -> Seq<Identifier> {
    textures.map_values(|t: AssetTexture| t.identifier)
}

/// Whether the texture is in the atlas of type `t`.
pub fn texture_in_atlas(atlases: &Vec<Atlas>, texture: &AssetTexture, t: AtlasType) -> (r: bool)
    ensures
        r == in_atlas(atlases@, *texture, t),
{
    let mut found = false;
    let mut k: usize = 0;
    while k < atlases.len()
        invariant
            k <= atlases.len(),
            found == atlas_holds(atlases@, texture.overlay@, texture.identifier.parts(), t, k as int),
        decreases atlases.len() - k,
    {
        let a = &atlases[k];
        if !found && a.overlay == texture.overlay && a.atlas_type == t {
            match a.get_identifier(&texture.identifier) {
                Some(_) => {
                    found = true;
                },
                None => {},
            }
        }
        k = k + 1;
    }
    found || crate::minecraft::builtin_files::get_atlas(texture.identifier.path.as_str()) == Some(t)
}

} // verus!

verus! {

/// Whether each texture is in both the blocks and the items atlas.
pub open spec fn in_both_atlases(textures: Seq<AssetTexture>, atlases: Seq<Atlas>) -> Seq<bool> {
    textures.map_values(|t: AssetTexture| in_atlas(atlases, t, AtlasType::Blocks) && in_atlas(atlases, t, AtlasType::Items))
}

/// The textures among the first `m` that get a new name while being in both
/// the blocks and the items atlas (they go to the blocks folder).
pub open spec fn warned_textures(
    texts: Seq<Seq<char>>,
    usages: Seq<int>,
    eligible: Seq<bool>,
    folders: Seq<Option<Seq<char>>>,
    old: Map<Seq<char>, Seq<char>>,
    both: Seq<bool>,
    m: int,
) -> Seq<usize>
    decreases m,
{
    if m <= 0 {
        Seq::empty()
    } else {
        let before = warned_textures(texts, usages, eligible, folders, old, both, m - 1);
        let table = texture_table_after(texts, usages, nameable(eligible, folders), folders, old, m - 1);
        if eligible[m - 1] && !table.contains_key(texts[m - 1]) && both[m - 1] {
            before.push((m - 1) as usize)
        } else {
            before
        }
    }
}

/// The new identifiers of the renamed textures, and the textures that are
/// in both atlases.
pub struct TextureRenames {
    pub identifiers: Vec<Identifier>,
    pub in_both_atlases: Vec<usize>,
}

/// Chooses the new identifier of each texture: vanilla textures of the
/// `minecraft` namespace keep theirs; a texture whose identifier `table`
/// already renames takes that name; the others that the blocks atlas, the
/// items atlas or a font uses go to folder `b/`, `i/` or the top folder and
/// take `_:<folder><short name>`, numbered per folder in the order of
/// decreasing usage then identifier text; the rest keep theirs. New names are
/// recorded in `table`.
pub fn plan_texture_renames(
    textures: &Vec<AssetTexture>,
    atlases: &Vec<Atlas>,
    font_textures: &Vec<String>,
    builtins: &BuiltinFiles,
    counter: &IdUsageCounter,
    table: &mut StringHashMap<String>,
) -> (r: TextureRenames)
    ensures
        ({
            let ids = texture_ids(textures@);
            let texts = plan_texts(ids);
            let usages = plan_usages(ids, counter, IdCategory::Texture);
            let eligible = plan_eligible(ids, builtins, IdCategory::Texture);
            let folders = texture_folders(textures@, atlases@, crate::overlay_remover::texts(font_textures@));
            let old_table = table_texts(old(table)@);
            &&& r.identifiers.len() == textures.len()
            &&& forall|j: int|
                0 <= j < textures.len() ==> #[trigger] r.identifiers@[j].parts() == renamed_texture(
                    texts,
                    usages,
                    eligible,
                    folders,
                    old_table,
                    ids[j].parts(),
                    j,
                )
            &&& table_texts(final(table)@) == texture_table_after(
                texts,
                usages,
                nameable(eligible, folders),
                folders,
                old_table,
                textures.len() as int,
            )
            &&& r.in_both_atlases@ == warned_textures(
                texts,
                usages,
                eligible,
                folders,
                old_table,
                in_both_atlases(textures@, atlases@),
                textures.len() as int,
            )
        }),
{
    let n = textures.len();
    let ghost ids = texture_ids(textures@);
    let ghost texts = plan_texts(ids);
    let ghost usages = plan_usages(ids, counter, IdCategory::Texture);
    let ghost eligible = plan_eligible(ids, builtins, IdCategory::Texture);
    let ghost fonts = crate::overlay_remover::texts(font_textures@);
    let ghost folders = texture_folders(textures@, atlases@, fonts);
    let ghost named = nameable(eligible, folders);
    let ghost both = in_both_atlases(textures@, atlases@);
    let ghost old_table = table_texts(table@);
    let mut text_v: Vec<Vec<char>> = Vec::new();
    let mut usage_v: Vec<usize> = Vec::new();
    let mut elig_v: Vec<bool> = Vec::new();
    let mut folder_v: Vec<Option<Vec<char>>> = Vec::new();
    let mut both_v: Vec<bool> = Vec::new();
    let mut old_v: Vec<bool> = Vec::new();
    let minecraft = chars_of(string_of(&vec!['m', 'i', 'n', 'e', 'c', 'r', 'a', 'f', 't']).as_str());
    assert(minecraft@ =~= minecraft_namespace());
    let mut k: usize = 0;
    while k < n
        invariant
            k <= n == textures.len(),
            minecraft@ == minecraft_namespace(),
            ids == texture_ids(textures@),
            texts == plan_texts(ids),
            usages == plan_usages(ids, counter, IdCategory::Texture),
            eligible == plan_eligible(ids, builtins, IdCategory::Texture),
            fonts == crate::overlay_remover::texts(font_textures@),
            folders == texture_folders(textures@, atlases@, fonts),
            both == in_both_atlases(textures@, atlases@),
            old_table == table_texts(table@),
            text_v.len() == k,
            usage_v.len() == k,
            elig_v.len() == k,
            folder_v.len() == k,
            both_v.len() == k,
            old_v.len() == k,
            forall|q: int| 0 <= q < k ==> (#[trigger] text_v@[q])@ == texts[q],
            forall|q: int| 0 <= q < k ==> #[trigger] usage_v@[q] == usages[q],
            forall|q: int| 0 <= q < k ==> #[trigger] elig_v@[q] == eligible[q],
            forall|q: int|
                0 <= q < k ==> match #[trigger] folder_v@[q] {
                    Some(f) => folders[q] == Some(f@),
                    None => folders[q] is None,
                },
            forall|q: int| 0 <= q < k ==> #[trigger] both_v@[q] == both[q],
            forall|q: int| 0 <= q < k ==> #[trigger] old_v@[q] == old_table.contains_key(texts[q]),
        decreases n - k,
    {
        let texture = &textures[k];
        let text = texture.identifier.to_string();
        let usage = counter.get_usage_count(text.as_str(), IdCategory::Texture);
        let ns = chars_of(texture.identifier.namespace.as_str());
        let vanilla = chars_eq(&ns, &minecraft) && in_vanilla(builtins, IdCategory::Texture, text.as_str());
        let in_blocks = texture_in_atlas(atlases, texture, AtlasType::Blocks);
        let in_items = texture_in_atlas(atlases, texture, AtlasType::Items);
        let in_font = crate::overlay_remover::contains_text(font_textures, &text);
        let folder: Option<Vec<char>> = if in_blocks {
            Some(vec!['b', '/'])
        } else if in_items {
            Some(vec!['i', '/'])
        } else if in_font {
            Some(Vec::new())
        } else {
            None
        };
        let in_old = match table.get(text.as_str()) {
            Some(_) => true,
            None => false,
        };
        assert(ids[k as int] == texture.identifier);
        assert(texts[k as int] == text@);
        assert(folders[k as int] == texture_folder(in_blocks, in_items, in_font));
        proof {
            match &folder {
                Some(f) => {
                    assert(f@ =~= folders[k as int]->0);
                },
                None => {},
            }
        }
        text_v.push(chars_of(text.as_str()));
        usage_v.push(usage);
        elig_v.push(!vanilla);
        folder_v.push(folder);
        both_v.push(in_blocks && in_items);
        old_v.push(in_old);
        k = k + 1;
    }
    // the first texture with each text among those that can be named
    let mut first_v: Vec<bool> = Vec::new();
    let mut i: usize = 0;
    while i < n
        invariant
            i <= n,
            text_v.len() == n,
            elig_v.len() == n,
            folder_v.len() == n,
            texts.len() == n,
            named == nameable(eligible, folders),
            named.len() == n,
            forall|q: int| 0 <= q < n ==> (#[trigger] text_v@[q])@ == texts[q],
            forall|q: int| 0 <= q < n ==> #[trigger] elig_v@[q] == eligible[q],
            forall|q: int|
                0 <= q < n ==> match #[trigger] folder_v@[q] {
                    Some(f) => folders[q] == Some(f@),
                    None => folders[q] is None,
                },
            first_v.len() == i,
            forall|q: int|
                0 <= q < i ==> #[trigger] first_v@[q] == (first_with_text(texts, named, texts[q], q) is None),
        decreases n - i,
    {
        let mut first = true;
        let mut p: usize = 0;
        while p < i
            invariant
                p <= i < n,
                text_v.len() == n,
                elig_v.len() == n,
                folder_v.len() == n,
                texts.len() == n,
                named == nameable(eligible, folders),
                named.len() == n,
                forall|q: int| 0 <= q < n ==> (#[trigger] text_v@[q])@ == texts[q],
                forall|q: int| 0 <= q < n ==> #[trigger] elig_v@[q] == eligible[q],
                forall|q: int|
                    0 <= q < n ==> match #[trigger] folder_v@[q] {
                        Some(f) => folders[q] == Some(f@),
                        None => folders[q] is None,
                    },
                first == (first_with_text(texts, named, texts[i as int], p as int) is None),
            decreases i - p,
        {
            assert(text_v@[p as int]@ == texts[p as int]);
            assert(text_v@[i as int]@ == texts[i as int]);
            assert(elig_v@[p as int] == eligible[p as int]);
            let f = &folder_v[p];
            assert(named[p as int] == (elig_v@[p as int] && f.is_some()));
            if first && elig_v[p] && f.is_some() && chars_eq(&text_v[p], &text_v[i]) {
                first = false;
            }
            p = p + 1;
        }
        first_v.push(first);
        i = i + 1;
    }
    let mut ranks: Vec<usize> = Vec::new();
    let mut j: usize = 0;
    while j < n
        invariant
            j <= n,
            text_v.len() == n,
            usage_v.len() == n,
            elig_v.len() == n,
            folder_v.len() == n,
            first_v.len() == n,
            old_v.len() == n,
            texts.len() == n,
            usages.len() == n,
            eligible.len() == n,
            folders.len() == n,
            named == nameable(eligible, folders),
            forall|q: int| 0 <= q < n ==> (#[trigger] text_v@[q])@ == texts[q],
            forall|q: int| 0 <= q < n ==> #[trigger] usage_v@[q] == usages[q],
            forall|q: int| 0 <= q < n ==> #[trigger] elig_v@[q] == eligible[q],
            forall|q: int|
                0 <= q < n ==> match #[trigger] folder_v@[q] {
                    Some(f) => folders[q] == Some(f@),
                    None => folders[q] is None,
                },
            forall|q: int|
                0 <= q < n ==> #[trigger] first_v@[q] == (first_with_text(texts, named, texts[q], q) is None),
            forall|q: int| 0 <= q < n ==> #[trigger] old_v@[q] == old_table.contains_key(texts[q]),
            ranks.len() == j,
            forall|q: int|
                0 <= q < j ==> #[trigger] ranks@[q] == count_in_folder(texts, usages, named, folders, old_table, q, n as int),
        decreases n - j,
    {
        let mut count: usize = 0;
        let mut i: usize = 0;
        while i < n
            invariant
                i <= n,
                j < n,
                text_v.len() == n,
                usage_v.len() == n,
                elig_v.len() == n,
                folder_v.len() == n,
                first_v.len() == n,
                old_v.len() == n,
                texts.len() == n,
                usages.len() == n,
                eligible.len() == n,
                folders.len() == n,
                named == nameable(eligible, folders),
                forall|q: int| 0 <= q < n ==> (#[trigger] text_v@[q])@ == texts[q],
                forall|q: int| 0 <= q < n ==> #[trigger] usage_v@[q] == usages[q],
                forall|q: int| 0 <= q < n ==> #[trigger] elig_v@[q] == eligible[q],
                forall|q: int|
                    0 <= q < n ==> match #[trigger] folder_v@[q] {
                        Some(f) => folders[q] == Some(f@),
                        None => folders[q] is None,
                    },
                forall|q: int|
                    0 <= q < n ==> #[trigger] first_v@[q] == (first_with_text(texts, named, texts[q], q) is None),
                forall|q: int| 0 <= q < n ==> #[trigger] old_v@[q] == old_table.contains_key(texts[q]),
                count == count_in_folder(texts, usages, named, folders, old_table, j as int, i as int),
                count <= i,
            decreases n - i,
        {
            assert(text_v@[i as int]@ == texts[i as int] && text_v@[j as int]@ == texts[j as int]);
            assert(usage_v@[i as int] == usages[i as int] && usage_v@[j as int] == usages[j as int]);
            assert(elig_v@[i as int] == eligible[i as int] && elig_v@[j as int] == eligible[j as int]);
            let fi = &folder_v[i];
            let fj = &folder_v[j];
            assert(named[i as int] == (elig_v@[i as int] && fi.is_some()));
            assert(named[j as int] == (elig_v@[j as int] && fj.is_some()));
            let named_i = elig_v[i] && fi.is_some();
            let named_j = elig_v[j] && fj.is_some();
            let before = named_i && named_j && (usage_v[i] > usage_v[j] || (usage_v[i] == usage_v[j] && (
            lex_less_chars(&text_v[i], &text_v[j]) || (chars_eq(&text_v[i], &text_v[j]) && i < j))));
            assert(before == precedes(texts, usages, named, i as int, j as int));
            let same = same_folder(fi, fj);
            assert(same == (folders[i as int] == folders[j as int]));
            assert(first_v@[i as int] == (first_with_text(texts, named, texts[i as int], i as int) is None));
            assert(old_v@[i as int] == old_table.contains_key(texts[i as int]));
            if before && first_v[i] && !old_v[i] && same {
                count = count + 1;
            }
            i = i + 1;
        }
        ranks.push(count);
        assert forall|q: int| 0 <= q < j + 1 implies #[trigger] ranks@[q] == count_in_folder(
            texts,
            usages,
            named,
            folders,
            old_table,
            q,
            n as int,
        ) by {
            if q < j {
            }
        }
        j = j + 1;
    }
    let mut out: Vec<Identifier> = Vec::new();
    let mut warned: Vec<usize> = Vec::new();
    let mut m: usize = 0;
    while m < n
        invariant
            m <= n == textures.len(),
            ids == texture_ids(textures@),
            text_v.len() == n,
            elig_v.len() == n,
            folder_v.len() == n,
            both_v.len() == n,
            ranks.len() == n,
            texts.len() == n,
            eligible.len() == n,
            folders.len() == n,
            both.len() == n,
            named == nameable(eligible, folders),
            forall|q: int| 0 <= q < n ==> (#[trigger] text_v@[q])@ == texts[q],
            forall|q: int| 0 <= q < n ==> #[trigger] elig_v@[q] == eligible[q],
            forall|q: int|
                0 <= q < n ==> match #[trigger] folder_v@[q] {
                    Some(f) => folders[q] == Some(f@),
                    None => folders[q] is None,
                },
            forall|q: int| 0 <= q < n ==> #[trigger] both_v@[q] == both[q],
            forall|q: int|
                0 <= q < n ==> #[trigger] ranks@[q] == count_in_folder(texts, usages, named, folders, old_table, q, n as int),
            forall|q: int| 0 <= q < n ==> both[q] ==> #[trigger] folders[q] is Some,
            out.len() == m,
            table_texts(table@) == texture_table_after(texts, usages, named, folders, old_table, m as int),
            warned@ == warned_textures(texts, usages, eligible, folders, old_table, both, m as int),
            forall|q: int|
                0 <= q < m ==> #[trigger] out@[q].parts() == renamed_texture(
                    texts,
                    usages,
                    eligible,
                    folders,
                    old_table,
                    ids[q].parts(),
                    q,
                ),
        decreases n - m,
    {
        let ghost prev_out = out@;
        let ghost t = texts[m as int];
        assert(text_v@[m as int]@ == t && elig_v@[m as int] == eligible[m as int]);
        assert(both_v@[m as int] == both[m as int]);
        assert(ids[m as int] == textures@[m as int].identifier);
        if elig_v[m] {
            let text = string_of(&text_v[m]);
            let found = match table.get(text.as_str()) {
                Some(mapped) => Some(mapped.clone()),
                None => None,
            };
            match found {
                Some(mapped) => {
                    assert(table_texts(table@).contains_key(t));
                    out.push(Identifier::parse(mapped.as_str()));
                },
                None => {
                    assert(!table_texts(table@).contains_key(t));
                    match &folder_v[m] {
                        Some(f) => {
                            if both_v[m] {
                                warned.push(m);
                            }
                            let short = generate_short_name(ranks[m]);
                            let name = concat_chars(f, &chars_of(short.as_str()));
                            let underscore = vec!['_'];
                            let id_prefix = vec!['_', ':'];
                            assert(underscore@ =~= seq!['_'] && id_prefix@ =~= seq!['_', ':']);
                            let new_id = Identifier::from_chars(&underscore, &name);
                            let value = string_of(&concat_chars(&id_prefix, &name));
                            assert(name@ == texture_name(texts, usages, named, folders, old_table, m as int));
                            let ghost before = table@;
                            table.insert(text, value);
                            assert(table_texts(table@) =~= table_texts(before).insert(t, value@));
                            out.push(new_id);
                        },
                        None => {
                            out.push(textures[m].identifier.copy());
                        },
                    }
                },
            }
        } else {
            out.push(textures[m].identifier.copy());
        }
        assert forall|q: int| 0 <= q < m + 1 implies #[trigger] out@[q].parts() == renamed_texture(
            texts,
            usages,
            eligible,
            folders,
            old_table,
            ids[q].parts(),
            q,
        ) by {
            if q < m {
                assert(out@[q] == prev_out[q]);
            }
        }
        m = m + 1;
    }
    TextureRenames { identifiers: out, in_both_atlases: warned }
}

fn same_folder(a: &Option<Vec<char>>, b: &Option<Vec<char>>) -> (r: bool)
    ensures
        r == (match (a, b) {
            (Some(x), Some(y)) => x@ == y@,
            (None, None) => true,
            _ => false,
        }),
{
    match (a, b) {
        (Some(x), Some(y)) => chars_eq(x, y),
        (None, None) => true,
        _ => false,
    }
}


} // verus!

verus! {

/// Entry `i` is the first renamed entry with its text, and no older name
/// exists for it: it takes a new name in its folder.
pub open spec fn newly_named(
    texts: Seq<Seq<char>>,
    named: Seq<bool>,
    old: Map<Seq<char>, Seq<char>>,
    i: int,
) -> bool {
    &&& 0 <= i < texts.len()
    &&& named[i]
    &&& first_with_text(texts, named, texts[i], i) is None
    &&& !old.contains_key(texts[i])
}

proof fn lemma_count_in_folder(
    texts: Seq<Seq<char>>,
    usages: Seq<int>,
    named: Seq<bool>,
    folders: Seq<Option<Seq<char>>>,
    old: Map<Seq<char>, Seq<char>>,
    a: int,
    b: int,
    m: int,
)
    requires
        precedes(texts, usages, named, a, b),
        newly_named(texts, named, old, a),
        folders[a] == folders[b],
    ensures
        count_in_folder(texts, usages, named, folders, old, a, m) + (if a < m {
            1int
        } else {
            0int
        }) <= count_in_folder(texts, usages, named, folders, old, b, m),
    decreases m,
{
    if m > 0 {
        lemma_count_in_folder(texts, usages, named, folders, old, a, b, m - 1);
        lemma_precedes_irreflexive(texts, usages, named, a);
        if precedes(texts, usages, named, m - 1, a) {
            lemma_precedes_transitive(texts, usages, named, m - 1, a, b);
        }
    }
}

proof fn lemma_texture_table_after(
    texts: Seq<Seq<char>>,
    usages: Seq<int>,
    named: Seq<bool>,
    folders: Seq<Option<Seq<char>>>,
    old: Map<Seq<char>, Seq<char>>,
    t: Seq<char>,
    m: int,
)
    requires
        0 <= m <= texts.len(),
        named.len() == texts.len(),
        !old.contains_key(t),
    ensures
        texture_table_after(texts, usages, named, folders, old, m).contains_key(t) <==> first_with_text(
            texts,
            named,
            t,
            m,
        ) is Some,
        first_with_text(texts, named, t, m) is Some ==> texture_table_after(texts, usages, named, folders, old, m)[t]
            == renamed_text(texture_name(texts, usages, named, folders, old, first_with_text(texts, named, t, m)->0)),
    decreases m,
{
    if m > 0 {
        lemma_texture_table_after(texts, usages, named, folders, old, t, m - 1);
    }
}

proof fn lemma_short_name_has_no_slash(id: nat, i: int)
    requires
        0 <= i < short_name(id).len(),
    ensures
        short_name(id)[i] != '/',
        short_name(id).len() >= 1,
{
    lemma_digits_bounded(id, 38);
    let d = digits(id, 38)[i];
    assert(short_name(id)[i] == name_charset()[d as int]);
    let c = name_charset();
    assert(c[0] == 'a' && c[1] == 'b' && c[2] == 'c' && c[3] == 'd' && c[4] == 'e' && c[5] == 'f'
        && c[6] == 'g' && c[7] == 'h' && c[8] == 'i' && c[9] == 'j' && c[10] == 'k' && c[11] == 'l'
        && c[12] == 'm' && c[13] == 'n' && c[14] == 'o' && c[15] == 'p' && c[16] == 'q' && c[17]
        == 'r' && c[18] == 's' && c[19] == 't' && c[20] == 'u' && c[21] == 'v' && c[22] == 'w'
        && c[23] == 'x' && c[24] == 'y' && c[25] == 'z' && c[26] == '0' && c[27] == '1' && c[28]
        == '2' && c[29] == '3' && c[30] == '4' && c[31] == '5' && c[32] == '6' && c[33] == '7'
        && c[34] == '8' && c[35] == '9' && c[36] == '_' && c[37] == '-');
}

/// A folder that renamed textures go to: `b/`, `i/` or the top folder.
pub open spec fn texture_folder_text(f: Seq<char>) -> bool {
    f == seq!['b', '/'] || f == seq!['i', '/'] || f.len() == 0
}

proof fn lemma_folder_names_differ(f: Seq<char>, g: Seq<char>, x: nat, y: nat)
    requires
        texture_folder_text(f),
        texture_folder_text(g),
        f != g || x != y,
    ensures
        f + short_name(x) != g + short_name(y),
{
    let a = f + short_name(x);
    let b = g + short_name(y);
    lemma_short_name_has_no_slash(x, 0);
    lemma_short_name_has_no_slash(y, 0);
    if f.len() == 0 && g.len() == 0 {
        assert(f =~= g);
    }
    if f == g {
        if a == b {
            assert(short_name(x) =~= a.subrange(f.len() as int, a.len() as int));
            assert(short_name(y) =~= b.subrange(g.len() as int, b.len() as int));
            short_name_injective(x, y);
        }
    } else if f.len() == 2 && g.len() == 2 {
        assert(a[0] != b[0]);
    } else if f.len() == 2 {
        if a == b {
            assert(f[1] == '/');
            assert(a[1] == f[1]);
            assert(short_name(y) =~= b);
            lemma_short_name_has_no_slash(y, 1);
        }
    } else {
        if a == b {
            assert(g.len() == 2);
            assert(g[1] == '/');
            assert(b[1] == g[1]);
            assert(short_name(x) =~= a);
            lemma_short_name_has_no_slash(x, 1);
        }
    }
}

/// A renamable texture that lies in a folder and that the table did not
/// rename gets `_` and the name of the first such texture with its text.
pub proof fn texture_renamed_by_first(
    texts: Seq<Seq<char>>,
    usages: Seq<int>,
    eligible: Seq<bool>,
    folders: Seq<Option<Seq<char>>>,
    old: Map<Seq<char>, Seq<char>>,
    own: (Seq<char>, Seq<char>),
    j: int,
)
    requires
        0 <= j < texts.len(),
        eligible.len() == texts.len(),
        folders.len() == texts.len(),
        eligible[j],
        folders[j] is Some,
        !old.contains_key(texts[j]),
    ensures
        first_with_text(texts, nameable(eligible, folders), texts[j], texts.len() as int) is Some,
        newly_named(
            texts,
            nameable(eligible, folders),
            old,
            first_with_text(texts, nameable(eligible, folders), texts[j], texts.len() as int)->0,
        ),
        renamed_texture(texts, usages, eligible, folders, old, own, j) == (
            seq!['_'],
            texture_name(
                texts,
                usages,
                nameable(eligible, folders),
                folders,
                old,
                first_with_text(texts, nameable(eligible, folders), texts[j], texts.len() as int)->0,
            ),
        ),
{
    let named = nameable(eligible, folders);
    let t = texts[j];
    let n = texts.len() as int;
    lemma_texture_table_after(texts, usages, named, folders, old, t, j);
    lemma_first_with_text(texts, named, t, j);
    assert(named[j]);
    assert(first_with_text(texts, named, t, j + 1) is Some);
    lemma_first_with_text_stable(texts, named, t, j + 1, n);
    lemma_first_with_text(texts, named, t, n);
    let f = first_with_text(texts, named, t, n)->0;
    lemma_first_with_text(texts, named, t, f);
    match first_with_text(texts, named, t, j) {
        Some(k) => {
            lemma_first_with_text_stable(texts, named, t, j, j + 1);
            lemma_parse_renamed(texture_name(texts, usages, named, folders, old, k));
        },
        None => {},
    }
}

/// Texture renaming is consistent and collision-free: two renamable
/// textures that lie in a folder and that the table did not rename get the
/// same new identifier when their identifiers are the same, and different
/// ones when they differ (folders being `b/`, `i/` or the top folder).
pub proof fn texture_renaming_is_consistent_and_distinct(
    texts: Seq<Seq<char>>,
    usages: Seq<int>,
    eligible: Seq<bool>,
    folders: Seq<Option<Seq<char>>>,
    old: Map<Seq<char>, Seq<char>>,
    own_i: (Seq<char>, Seq<char>),
    own_j: (Seq<char>, Seq<char>),
    i: int,
    j: int,
)
    requires
        0 <= i < texts.len(),
        0 <= j < texts.len(),
        eligible.len() == texts.len(),
        folders.len() == texts.len(),
        forall|q: int| 0 <= q < folders.len() && #[trigger] folders[q] is Some ==> texture_folder_text(folders[q]->0),
        eligible[i],
        eligible[j],
        folders[i] is Some,
        folders[j] is Some,
        !old.contains_key(texts[i]),
        !old.contains_key(texts[j]),
    ensures
        texts[i] == texts[j] ==> renamed_texture(texts, usages, eligible, folders, old, own_i, i) == renamed_texture(
            texts,
            usages,
            eligible,
            folders,
            old,
            own_j,
            j,
        ),
        texts[i] != texts[j] ==> renamed_texture(texts, usages, eligible, folders, old, own_i, i) != renamed_texture(
            texts,
            usages,
            eligible,
            folders,
            old,
            own_j,
            j,
        ),
{
    let named = nameable(eligible, folders);
    let n = texts.len() as int;
    texture_renamed_by_first(texts, usages, eligible, folders, old, own_i, i);
    texture_renamed_by_first(texts, usages, eligible, folders, old, own_j, j);
    if texts[i] != texts[j] {
        let fi = first_with_text(texts, named, texts[i], n)->0;
        let fj = first_with_text(texts, named, texts[j], n)->0;
        lemma_first_with_text(texts, named, texts[i], n);
        lemma_first_with_text(texts, named, texts[j], n);
        assert(fi != fj);
        let ci = count_in_folder(texts, usages, named, folders, old, fi, n);
        let cj = count_in_folder(texts, usages, named, folders, old, fj, n);
        if folders[fi] == folders[fj] {
            lemma_precedes_total(texts, usages, named, fi, fj);
            if precedes(texts, usages, named, fi, fj) {
                lemma_count_in_folder(texts, usages, named, folders, old, fi, fj, n);
            } else {
                lemma_count_in_folder(texts, usages, named, folders, old, fj, fi, n);
            }
        }
        lemma_folder_names_differ(folders[fi]->0, folders[fj]->0, ci, cj);
    }
}

} // verus!

verus! {

/// Every folder that texture renaming picks is `b/`, `i/` or the top folder.
pub proof fn texture_folders_are_folder_texts(textures: Seq<AssetTexture>, atlases: Seq<Atlas>, fonts: Seq<Seq<char>>)
    ensures
        forall|q: int|
            0 <= q < texture_folders(textures, atlases, fonts).len() && #[trigger] texture_folders(
                textures,
                atlases,
                fonts,
            )[q] is Some ==> texture_folder_text(texture_folders(textures, atlases, fonts)[q]->0),
{
}

} // verus!

verus! {

/// Short names never get shorter as the number grows: a file placed earlier
/// in the renaming order never gets a longer name than one placed later.
pub proof fn short_name_length_grows(a: nat, b: nat)
    requires
        a <= b,
    ensures
        short_name(a).len() <= short_name(b).len(),
{
    lemma_digits_length_monotone(a, b, 38);
}

pub proof fn lemma_digits_length_monotone(a: nat, b: nat, base: nat)
    requires
        base > 1,
        a <= b,
    ensures
        digits(a, base).len() <= digits(b, base).len(),
    decreases b,
{
    lemma_digits_bounded(a, base);
    lemma_digits_bounded(b, base);
    if a >= base {
        assert(a / base <= b / base) by (nonlinear_arith)
            requires
                a <= b,
                base > 1,
        ;
        assert(b / base < b) by (nonlinear_arith)
            requires
                base > 1,
                b >= base,
        ;
        lemma_digits_length_monotone(a / base, b / base, base);
    }
}

/// Files that are referenced more get names no longer than files that are
/// referenced less (entries with one text having one usage count).
pub proof fn more_used_gets_shorter_name(
    texts: Seq<Seq<char>>,
    usages: Seq<int>,
    eligible: Seq<bool>,
    old: Map<Seq<char>, Seq<char>>,
    i: int,
    j: int,
)
    requires
        0 <= i < texts.len(),
        0 <= j < texts.len(),
        eligible.len() == texts.len(),
        usages.len() == texts.len(),
        forall|p: int, q: int| 0 <= p < texts.len() && 0 <= q < texts.len() && #[trigger] texts[p] == #[trigger] texts[q] ==> usages[p] == usages[q],
        eligible[i],
        eligible[j],
        !old.contains_key(texts[i]),
        !old.contains_key(texts[j]),
        usages[i] > usages[j],
    ensures
        renamed(texts, usages, eligible, old, i).1.len() <= renamed(texts, usages, eligible, old, j).1.len(),
{
    let n = texts.len() as int;
    renamed_by_first(texts, usages, eligible, old, i);
    renamed_by_first(texts, usages, eligible, old, j);
    let fi = first_with_text(texts, eligible, texts[i], n)->0;
    let fj = first_with_text(texts, eligible, texts[j], n)->0;
    lemma_first_with_text(texts, eligible, texts[i], n);
    lemma_first_with_text(texts, eligible, texts[j], n);
    assert(usages[fi] == usages[i]);
    assert(usages[fj] == usages[j]);
    assert(precedes(texts, usages, eligible, fi, fj));
    lemma_count_monotone(texts, usages, eligible, fi, fj, n);
    lemma_digits_length_monotone(rank(texts, usages, eligible, fi), rank(texts, usages, eligible, fj), 38);
}

/// After renaming, a reference to a renamed file, rewritten through the
/// table, is the text of the file's new identifier: references keep
/// pointing at their file.
pub proof fn references_follow_renamed_files(
    texts: Seq<Seq<char>>,
    usages: Seq<int>,
    eligible: Seq<bool>,
    old: Map<Seq<char>, Seq<char>>,
    j: int,
)
    requires
        0 <= j < texts.len(),
        eligible.len() == texts.len(),
        eligible[j],
        !old.contains_key(texts[j]),
    ensures
        table_after(texts, usages, eligible, old, texts.len() as int).contains_key(texts[j]),
        table_after(texts, usages, eligible, old, texts.len() as int)[texts[j]] == id_text(
            renamed(texts, usages, eligible, old, j).0,
            renamed(texts, usages, eligible, old, j).1,
        ),
{
    let n = texts.len() as int;
    renamed_by_first(texts, usages, eligible, old, j);
    lemma_table_after(texts, usages, eligible, old, texts[j], n);
    let name = short_name(rank(texts, usages, eligible, first_with_text(texts, eligible, texts[j], n)->0));
    assert(seq!['_'] != minecraft_namespace()) by {
        assert(seq!['_'].len() != minecraft_namespace().len());
    }
    assert(renamed_text(name) =~= seq!['_'] + seq![':'] + name);
}

/// The suffix of the metadata file that goes with a texture.
pub open spec fn mcmeta_suffix() -> Seq<char> {
    seq!['.', 'm', 'c', 'm', 'e', 't', 'a']
}

/// The metadata moves that the first `n` texture moves (old key, new key)
/// call for: `<old>.mcmeta` to `<new>.mcmeta` for each texture whose key
/// changes, in order.
pub open spec fn companion_moves(moves: Seq<(Seq<char>, Seq<char>)>, n: int) -> Seq<(Seq<char>, Seq<char>)>
    decreases n,
{
    if n <= 0 {
        Seq::empty()
    } else {
        let before = companion_moves(moves, n - 1);
        let (old, new) = moves[n - 1];
        if old == new {
            before
        } else {
            before.push((old + mcmeta_suffix(), new + mcmeta_suffix()))
        }
    }
}

/// The metadata files to move when textures move from the first key of each
/// pair to the second: a texture's `.mcmeta` file follows it to its new key.
pub fn texture_companion_moves(moves: &Vec<(String, String)>) -> (r: Vec<(String, String)>)
    ensures
        r@.map_values(|e: (String, String)| (e.0@, e.1@)) == companion_moves(
            moves@.map_values(|e: (String, String)| (e.0@, e.1@)),
            moves.len() as int,
        ),
{
    let ghost mv = moves@.map_values(|e: (String, String)| (e.0@, e.1@));
    let suffix = vec!['.', 'm', 'c', 'm', 'e', 't', 'a'];
    assert(suffix@ =~= mcmeta_suffix());
    let mut out: Vec<(String, String)> = Vec::new();
    let mut i: usize = 0;
    while i < moves.len()
        invariant
            i <= moves.len(),
            mv == moves@.map_values(|e: (String, String)| (e.0@, e.1@)),
            suffix@ == mcmeta_suffix(),
            out@.map_values(|e: (String, String)| (e.0@, e.1@)) == companion_moves(mv, i as int),
        decreases moves.len() - i,
    {
        let old = chars_of(moves[i].0.as_str());
        let new = chars_of(moves[i].1.as_str());
        assert(mv[i as int] == (old@, new@));
        if !chars_eq(&old, &new) {
            let ghost before = out@;
            let from = string_of(&concat_chars(&old, &suffix));
            let to = string_of(&concat_chars(&new, &suffix));
            out.push((from, to));
            assert(out@.map_values(|e: (String, String)| (e.0@, e.1@)) =~= before.map_values(
                |e: (String, String)| (e.0@, e.1@),
            ).push((old@ + mcmeta_suffix(), new@ + mcmeta_suffix())));
        }
        i = i + 1;
    }
    out
}

} // verus!
