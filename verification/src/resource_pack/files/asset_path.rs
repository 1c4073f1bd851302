//! Where each kind of asset is stored in a resource pack.
use crate::resource_pack::identifier::Identifier;
use crate::text::{chars_of, concat_chars, string_of};
use crate::{assets_prefix, parsed_path, type_of_path};
use vstd::prelude::*;

verus! {

/// `overlay/` for an overlay, nothing outside overlays.
pub open spec fn overlay_prefix(overlay: Seq<char>) -> Seq<char> {
    if overlay.len() == 0 {
        Seq::empty()
    } else {
        overlay + seq!['/']
    }
}

/// `[overlay/]assets/<namespace>/<kind>/<path>.<ext>`
pub open spec fn asset_path_text(
    overlay: Seq<char>,
    namespace: Seq<char>,
    kind: Seq<char>,
    path: Seq<char>,
    ext: Seq<char>,
) -> Seq<char> {
    overlay_prefix(overlay) + assets_prefix() + namespace + seq!['/'] + kind + seq!['/'] + path + seq![
        '.',
    ] + ext
}

/// The path of the asset `identifier` of kind `kind` (the type directory,
/// such as `textures`) with extension `ext`, inside `overlay` (empty outside
/// overlays).
pub fn asset_file_path(overlay: &str, identifier: &Identifier, kind: &str, ext: &str) -> (r: String)
    ensures
        r@ == asset_path_text(overlay@, identifier.namespace@, kind@, identifier.path@, ext@),
{
    let o = chars_of(overlay);
    let prefix = if o.len() == 0 {
        Vec::new()
    } else {
        concat_chars(&o, &vec!['/'])
    };
    let assets = vec!['a', 's', 's', 'e', 't', 's', '/'];
    assert(assets@ =~= assets_prefix());
    let mut out = concat_chars(&prefix, &assets);
    out = concat_chars(&out, &chars_of(identifier.namespace.as_str()));
    out = concat_chars(&out, &vec!['/']);
    out = concat_chars(&out, &chars_of(kind));
    out = concat_chars(&out, &vec!['/']);
    out = concat_chars(&out, &chars_of(identifier.path.as_str()));
    out = concat_chars(&out, &vec!['.']);
    out = concat_chars(&out, &chars_of(ext));
    string_of(&out)
}

/// The overlay, namespace and type directory of a stored asset can be read
/// back from its path.
pub open spec fn readable_location(overlay: Seq<char>, namespace: Seq<char>, kind: Seq<char>) -> bool {
    &&& !overlay.contains('/')
    &&& overlay != seq!['a', 's', 's', 'e', 't', 's']
    &&& !namespace.contains('/')
    &&& !kind.contains('/')
}

/// Parsing the path an asset is stored under gives back its overlay and its
/// identifier.
pub proof fn asset_path_round_trip(
    overlay: Seq<char>,
    namespace: Seq<char>,
    kind: Seq<char>,
    path: Seq<char>,
    ext: Seq<char>,
)
    requires
        readable_location(overlay, namespace, kind),
        !ext.contains('.'),
    ensures
        parsed_path(asset_path_text(overlay, namespace, kind, path, ext)) == (overlay, (namespace, path)),
{
    let assets = seq!['a', 's', 's', 'e', 't', 's'];
    let tail = namespace + seq!['/'] + kind + seq!['/'] + path + seq!['.'] + ext;
    let rem = assets_prefix() + tail;
    let full = asset_path_text(overlay, namespace, kind, path, ext);
    assert(!assets.contains('/')) by {
        if assets.contains('/') {
            let j = choose|j: int| 0 <= j < assets.len() && assets[j] == '/';
            assert(assets[j] != '/');
        }
    }
    assert(rem =~= assets + seq!['/'] + tail);
    if overlay.len() == 0 {
        assert(full =~= rem);
        assert(full.subrange(0, 7) =~= assets_prefix());
    } else {
        assert(full =~= overlay + seq!['/'] + rem);
        if crate::text::starts_with(full, assets_prefix()) {
            if overlay.len() < 6 {
                assert(full[overlay.len() as int] == '/');
                assert(assets_prefix()[overlay.len() as int] != '/');
                assert(full.subrange(0, 7)[overlay.len() as int] == full[overlay.len() as int]);
            } else if overlay.len() == 6 {
                assert(overlay =~= full.subrange(0, 6));
                assert(full.subrange(0, 6) =~= full.subrange(0, 7).subrange(0, 6));
                assert(overlay =~= assets);
            } else {
                assert(full[6] == overlay[6]);
                assert(full.subrange(0, 7)[6] == full[6]);
            }
        }
        crate::text::lemma_split_once_concat(overlay, '/', rem);
    }
    crate::text::lemma_split_once_concat(assets, '/', tail);
    let t2 = kind + seq!['/'] + path + seq!['.'] + ext;
    assert(tail =~= namespace + seq!['/'] + t2);
    crate::text::lemma_split_once_concat(namespace, '/', t2);
    let t3 = path + seq!['.'] + ext;
    assert(t2 =~= kind + seq!['/'] + t3);
    crate::text::lemma_split_once_concat(kind, '/', t3);
    crate::text::lemma_rsplit_once_concat(path, '.', ext);
}

/// The type directory of a stored asset is read back from its path.
pub proof fn asset_path_type(
    overlay: Seq<char>,
    namespace: Seq<char>,
    kind: Seq<char>,
    path: Seq<char>,
    ext: Seq<char>,
)
    requires
        readable_location(overlay, namespace, kind),
    ensures
        type_of_path(asset_path_text(overlay, namespace, kind, path, ext)) == Some(kind),
{
    let assets = seq!['a', 's', 's', 'e', 't', 's'];
    let t3 = path + seq!['.'] + ext;
    let t2 = kind + seq!['/'] + t3;
    let tail = namespace + seq!['/'] + t2;
    let rem = assets + seq!['/'] + tail;
    let full = asset_path_text(overlay, namespace, kind, path, ext);
    assert(!assets.contains('/')) by {
        if assets.contains('/') {
            let j = choose|j: int| 0 <= j < assets.len() && assets[j] == '/';
            assert(assets[j] != '/');
        }
    }
    assert(assets_prefix() =~= assets + seq!['/']);
    crate::text::lemma_split_once_concat(assets, '/', tail);
    crate::text::lemma_split_once_concat(namespace, '/', t2);
    crate::text::lemma_split_once_concat(kind, '/', t3);
    assert(crate::text::nth_part(t2, '/', 0) == Some(kind));
    assert(crate::text::nth_part(tail, '/', 1) == Some(kind));
    assert(crate::text::nth_part(rem, '/', 2) == Some(kind));
    if overlay.len() == 0 {
        assert(full =~= rem);
        assert(full.subrange(0, 7) =~= assets_prefix());
    } else {
        assert(full =~= overlay + seq!['/'] + rem);
        crate::text::lemma_split_once_concat(overlay, '/', rem);
        assert(crate::text::nth_part(rem, '/', 0) == Some(assets));
        assert(crate::text::nth_part(full, '/', 1) == Some(assets));
        assert(crate::text::nth_part(full, '/', 3) == Some(kind));
        if crate::text::starts_with(full, assets_prefix()) {
            if overlay.len() < 6 {
                assert(full[overlay.len() as int] == '/');
                assert(assets_prefix()[overlay.len() as int] != '/');
                assert(full.subrange(0, 7)[overlay.len() as int] == full[overlay.len() as int]);
            } else if overlay.len() == 6 {
                assert(overlay =~= full.subrange(0, 6));
                assert(full.subrange(0, 6) =~= full.subrange(0, 7).subrange(0, 6));
                assert(overlay =~= assets);
            } else {
                assert(full[6] == overlay[6]);
                assert(full.subrange(0, 7)[6] == full[6]);
            }
        }
    }
}

} // verus!
