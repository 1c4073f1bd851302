//! Reading the files of a ZIP archive.
use std::io::Cursor;
use vstd::prelude::*;
use zip::ZipArchive;

verus! {

#[verifier::external_type_specification]
#[verifier::external_body]
#[verifier::reject_recursive_types(T)]
pub struct ExCursor<T>(Cursor<T>);

#[verifier::external_type_specification]
#[verifier::external_body]
#[verifier::reject_recursive_types(R)]
pub struct ExZipArchive<R>(ZipArchive<R>);

/// The entries, in archive order, that `zip::ZipArchive::new` finds in
/// `input` (`None` when it cannot read the archive). Each entry is `None`
/// when it cannot be opened; otherwise whether it is a directory, and its
/// name and data (`None` when either cannot be read).
pub uninterp spec fn zip_entries_of(input: Seq<u8>) -> Option<Seq<Option<(bool, Option<(Seq<char>, Seq<u8>)>)>>>;

/// The entries an open archive holds.
pub uninterp spec fn archive_entries(a: ZipArchive<Cursor<Vec<u8>>>) -> Seq<Option<(bool, Option<(Seq<char>, Seq<u8>)>)>>;

/// `zip::ZipArchive::new` over the bytes. Claimed: it succeeds exactly when
/// `zip_entries_of(input)` is some list of entries, which the archive then
/// holds.
#[verifier::external_body]
fn open_zip(input: Vec<u8>) -> (r: Option<ZipArchive<Cursor<Vec<u8>>>>)
    ensures
        r is Some <==> zip_entries_of(input@) is Some,
        r matches Some(a) ==> zip_entries_of(input@) == Some(archive_entries(a)),
{
    match ZipArchive::new(Cursor::new(input)) {
        Ok(a) => Some(a),
        Err(_) => None,
    }
}

/// `zip::ZipArchive::len`: the number of entries.
#[verifier::external_body]
fn zip_len(a: &ZipArchive<Cursor<Vec<u8>>>) -> (r: usize)
    ensures
        r == archive_entries(*a).len(),
{
    a.len()
}

/// `zip::ZipArchive::by_index`, then `is_dir`, `name` and `read_to_end` on
/// the entry. Claimed: the result is entry `i` of the archive, which reading
/// leaves unchanged.
#[verifier::external_body]
fn zip_entry(a: &mut ZipArchive<Cursor<Vec<u8>>>, i: usize) -> (r: Option<(bool, Option<(String, Vec<u8>)>)>)
    requires
        i < archive_entries(*old(a)).len(),
    ensures
        archive_entries(*final(a)) == archive_entries(*old(a)),
        match archive_entries(*old(a))[i as int] {
            None => r is None,
            Some((dir, None)) => r == Some::<(bool, Option<(String, Vec<u8>)>)>((dir, None)),
            Some((dir, Some((name, data)))) => r matches Some((d, Some((n, v)))) && d == dir && n@ == name
                && v@ == data,
        },
{
    let Ok(mut file) = a.by_index(i) else { return None };
    let dir = file.is_dir();
    let Ok(name) = file.name().map(|n| n.to_string()) else { return Some((dir, None)) };
    let mut data = Vec::new();
    match std::io::Read::read_to_end(&mut file, &mut data) {
        Ok(_) => Some((dir, Some((name, data)))),
        Err(_) => Some((dir, None)),
    }
}

/// The files (name and data) among the first `n` entries, directories left
/// out; `None` when one of them cannot be read.
pub open spec fn files_of(entries: Seq<Option<(bool, Option<(Seq<char>, Seq<u8>)>)>>, n: int) -> Option<Seq<(Seq<char>, Seq<u8>)>>
    decreases n,
{
    if n <= 0 {
        Some(Seq::empty())
    } else {
        match files_of(entries, n - 1) {
            None => None,
            Some(before) => match entries[n - 1] {
                None => None,
                Some((true, _)) => Some(before),
                Some((false, None)) => None,
                Some((false, Some(f))) => Some(before.push(f)),
            },
        }
    }
}

/// The files an archive holds, in archive order, directories left out.
pub open spec fn zip_files(input: Seq<u8>) -> Option<Seq<(Seq<char>, Seq<u8>)>> {
    match zip_entries_of(input) {
        None => None,
        Some(entries) => files_of(entries, entries.len() as int),
    }
}

pub open spec fn file_views(v: Seq<(String, Vec<u8>)>) -> Seq<(Seq<char>, Seq<u8>)> {
    v.map_values(|e: (String, Vec<u8>)| (e.0@, e.1@))
}

/// The files (name and data) of a ZIP archive, in archive order, directories
/// left out. Nothing when the archive, or one of its files, cannot be read.
pub fn read_zip_entries(input: Vec<u8>) -> (r: Option<Vec<(String, Vec<u8>)>>)
    ensures
        match zip_files(input@) {
            None => r is None,
            Some(files) => r matches Some(v) && file_views(v@) == files,
        },
{
    let ghost bytes = input@;
    let mut archive = match open_zip(input) {
        Some(a) => a,
        None => return None,
    };
    let ghost entries = archive_entries(archive);
    let n = zip_len(&archive);
    let mut out: Vec<(String, Vec<u8>)> = Vec::new();
    let mut i: usize = 0;
    while i < n
        invariant
            i <= n == entries.len(),
            bytes == input@,
            zip_entries_of(bytes) == Some(entries),
            archive_entries(archive) == entries,
            files_of(entries, i as int) == Some(file_views(out@)),
        decreases n - i,
    {
        let ghost before = out@;
        match zip_entry(&mut archive, i) {
            None => {
                proof { lemma_files_of_fail(entries, i as int + 1, entries.len() as int); }
                return None;
            },
            Some((dir, contents)) => {
                if !dir {
                    match contents {
                        Some(file) => {
                            let ghost fv = (file.0@, file.1@);
                            out.push(file);
                            assert(file_views(out@) =~= file_views(before).push(fv));
                        },
                        None => {
                            proof { lemma_files_of_fail(entries, i as int + 1, entries.len() as int); }
                            return None;
                        },
                    }
                }
            },
        }
        i = i + 1;
    }
    Some(out)
}

proof fn lemma_files_of_fail(entries: Seq<Option<(bool, Option<(Seq<char>, Seq<u8>)>)>>, m: int, n: int)
    requires
        0 <= m <= n,
        files_of(entries, m) is None,
    ensures
        files_of(entries, n) is None,
    decreases n - m,
{
    if n > m {
        lemma_files_of_fail(entries, m, n - 1);
    }
}

} // verus!
