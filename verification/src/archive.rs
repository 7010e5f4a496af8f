//! The APK as a ZIP archive, read with the `zip` crate from bytes in memory.
use vstd::prelude::*;
use std::io::Cursor;
use std::io::Read;
use zip::ZipArchive;

verus! {

#[verifier::external_type_specification]
#[verifier::external_body]
#[verifier::reject_recursive_types(T)]
pub struct ExCursor<T>(Cursor<T>);

#[verifier::external_type_specification]
#[verifier::external_body]
#[verifier::reject_recursive_types(R)]
pub struct ExZipArchive<R>(ZipArchive<R>);

/// An archive read from memory.
pub type Apk = ZipArchive<Cursor<Vec<u8>>>;

/// One entry of an archive as plain values: its name, whether the crate can open it
/// (`by_index`/`by_name` succeed), and its content when it could also be read to the end.
pub type EntryView = (Seq<char>, bool, Option<Seq<u8>>);

/// The entries that an archive holds, in the order the crate indexes them: central directory
/// order, one entry per name.
pub uninterp spec fn zip_entries(a: Apk) -> Seq<EntryView>;

/// The entries of the archive that `ZipArchive::new` reads from these bytes, or `None`
/// when it refuses them.
pub uninterp spec fn zip_open(bytes: Seq<u8>) -> Option<Seq<EntryView>>;

/// What reading the entry with this name gives.
pub enum EntryRead {
    /// No entry has this name, or the entry cannot be opened.
    Missing,
    /// The entry opens but reading it to the end fails.
    Unreadable,
    /// The whole content of the entry.
    Bytes(Vec<u8>),
}

/// What reading the entry with this name gives, over the entry list.
pub open spec fn read_spec(es: Seq<EntryView>, name: Seq<char>) -> Option<Option<Seq<u8>>> {
    let i = first_named(es, name);
    if i < es.len() && es[i].1 {
        Some(es[i].2)
    } else {
        None
    }
}

/// The position of the first entry with this name, or the number of entries.
pub open spec fn first_named(es: Seq<EntryView>, name: Seq<char>) -> int
    decreases es.len(),
{
    if es.len() == 0 {
        0
    } else if es[0].0 == name {
        0
    } else {
        1 + first_named(es.drop_first(), name)
    }
}

/// Whether a read result matches the entry list.
pub open spec fn read_matches(r: EntryRead, es: Seq<EntryView>, name: Seq<char>) -> bool {
    match r {
        EntryRead::Missing => read_spec(es, name) is None,
        EntryRead::Unreadable => read_spec(es, name) == Some(None::<Seq<u8>>),
        EntryRead::Bytes(b) => read_spec(es, name) == Some(Some(b@)),
    }
}

/// Opens an archive held in memory (`ZipArchive::new` over a `Cursor`).
#[verifier::external_body]
pub(crate) fn open_archive(bytes: Vec<u8>) -> (res: Option<Apk>)
    ensures
        match res {
            Some(a) => zip_open(bytes@) == Some(zip_entries(a)),
            None => zip_open(bytes@) is None,
        },
{
    ZipArchive::new(Cursor::new(bytes)).ok()
}

/// The number of entries (`ZipArchive::len`).
#[verifier::external_body]
pub(crate) fn entry_count(a: &Apk) -> (n: usize)
    ensures
        n == zip_entries(*a).len(),
{
    a.len()
}

/// The name of entry `i` when the entry opens (`ZipArchive::by_index`, then `ZipFile::name`).
#[verifier::external_body]
pub(crate) fn entry_name(a: &mut Apk, i: usize) -> (res: Option<String>)
    requires
        i < zip_entries(*old(a)).len(),
    ensures
        zip_entries(*final(a)) == zip_entries(*old(a)),
        match res {
            Some(s) => zip_entries(*old(a))[i as int].1 && s@ == zip_entries(*old(a))[i as int].0,
            None => !zip_entries(*old(a))[i as int].1,
        },
{
    a.by_index(i).ok().map(|f| f.name().to_string())
}

/// The content of the entry with this name (`ZipArchive::by_name`, then `read_to_end`).
#[verifier::external_body]
pub(crate) fn read_entry(a: &mut Apk, name: &str) -> (r: EntryRead)
    ensures
        zip_entries(*final(a)) == zip_entries(*old(a)),
        read_matches(r, zip_entries(*old(a)), name@),
{
    let Ok(mut f) = a.by_name(name) else { return EntryRead::Missing };
    let mut buf = Vec::new();
    match f.read_to_end(&mut buf) {
        Ok(_) => EntryRead::Bytes(buf),
        Err(_) => EntryRead::Unreadable,
    }
}

/// The names of the entries that open, in archive order.
pub open spec fn opened_names(es: Seq<EntryView>) -> Seq<Seq<char>>
    decreases es.len(),
{
    if es.len() == 0 {
        Seq::empty()
    } else if es.last().1 {
        opened_names(es.drop_last()).push(es.last().0)
    } else {
        opened_names(es.drop_last())
    }
}

/// The names of the entries that open, in archive order.
pub fn list_entries(a: &mut Apk) -> (names: Vec<String>)
    ensures
        zip_entries(*final(a)) == zip_entries(*old(a)),
        names@.map_values(|s: String| s@) == opened_names(zip_entries(*old(a))),
{
    let ghost es = zip_entries(*a);
    let n = entry_count(a);
    let mut names: Vec<String> = Vec::new();
    let mut i: usize = 0;
    while i < n
        invariant
            i <= n,
            n == es.len(),
            zip_entries(*a) == es,
            names@.map_values(|s: String| s@) == opened_names(es.take(i as int)),
        decreases n - i,
    {
        let ghost before = names@;
        assert(es.take(i + 1).drop_last() == es.take(i as int));
        match entry_name(a, i) {
            Some(s) => {
                names.push(s);
                assert(names@.map_values(|s: String| s@) =~= before.map_values(|s: String| s@).push(
                    es[i as int].0,
                ));
            },
            None => {},
        }
        i += 1;
    }
    assert(es.take(n as int) == es);
    names
}

} // verus!
