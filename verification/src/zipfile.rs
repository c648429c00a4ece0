//! Zip archives held in memory: reading every entry of one, and writing one
//! entry by entry, through the `zip` crate.
use vstd::prelude::*;

verus! {

/// One entry of an archive as read: its name, whether it is a directory, and
/// its bytes (or why they could not be read).
pub struct ZipEntry {
    pub name: String,
    pub is_dir: bool,
    pub data: Result<Vec<u8>, String>,
}

/// An entry as plain values.
pub type EntryView = (Seq<char>, bool, Result<Seq<u8>, Seq<char>>);

/// An entry's plain values.
pub open spec fn entry_view(e: ZipEntry) -> EntryView {
    (e.name@, e.is_dir, match e.data {
        Ok(d) => Ok(d@),
        Err(m) => Err(m@),
    })
}

/// Entries as plain values.
pub open spec fn entries_view(v: Seq<ZipEntry>) -> Seq<EntryView> {
    v.map_values(|e: ZipEntry| entry_view(e))
}

/// What the `zip` crate reads out of an archive's bytes: every entry in
/// archive order, or why the archive (or one of its entries) cannot be opened.
pub uninterp spec fn zip_listing(bytes: Seq<u8>) -> Result<Seq<EntryView>, Seq<char>>;

/// Read an archive with `zip::ZipArchive`: for each index, `by_index`, the
/// entry's `name`, `is_dir`, and what `read_to_end` gives (nothing for a
/// directory). The contract claims only that the result is the crate's
/// answer for these bytes (`zip_listing`); an error opening the archive or an
/// entry comes back as its message.
#[verifier::external_body]
pub(crate) fn read_zip(bytes: &[u8]) -> (r: Result<Vec<ZipEntry>, String>)
    ensures
        match r {
            Ok(v) => zip_listing(bytes@) == Ok::<Seq<EntryView>, Seq<char>>(entries_view(v@)),
            Err(m) => zip_listing(bytes@) == Err::<Seq<EntryView>, Seq<char>>(m@),
        },
{
    let mut z = zip::ZipArchive::new(std::io::Cursor::new(bytes)).map_err(|e| e.to_string())?;
    let mut v = Vec::new();
    for i in 0..z.len() {
        let mut f = z.by_index(i).map_err(|e| e.to_string())?;
        let name = f.name().map_err(|e| e.to_string())?.into_owned();
        let mut d = Vec::new();
        let data = std::io::Read::read_to_end(&mut f, &mut d).map(|_| d).map_err(|e| e.to_string());
        v.push(ZipEntry { name, is_dir: f.is_dir(), data });
    }
    Ok(v)
}

/// How an entry is written: a file stored as it is, a file compressed with
/// deflate at level 9, or a directory.
#[derive(PartialEq, Eq, Structural, Clone, Copy, Debug)]
pub enum Put {
    Stored,
    Deflated,
    Dir,
}

/// An archive being written in memory by a `zip::ZipWriter`.
#[verifier::external_body]
pub struct ZipBuilder {
    w: zip::ZipWriter<std::io::Cursor<Vec<u8>>>,
}

/// The entries a builder has been given so far: how, under which name, and
/// with which bytes.
pub uninterp spec fn zip_staged(b: ZipBuilder) -> Seq<(Put, Seq<char>, Seq<u8>)>;

/// What the `zip` crate gives when these entries are written in order into a
/// new in-memory `ZipWriter` and it is finished: the first error one of those
/// calls returns, or else the archive's bytes. With the crate's features as
/// built here every entry carries the fixed default timestamp, so this is a
/// function of the entries.
pub uninterp spec fn zip_bytes(staged: Seq<(Put, Seq<char>, Seq<u8>)>) -> Result<Seq<u8>, Seq<char>>;

/// A put of `e` failed with `m` after `staged`: whatever follows, writing
/// `staged`, then `e`, then more, fails with `m`.
pub open spec fn put_refused(staged: Seq<(Put, Seq<char>, Seq<u8>)>, e: (Put, Seq<char>, Seq<u8>), m: Seq<char>) -> bool {
    forall|t: Seq<(Put, Seq<char>, Seq<u8>)>| #[trigger] zip_bytes(staged.push(e) + t) == Err::<Seq<u8>, Seq<char>>(m)
}

/// `zip::ZipWriter::new` over an empty in-memory buffer: nothing staged yet.
#[verifier::external_body]
pub(crate) fn zip_builder() -> (b: ZipBuilder)
    ensures
        zip_staged(b) == Seq::<(Put, Seq<char>, Seq<u8>)>::empty(),
{
    ZipBuilder { w: zip::ZipWriter::new(std::io::Cursor::new(Vec::new())) }
}

/// `start_file` with stored (uncompressed) options, then `write_all` of the
/// bytes. When it succeeds, the entry is staged after the earlier ones; when
/// it fails, its error is the archive's.
#[verifier::external_body]
pub(crate) fn zip_put_stored(b: &mut ZipBuilder, name: &str, data: &[u8]) -> (r: Result<(), String>)
    ensures
        match r {
            Ok(_) => zip_staged(*final(b)) == zip_staged(*old(b)).push((Put::Stored, name@, data@)),
            Err(m) => put_refused(zip_staged(*old(b)), (Put::Stored, name@, data@), m@),
        },
{
    let o = zip::write::SimpleFileOptions::default().compression_method(zip::CompressionMethod::Stored);
    b.w.start_file(name, o).map_err(|e| e.to_string())?;
    std::io::Write::write_all(&mut b.w, data).map_err(|e| e.to_string())
}

/// `start_file` with deflate at level 9, then `write_all` of the bytes. When
/// it succeeds, the entry is staged after the earlier ones; when it fails, its
/// error is the archive's.
#[verifier::external_body]
pub(crate) fn zip_put_deflated(b: &mut ZipBuilder, name: &str, data: &[u8]) -> (r: Result<(), String>)
    ensures
        match r {
            Ok(_) => zip_staged(*final(b)) == zip_staged(*old(b)).push((Put::Deflated, name@, data@)),
            Err(m) => put_refused(zip_staged(*old(b)), (Put::Deflated, name@, data@), m@),
        },
{
    let o = zip::write::SimpleFileOptions::default()
        .compression_method(zip::CompressionMethod::Deflated)
        .compression_level(Some(9));
    b.w.start_file(name, o).map_err(|e| e.to_string())?;
    std::io::Write::write_all(&mut b.w, data).map_err(|e| e.to_string())
}

/// `add_directory` with the deflate options (the crate stores directories
/// uncompressed whatever the options say). When it succeeds, the directory is
/// staged after the earlier entries; when it fails, its error is the
/// archive's.
#[verifier::external_body]
pub(crate) fn zip_put_dir(b: &mut ZipBuilder, name: &str) -> (r: Result<(), String>)
    ensures
        match r {
            Ok(_) => zip_staged(*final(b)) == zip_staged(*old(b)).push((Put::Dir, name@, Seq::<u8>::empty())),
            Err(m) => put_refused(zip_staged(*old(b)), (Put::Dir, name@, Seq::<u8>::empty()), m@),
        },
{
    let o = zip::write::SimpleFileOptions::default()
        .compression_method(zip::CompressionMethod::Deflated)
        .compression_level(Some(9));
    b.w.add_directory(name, o).map_err(|e| e.to_string())
}

/// `finish`: the archive's bytes for what was staged (`zip_bytes`).
#[verifier::external_body]
pub(crate) fn zip_finish(b: ZipBuilder) -> (r: Result<Vec<u8>, String>)
    ensures
        match r {
            Ok(v) => zip_bytes(zip_staged(b)) == Ok::<Seq<u8>, Seq<char>>(v@),
            Err(m) => zip_bytes(zip_staged(b)) == Err::<Seq<u8>, Seq<char>>(m@),
        },
{
    b.w.finish().map(|c| c.into_inner()).map_err(|e| e.to_string())
}

} // verus!
