//! The zip container boundary. The archive is modeled as a map from entry
//! name to entry text; the wrappers here are the only trusted code in the
//! library, and each relies on the zip crate as documented on it.

use vstd::prelude::*;
use std::io::{Cursor, Read, Write};
use crate::error::DocxError;

verus! {

/// What the zip crate recovers from a byte sequence: `Some` exactly when
/// its reader opens the bytes and every entry reads back as text; then the
/// map from entry name to that text. A function of the bytes alone.
pub uninterp spec fn zip_decode(bytes: Seq<u8>) -> Option<Map<Seq<char>, Seq<char>>>;

/// Whether the zip reader opens the byte sequence as an archive at all.
/// Weaker than `zip_decode`: an archive can open and still hold an entry
/// that does not read back as text. A function of the bytes alone.
pub uninterp spec fn zip_opens(bytes: Seq<u8>) -> bool;

/// The entry names an opened archive's index lists, readable or not.
/// A function of the bytes alone.
pub uninterp spec fn zip_names(bytes: Seq<u8>) -> Set<Seq<char>>;

/// The entries written into a builder so far.
pub uninterp spec fn builder_entries(b: ZipBuilder) -> Map<Seq<char>, Seq<char>>;

/// The entries of an opened archive that read back as text.
pub uninterp spec fn source_entries(a: ZipSource) -> Map<Seq<char>, Seq<char>>;

/// The entry names an opened archive's index lists.
pub uninterp spec fn source_names(a: ZipSource) -> Set<Seq<char>>;

/// Whether every entry of the opened archive reads back as text.
pub uninterp spec fn source_complete(a: ZipSource) -> bool;

/// The empty archive contents.
pub open spec fn no_entries() -> Map<Seq<char>, Seq<char>> {
    Map::empty()
}

/// An entry name or text stays inside the zip format's size fields: a name
/// fits the 64 KiB name field and an entry's data stays under the 4 GiB
/// threshold above which the writer demands the large-file option. A char
/// encodes to at most four UTF-8 bytes, so the bounds are over four times
/// the character count.
pub open spec fn name_fits(name: Seq<char>) -> bool {
    4 * name.len() <= 65535
}

pub open spec fn text_fits(text: Seq<char>) -> bool {
    4 * text.len() <= 0xFFFFFFFF
}

/// An in-memory zip archive being written.
#[verifier::external_body]
pub struct ZipBuilder {
    inner: zip::ZipWriter<Cursor<Vec<u8>>>,
}

/// An opened in-memory zip archive.
#[verifier::external_body]
pub struct ZipSource {
    inner: zip::ZipArchive<Cursor<Vec<u8>>>,
}

/// Relies on `zip::ZipWriter::new` on an in-memory cursor: it cannot fail,
/// and a new archive holds no entries.
#[verifier::external_body]
pub(crate) fn zip_builder_new() -> (r: Result<ZipBuilder, DocxError>)
    ensures
        r is Ok,
        r matches Ok(b) ==> builder_entries(b) == no_entries(),
{
    Ok(ZipBuilder { inner: zip::ZipWriter::new(Cursor::new(Vec::new())) })
}

/// Relies on `zip::ZipWriter::start_file` and `Write::write_all`: on
/// success the archive holds one more entry, named `name` and holding
/// exactly `text`. Against an in-memory cursor the only failures are a
/// duplicate name, a name over the 64 KiB name-field limit, and an entry
/// crossing the 4 GiB threshold (which the writer aborts and removes);
/// within those bounds the call succeeds.
#[verifier::external_body]
pub(crate) fn zip_builder_add(b: &mut ZipBuilder, name: &str, text: &str) -> (r: Result<
    (),
    DocxError,
>)
    ensures
        r is Ok ==> builder_entries(*final(b)) == builder_entries(*old(b)).insert(name@, text@),
        r is Err ==> builder_entries(*old(b)).contains_key(name@) || !name_fits(name@)
            || !text_fits(text@),
        r matches Err(e) ==> e == DocxError::Zip,
{
    let opt = zip::write::SimpleFileOptions::default().compression_method(
        zip::CompressionMethod::Deflated,
    ).unix_permissions(0o755);
    if b.inner.start_file(name, opt).is_err() {
        return Err(DocxError::Zip);
    }
    if b.inner.write_all(text.as_bytes()).is_err() {
        return Err(DocxError::Zip);
    }
    Ok(())
}

/// Relies on `zip::ZipWriter::finish` and `Cursor::into_inner`: against an
/// in-memory cursor finishing cannot fail (a failed entry was already
/// aborted and removed), and the finished bytes form an archive from which
/// the zip reader recovers exactly the entries written, each reading back
/// as the text written.
#[verifier::external_body]
pub(crate) fn zip_builder_finish(b: ZipBuilder) -> (r: Result<Vec<u8>, DocxError>)
    ensures
        r is Ok,
        r matches Ok(bytes) ==> zip_decode(bytes@) == Some(builder_entries(b)),
{
    match b.inner.finish() {
        Ok(c) => Ok(c.into_inner()),
        Err(_) => Err(DocxError::Zip),
    }
}

/// Relies on `zip::ZipArchive::new`: it succeeds exactly when the bytes
/// open as a zip archive, indexing exactly the entries the central
/// directory lists; fully readable bytes open with exactly their entries.
#[verifier::external_body]
pub(crate) fn zip_source_open(bytes: Vec<u8>) -> (r: Result<ZipSource, DocxError>)
    ensures
        r is Ok <==> zip_opens(bytes@),
        r matches Ok(a) ==> source_names(a) == zip_names(bytes@),
        r matches Ok(a) ==> forall|k: Seq<char>|
            source_entries(a).contains_key(k) ==> source_names(a).contains(k),
        r matches Ok(a) ==> (zip_decode(bytes@) matches Some(m) ==> source_entries(a) == m
            && source_complete(a)),
        r matches Err(e) ==> e == DocxError::Zip && zip_decode(bytes@) is None,
{
    match zip::ZipArchive::new(Cursor::new(bytes)) {
        Ok(z) => Ok(ZipSource { inner: z }),
        Err(_) => Err(DocxError::Zip),
    }
}

/// The outcome of reading one entry by name: its text, a recoverable
/// not-found, or a fatal read failure.
pub enum ReadOutcome {
    Found(String),
    Absent,
    Unreadable,
}

/// Relies on `zip::ZipArchive::by_name` and `Read::read_to_string`: an
/// entry is found by its exact name and reads back as its text;
/// `ZipError::FileNotFound` comes exactly when the index lists no entry of
/// that name; in a fully readable archive nothing else can go wrong.
#[verifier::external_body]
pub(crate) fn zip_source_read(a: &mut ZipSource, name: &str) -> (r: ReadOutcome)
    ensures
        source_entries(*final(a)) == source_entries(*old(a)),
        source_names(*final(a)) == source_names(*old(a)),
        source_complete(*final(a)) == source_complete(*old(a)),
        r matches ReadOutcome::Found(s) ==> source_entries(*old(a)).contains_key(name@) && s@
            == source_entries(*old(a))[name@],
        r is Absent <==> !source_names(*old(a)).contains(name@),
        r is Unreadable ==> !source_entries(*old(a)).contains_key(name@) && !source_complete(
            *old(a),
        ),
{
    match a.inner.by_name(name) {
        Err(zip::result::ZipError::FileNotFound) => ReadOutcome::Absent,
        Err(_) => ReadOutcome::Unreadable,
        Ok(mut f) => {
            let mut buf = String::new();
            match f.read_to_string(&mut buf) {
                Ok(_) => ReadOutcome::Found(buf),
                Err(_) => ReadOutcome::Unreadable,
            }
        },
    }
}

} // verus!
