//! The ZIP container layer: the template bytes are decompressed into the
//! part bundle and the rendered parts are repacked, through trusted
//! declarations of the zip crate's reader and writer.

use vstd::prelude::*;
use std::io::Read;

verus! {

use crate::scan::{append_bytes, ends_with, lit, lit_bytes, bytes_eq};
use crate::bundle::{PartBundle, spec_set_part};
use crate::errors::XlsxError;

#[verifier::external_type_specification]
#[verifier::external_body]
#[verifier::reject_recursive_types(T)]
pub struct ExCursor<T>(std::io::Cursor<T>);

#[verifier::external_type_specification]
#[verifier::external_body]
#[verifier::reject_recursive_types(R)]
pub struct ExZipArchive<R>(zip::ZipArchive<R>);

/// An in-memory ZIP writer. Verus refuses the declaration of the zip
/// crate's writer type (its trait bounds are outside traits), so the
/// writer is held opaquely here and spoken of through `zip_written`.
#[verifier::external_body]
pub struct ZipSink {
    inner: zip::ZipWriter<std::io::Cursor<Vec<u8>>>,
}

/// The entries a ZIP archive's bytes encode: entry names and decompressed
/// contents, in central-directory order.
pub uninterp spec fn zip_entries_of(bytes: Seq<u8>) -> Seq<(Seq<u8>, Seq<u8>)>;

/// Whether the reader accepts these bytes as an archive and every entry
/// of it decompresses; like the entry list, this is a function of the
/// bytes alone.
pub uninterp spec fn zip_readable(bytes: Seq<u8>) -> bool;

/// The entries an opened archive holds.
pub uninterp spec fn zip_contents(a: zip::ZipArchive<std::io::Cursor<Vec<u8>>>) -> Seq<
    (Seq<u8>, Seq<u8>),
>;

/// Whether every entry of an opened archive reads back.
pub uninterp spec fn zip_archive_readable(a: zip::ZipArchive<std::io::Cursor<Vec<u8>>>) -> bool;

/// The entries written to an in-memory ZIP writer so far.
pub uninterp spec fn zip_written(w: ZipSink) -> Seq<(Seq<u8>, Seq<u8>)>;

/// Relies on zip::ZipArchive::new: reading an archive from in-memory bytes
/// yields the entries those bytes encode; parsing the central directory
/// depends on the bytes alone, so readable bytes always open.
#[verifier::external_body]
fn zip_open(bytes: Vec<u8>) -> (r: Result<zip::ZipArchive<std::io::Cursor<Vec<u8>>>, String>)
    ensures
        r matches Ok(a) ==> zip_contents(a) == zip_entries_of(bytes@) && (zip_readable(bytes@)
            ==> zip_archive_readable(a)),
        zip_readable(bytes@) ==> r is Ok,
{
    match zip::ZipArchive::new(std::io::Cursor::new(bytes)) {
        Ok(a) => Ok(a),
        Err(e) => Err(format!("{e}")),
    }
}

/// Relies on zip::ZipArchive::len: the number of entries.
#[verifier::external_body]
fn zip_len(a: &zip::ZipArchive<std::io::Cursor<Vec<u8>>>) -> (r: usize)
    ensures
        r == zip_contents(*a).len(),
{
    a.len()
}

/// Relies on zip::ZipArchive::by_index, converting the borrowed entry to
/// plain values with ZipFile::name and Read::read_to_end: the i-th
/// entry's name and decompressed bytes. Reading seeks within the archive
/// but leaves its entries as they were.
#[verifier::external_body]
fn zip_entry(a: &mut zip::ZipArchive<std::io::Cursor<Vec<u8>>>, i: usize) -> (r: Result<
    (Vec<u8>, Vec<u8>),
    String,
>)
    requires
        i < zip_contents(*old(a)).len(),
    ensures
        zip_contents(*final(a)) == zip_contents(*old(a)),
        zip_archive_readable(*final(a)) == zip_archive_readable(*old(a)),
        r matches Ok(p) ==> p.0@ == zip_contents(*old(a))[i as int].0 && p.1@ == zip_contents(
            *old(a),
        )[i as int].1,
        zip_archive_readable(*old(a)) ==> r is Ok,
{
    let mut f = match a.by_index(i) {
        Ok(f) => f,
        Err(e) => {
            return Err(format!("{e}"));
        },
    };
    let name = f.name().as_bytes().to_vec();
    let mut data = Vec::new();
    if let Err(e) = f.read_to_end(&mut data) {
        return Err(format!("{e}"));
    }
    Ok((name, data))
}

/// Relies on zip::ZipWriter::new over an in-memory cursor: a writer with
/// nothing written yet.
#[verifier::external_body]
fn zip_writer_new() -> (r: ZipSink)
    ensures
        zip_written(r) == Seq::<(Seq<u8>, Seq<u8>)>::empty(),
{
    ZipSink { inner: zip::ZipWriter::new(std::io::Cursor::new(Vec::new())) }
}

/// Relies on zip::ZipWriter::start_file and Write::write_all: appends one
/// entry under the given name, deflate-compressed at level 6. With a
/// valid-UTF-8 name that fits a ZIP name field and an entry that needs no
/// large-file record, the writer refuses exactly the duplicate names;
/// everything else it writes to the in-memory cursor without failing.
#[verifier::external_body]
fn zip_add_entry(w: &mut ZipSink, name: &[u8], data: &[u8]) -> (r: Result<(), String>)
    requires
        vstd::utf8::valid_utf8(name@),
        name@.len() <= 65535,
        data@.len() <= 0xffff_ffff,
    ensures
        r is Ok <==> !(exists|i: int|
            0 <= i < zip_written(*old(w)).len() && (#[trigger] zip_written(*old(w))[i]).0
                == name@),
        r is Ok ==> zip_written(*final(w)) == zip_written(*old(w)).push((name@, data@)),
{
    let options = zip::write::SimpleFileOptions::default().compression_method(
        zip::CompressionMethod::Deflated,
    ).compression_level(Some(6));
    let name = String::from_utf8_lossy(name).into_owned();
    if let Err(e) = w.inner.start_file(name, options) {
        return Err(format!("{e}"));
    }
    if let Err(e) = std::io::Write::write_all(&mut w.inner, data) {
        return Err(format!("{e}"));
    }
    Ok(())
}

/// Relies on zip::ZipWriter::finish: closes the archive; the resulting
/// bytes encode exactly the entries written, and on an in-memory cursor,
/// with every entry within the plain ZIP size limits, finishing cannot
/// fail.
#[verifier::external_body]
fn zip_finish(w: ZipSink) -> (r: Result<Vec<u8>, String>)
    ensures
        r is Ok,
        r matches Ok(bytes) ==> zip_entries_of(bytes@) == zip_written(w),
{
    match w.inner.finish() {
        Ok(c) => Ok(c.into_inner()),
        Err(e) => Err(format!("{e}")),
    }
}

proof fn lemma_slash_byte()
    ensures
        lit("/").len() == 1,
        lit("/")[0] == 47,
{
    reveal_strlit("/");
    assert(vstd::utf8::is_ascii_chars("/"@));
    vstd::utf8::is_ascii_chars_encode_utf8("/"@);
}

/// Relies on std str::from_utf8: it accepts exactly the valid UTF-8 byte
/// sequences.
#[verifier::external_body]
fn is_valid_utf8(v: &[u8]) -> (r: bool)
    ensures
        r == vstd::utf8::valid_utf8(v@),
{
    std::str::from_utf8(v).is_ok()
}

/// The accepted leading ZIP signatures, read little-endian.
pub open spec fn spec_valid_xlsx(data: Seq<u8>) -> bool {
    &&& data.len() >= 22
    &&& {
        let sig = data[0] + data[1] * 0x100 + data[2] * 0x10000 + data[3] * 0x1000000;
        sig == 0x04034b50 || sig == 0x06054b50 || sig == 0x08074b50
    }
}

/// Checks that the bytes look like a ZIP container: long enough for an
/// end-of-central-directory record, and starting with an accepted ZIP
/// signature.
pub fn validate_xlsx_format(file_data: &[u8]) -> (r: Result<(), XlsxError>)
    ensures
        r is Ok <==> spec_valid_xlsx(file_data@),
        r matches Err(e) ==> e is InvalidZipFormat,
{
    if file_data.len() < 22 {
        return Err(XlsxError::InvalidZipFormat);
    }
    let sig: u32 = (file_data[0] as u32) + (file_data[1] as u32) * 0x100 + (file_data[2] as u32)
        * 0x10000 + (file_data[3] as u32) * 0x1000000;
    if sig == 0x04034b50 || sig == 0x06054b50 || sig == 0x08074b50 {
        Ok(())
    } else {
        Err(XlsxError::InvalidZipFormat)
    }
}

/// The bundle built from the archive entries from index `k` on: directory
/// entries and the calculation chain are dropped, everything else stored.
pub open spec fn spec_fold_entries(
    bundle: Seq<(Seq<u8>, Seq<u8>)>,
    entries: Seq<(Seq<u8>, Seq<u8>)>,
    k: int,
) -> Seq<(Seq<u8>, Seq<u8>)>
    decreases entries.len() - k,
{
    if k < 0 || k >= entries.len() {
        bundle
    } else {
        let name = entries[k].0;
        let skip = (name.len() > 0 && name.last() == 47) || name == lit("xl/calcChain.xml");
        if skip {
            spec_fold_entries(bundle, entries, k + 1)
        } else {
            spec_fold_entries(spec_set_part(bundle, name, entries[k].1), entries, k + 1)
        }
    }
}

/// Unpacks a template archive into the part bundle: every file entry is
/// stored under its path; directory entries and `xl/calcChain.xml` are
/// dropped. Succeeds on every signed archive the reader accepts; fails
/// with `InvalidZipFormat` exactly on bytes without an accepted ZIP
/// signature, and with a rendering error when the reader refuses the
/// archive or an entry.
pub fn unpack_xlsx(zip_bytes: Vec<u8>) -> (r: Result<PartBundle, XlsxError>)
    ensures
        r matches Ok(parts) ==> spec_valid_xlsx(zip_bytes@) && parts@ == spec_fold_entries(
            Seq::empty(),
            zip_entries_of(zip_bytes@),
            0,
        ),
        spec_valid_xlsx(zip_bytes@) && zip_readable(zip_bytes@) ==> r is Ok,
        r matches Err(e) ==> if spec_valid_xlsx(zip_bytes@) {
            e is TemplateRenderError
        } else {
            e is InvalidZipFormat
        },
{
    match validate_xlsx_format(zip_bytes.as_slice()) {
        Ok(()) => {},
        Err(e) => {
            return Err(e);
        },
    }
    let ghost bytes0 = zip_bytes@;
    let mut archive = match zip_open(zip_bytes) {
        Ok(a) => a,
        Err(m) => {
            return Err(XlsxError::TemplateRenderError(m));
        },
    };
    let n = zip_len(&archive);
    let mut parts = PartBundle::new();
    let slash = lit_bytes("/");
    let calc = lit_bytes("xl/calcChain.xml");
    proof {
        reveal_strlit("/");
        crate::merges::lemma_ascii_lit_len("/", 1);
    }
    proof {
        lemma_slash_byte();
    }
    let mut i: usize = 0;
    while i < n
        invariant
            slash@ == lit("/"),
            lit("/").len() == 1 && lit("/")[0] == 47,
            bytes0 == zip_bytes@,
            spec_valid_xlsx(bytes0),
            zip_readable(bytes0) ==> zip_archive_readable(archive),
            calc@ == lit("xl/calcChain.xml"),
            n == zip_contents(archive).len(),
            zip_contents(archive) == zip_entries_of(bytes0),
            0 <= i <= n,
            spec_fold_entries(Seq::empty(), zip_entries_of(bytes0), 0) == spec_fold_entries(
                parts@,
                zip_entries_of(bytes0),
                i as int,
            ),
        decreases n - i,
    {
        let ghost pre = parts@;
        let (name, data) = match zip_entry(&mut archive, i) {
            Ok(p) => p,
            Err(m) => {
                return Err(XlsxError::TemplateRenderError(m));
            },
        };
        let is_dir = ends_with(name.as_slice(), slash.as_slice());
        let is_calc = bytes_eq(name.as_slice(), calc.as_slice());
        proof {
            if name@.len() > 0 {
                assert(name@.subrange(name@.len() - 1, name@.len() as int) =~= seq![
                    name@[name@.len() - 1],
                ]);
                if name@.last() == 47 {
                    assert(name@.subrange(name@.len() - 1, name@.len() as int) =~= lit("/"));
                }
            }
            assert(is_dir == (name@.len() > 0 && name@.last() == 47));
        }
        if !is_dir && !is_calc {
            parts.set(name, data);
        }
        proof {
            assert(spec_fold_entries(pre, zip_entries_of(bytes0), i as int)
                == spec_fold_entries(parts@, zip_entries_of(bytes0), i as int + 1));
        }
        i = i + 1;
    }
    Ok(parts)
}

/// Repacks the bundle into a ZIP archive, every entry deflate-compressed.
/// The resulting bytes encode exactly the bundle's parts, in order.
/// Every part of the bundle can be written as a plain ZIP entry: its path
/// is valid UTF-8 and fits a ZIP name field, its bytes fit an entry
/// without a large-file record, and no path repeats.
pub open spec fn spec_pack_ready(v: Seq<(Seq<u8>, Seq<u8>)>) -> bool {
    &&& forall|i: int|
        0 <= i < v.len() ==> vstd::utf8::valid_utf8((#[trigger] v[i]).0) && v[i].0.len()
            <= 65535 && v[i].1.len() <= 0xffff_ffff
    &&& forall|i: int, j: int| 0 <= i < j < v.len() ==> (#[trigger] v[i]).0 != (#[trigger] v[j]).0
}

/// Repacks the bundle into a ZIP archive, every entry deflate-compressed.
/// The resulting bytes encode exactly the bundle's parts, in order; a
/// bundle of distinct, writable part paths always packs.
pub fn pack_xlsx(parts: &PartBundle) -> (r: Result<Vec<u8>, XlsxError>)
    ensures
        r matches Ok(bytes) ==> zip_entries_of(bytes@) == parts@,
        spec_pack_ready(parts@) ==> r is Ok,
        r matches Err(e) ==> e is TemplateRenderError,
{
    let mut w = zip_writer_new();
    let n = parts.len();
    let mut i: usize = 0;
    while i < n
        invariant
            n == parts@.len(),
            0 <= i <= n,
            zip_written(w) == parts@.subrange(0, i as int),
        decreases n - i,
    {
        let ghost pre = zip_written(w);
        let name = parts.parts[i].name.as_slice();
        let data = parts.parts[i].data.as_slice();
        if name.len() > 65535 || !is_valid_utf8(name) {
            proof {
                assert(!spec_pack_ready(parts@)) by {
                    assert(parts@[i as int].0 == name@);
                }
            }
            return Err(
                XlsxError::TemplateRenderError(
                    String::from_str("part path is not a writable ZIP entry name"),
                ),
            );
        }
        if data.len() > 0xffff_ffff {
            proof {
                assert(!spec_pack_ready(parts@)) by {
                    assert(parts@[i as int].1 == data@);
                }
            }
            return Err(
                XlsxError::TemplateRenderError(String::from_str("part is too large for a ZIP entry")),
            );
        }
        match zip_add_entry(&mut w, name, data) {
            Ok(()) => {},
            Err(m) => {
                proof {
                    let u = choose|u: int|
                        0 <= u < pre.len() && (#[trigger] pre[u]).0 == name@;
                    assert(parts@[u].0 == parts@[i as int].0);
                    assert(!spec_pack_ready(parts@));
                }
                return Err(XlsxError::TemplateRenderError(m));
            },
        }
        proof {
            assert(zip_written(w) =~= parts@.subrange(0, i as int + 1));
        }
        i = i + 1;
    }
    proof {
        assert(parts@.subrange(0, n as int) =~= parts@);
    }
    match zip_finish(w) {
        Ok(bytes) => Ok(bytes),
        Err(m) => Err(XlsxError::TemplateRenderError(m)),
    }
}

} // verus!
