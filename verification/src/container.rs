use vstd::prelude::*;

use crate::XlsxError;
use crate::spreadsheet::Spreadsheet;

verus! {

// ---------------------------------------------------------------------------
// The zip container edge. The archive format itself is an outside concern:
// its entry list and each entry's decoded text are functions of the archive
// bytes alone, so they carry names the verified read path builds on.
// ---------------------------------------------------------------------------

/// The entry names of a readable archive, in central-directory order;
/// absent when the bytes are not a valid archive or an entry's local
/// header cannot be located.
pub uninterp spec fn archive_names(data: Seq<u8>) -> Option<Seq<Seq<char>>>;

/// The decoded text of the named entry (the last one under that name, when
/// several share it), when it exists, is not encrypted and decodes as text.
pub uninterp spec fn archive_part_text(data: Seq<u8>, name: Seq<char>) -> Option<Seq<char>>;

/// Relies on `zip::read::ZipArchive::new` and `by_index_raw`: the entries
/// are listed in central-directory order, a deterministic function of the
/// archive bytes alone, and an invalid archive is rejected. `by_index_raw`
/// returns an error rather than panicking on any entry.
#[verifier::external_body]
fn zip_list(data: &Vec<u8>) -> (r: Result<Vec<String>, XlsxError>)
    ensures
        match r {
            Ok(names) => archive_names(data@) == Some(crate::reader::strs_view(names@)),
            Err(e) => archive_names(data@) is None && e == XlsxError::Zip,
        },
{
    let mut arv = match zip::read::ZipArchive::new(std::io::Cursor::new(data)) {
        Ok(a) => a,
        Err(_) => return Err(XlsxError::Zip),
    };
    let mut names: Vec<String> = Vec::new();
    for i in 0..arv.len() {
        match arv.by_index_raw(i) {
            Ok(f) => names.push(f.name().to_string()),
            Err(_) => return Err(XlsxError::Zip),
        }
    }
    Ok(names)
}

/// Relies on `zip::read::ZipArchive::by_name_decrypt`,
/// `ZipFile::compression` and `Read::read_to_string`: the lookup,
/// decompression and decoding are deterministic in the archive bytes and
/// the name (of entries sharing a name the reader keeps the last). Unlike
/// `by_name`, the decrypt form returns the encrypted-entry case as a
/// value instead of panicking; an entry whose method the reader cannot
/// decode — the AES envelope among them, on which reading would panic —
/// or whose bytes are no text yields nothing.
#[verifier::external_body]
fn zip_text(data: &Vec<u8>, name: &str) -> (r: Option<String>)
    ensures
        match r {
            Some(t) => archive_part_text(data@, name@) == Some(t@),
            None => archive_part_text(data@, name@) is None,
        },
{
    let mut arv = zip::read::ZipArchive::new(std::io::Cursor::new(data)).ok()?;
    let mut file = match arv.by_name_decrypt(name, b"") {
        Ok(Ok(f)) => f,
        _ => return None,
    };
    match file.compression() {
        zip::CompressionMethod::Stored | zip::CompressionMethod::Deflated => {},
        zip::CompressionMethod::Bzip2 | zip::CompressionMethod::Zstd => {},
        _ => return None,
    }
    let mut text = String::new();
    std::io::Read::read_to_string(&mut file, &mut text).ok()?;
    Some(text)
}

/// All part names short enough that the archive format stores them intact.
pub open spec fn names_small(parts: Seq<(String, String)>) -> bool {
    forall|k: int| 0 <= k < parts.len() ==> (#[trigger] parts[k].0)@.len() <= 1000
}

/// The part at `k` is the last one bearing its name.
pub open spec fn last_of_name(parts: Seq<(String, String)>, k: int) -> bool {
    forall|j: int| k < j < parts.len() ==> (#[trigger] parts[j].0)@ != parts[k].0@
}

/// Relies on `zip::write::ZipWriter::start_file`, `Write::write_all` and
/// `finish`: each named part becomes one archive entry, in order, and the
/// zip reader recovers exactly the written names and contents. The exact
/// bytes depend on compression and the entry timestamps, so nothing is
/// promised of them beyond what reading them back yields; names too long
/// for the format's length fields are left unpromised.
#[verifier::external_body]
fn zip_pack(parts: &Vec<(String, String)>) -> (r: Result<Vec<u8>, XlsxError>)
    ensures
        match r {
            Ok(bytes) => names_small(parts@) ==> {
                &&& archive_names(bytes@) == Some(
                    parts@.map_values(|p: (String, String)| p.0@),
                )
                &&& forall|k: int|
                    0 <= k < parts@.len() && last_of_name(parts@, k)
                        ==> archive_part_text(bytes@, (#[trigger] parts@[k].0)@) == Some(
                        parts@[k].1@,
                    )
            },
            Err(e) => e == XlsxError::Zip || e == XlsxError::Io,
        },
{
    let mut zw = zip::write::ZipWriter::new(std::io::Cursor::new(Vec::new()));
    let opts = zip::write::FileOptions::default();
    for (name, content) in parts.iter() {
        if zw.start_file(name.as_str(), opts).is_err() {
            return Err(XlsxError::Zip);
        }
        if std::io::Write::write_all(&mut zw, content.as_bytes()).is_err() {
            return Err(XlsxError::Io);
        }
    }
    match zw.finish() {
        Ok(cur) => Ok(cur.into_inner()),
        Err(_) => Err(XlsxError::Zip),
    }
}

/// The parts recovered from the archive bytes: each listed entry that
/// decodes as text, with that text, in entry order.
pub open spec fn decoded_parts(data: Seq<u8>, names: Seq<Seq<char>>) -> Seq<(Seq<char>, Seq<char>)>
    decreases names.len(),
{
    if names.len() == 0 {
        Seq::empty()
    } else {
        decoded_parts(data, names.drop_last()) + (match archive_part_text(data, names.last()) {
            Some(t) => seq![(names.last(), t)],
            None => Seq::empty(),
        })
    }
}

/// Read a workbook from archive bytes: list the entries, decode every text
/// part, and hand them to the parts-level read, whose whole contract then
/// holds of those decoded parts. Eager mode materializes every sheet before
/// returning; lazy mode defers each sheet until first access. An invalid
/// archive is an archive fault.
pub fn read_reader(data: &Vec<u8>, with_sheet_read: bool) -> (r: Result<Spreadsheet, XlsxError>)
    ensures
        archive_names(data@) is None ==> r == Err::<Spreadsheet, XlsxError>(XlsxError::Zip),
        archive_names(data@) matches Some(names) ==> crate::reader::read_post(
            decoded_parts(data@, names),
            with_sheet_read,
            r,
        ),
{
    let names = match zip_list(data) {
        Ok(ns) => ns,
        Err(e) => {
            return Err(e);
        },
    };
    let ghost nsv = crate::reader::strs_view(names@);
    let mut parts: Vec<(String, String)> = Vec::new();
    let mut k: usize = 0;
    proof {
        assert(nsv.take(0) =~= Seq::<Seq<char>>::empty());
        assert(crate::reader::pairs_view(parts@) =~= decoded_parts(data@, nsv.take(0)));
    }
    while k < names.len()
        invariant
            k <= names@.len(),
            nsv == crate::reader::strs_view(names@),
            nsv.len() == names@.len(),
            crate::reader::pairs_view(parts@) == decoded_parts(data@, nsv.take(k as int)),
        decreases names@.len() - k,
    {
        proof {
            assert(nsv.take(k as int + 1).drop_last() =~= nsv.take(k as int));
            assert(nsv.take(k as int + 1).last() == nsv[k as int]);
            assert(nsv[k as int] == names@[k as int]@);
        }
        let ghost partspre = crate::reader::pairs_view(parts@);
        match zip_text(data, names[k].as_str()) {
            Some(t) => {
                parts.push((names[k].clone(), t));
                proof {
                    assert(crate::reader::pairs_view(parts@) =~= partspre + seq![
                        (nsv[k as int], parts@.last().1@),
                    ]);
                }
            },
            None => {
                proof {
                    assert(crate::reader::pairs_view(parts@) =~= partspre
                        + Seq::<(Seq<char>, Seq<char>)>::empty());
                }
            },
        }
        k += 1;
    }
    proof {
        assert(nsv.take(nsv.len() as int) =~= nsv);
    }
    crate::reader::read_parts(&parts, with_sheet_read)
}

/// Serialize the workbook into exactly the parts of `parts_model` and pack
/// them into archive bytes. The bytes themselves vary with compression and
/// entry timestamps, but whatever archive comes back lists those parts'
/// names in order and yields each part's text again; a counter overflow is
/// the one format fault, and anything else is the packer's own fault.
pub fn write(book: &mut Spreadsheet) -> (r: Result<Vec<u8>, XlsxError>)
    requires
        crate::shared_string_table::wf(old(book).shared_string_table),
    ensures
        crate::shared_string_table::wf(final(book).shared_string_table),
        items_view_take_stable(*old(book), *final(book)),
        final(book).sheets == old(book).sheets,
        final(book).theme == old(book).theme,
        final(book).stylesheet == old(book).stylesheet,
        final(book).workbook_relationships == old(book).workbook_relationships,
        match r {
            Ok(bytes) => crate::writer::parts_model(*old(book)) matches Some(ps) && {
                &&& archive_names(bytes@) == Some(
                    ps.map_values(|p: (Seq<char>, Seq<char>)| p.0),
                )
                &&& forall|k: int|
                    0 <= k < ps.len() && (forall|j: int|
                        k < j < ps.len() ==> ps[j].0 != (#[trigger] ps[k]).0)
                        ==> archive_part_text(bytes@, ps[k].0) == Some(ps[k].1)
            },
            Err(e) => {
                &&& e == XlsxError::Format || e == XlsxError::Zip || e == XlsxError::Io
                &&& (e == XlsxError::Format <==> crate::writer::parts_model(*old(book)) is None)
            },
        },
{
    let parts = match crate::writer::write_parts(book) {
        Ok(ps) => ps,
        Err(e) => {
            return Err(e);
        },
    };
    let ghost ps = crate::writer::parts_model(*old(book))->Some_0;
    let parts_len = parts.len();
    proof {
        assert(parts_len == parts@.len());
        assert(crate::reader::pairs_view(parts@) == ps);
        assert(parts@.len() == ps.len());
        assert forall|k: int| 0 <= k < parts@.len() implies (#[trigger] parts@[k].0)@
            == ps[k].0 && parts@[k].1@ == ps[k].1 by {
            assert(crate::reader::pairs_view(parts@)[k] == (parts@[k].0@, parts@[k].1@));
        }
        let nn = old(book).sheets@.len() as int;
        reveal_strlit("[Content_Types].xml");
        reveal_strlit("xl/workbook.xml");
        reveal_strlit("xl/_rels/workbook.xml.rels");
        reveal_strlit("xl/worksheets/sheet");
        reveal_strlit(".xml");
        reveal_strlit("xl/sharedStrings.xml");
        reveal_strlit("xl/styles.xml");
        reveal_strlit("xl/theme/theme1.xml");
        crate::formula::lemma_pow10_20();
        assert forall|k: int| 0 <= k < parts@.len() implies (#[trigger] parts@[k].0)@.len()
            <= 1000 by {
            assert(parts@[k].0@ == ps[k].0);
            if 3 <= k < 3 + nn {
                assert(ps[k].0 == crate::writer::sheet_part_path(k - 3 + 1));
                assert(ps.len() >= 3 + nn);
                assert(k - 3 + 1 <= nn <= parts_len);
                crate::formula::lemma_num_str_len(k - 3 + 1, 20);
            }
        }
        assert(names_small(parts@));
    }
    let packed = zip_pack(&parts);
    proof {
        match &packed {
            Ok(bytes) => {
                assert(parts@.map_values(|p: (String, String)| p.0@) =~= ps.map_values(
                    |p: (Seq<char>, Seq<char>)| p.0,
                ));
                assert forall|k: int|
                    0 <= k < ps.len() && (forall|j: int|
                        k < j < ps.len() ==> ps[j].0 != (#[trigger] ps[k]).0)
                    implies archive_part_text(bytes@, ps[k].0) == Some(ps[k].1) by {
                    assert forall|j: int| k < j < parts@.len() implies (#[trigger] parts@[j].0)@
                        != parts@[k].0@ by {
                        assert(parts@[j].0@ == ps[j].0 && parts@[k].0@ == ps[k].0);
                    }
                    assert(last_of_name(parts@, k));
                }
            },
            Err(_) => {},
        }
    }
    packed
}

/// Indices already interned before a write keep their items afterwards.
pub open spec fn items_view_take_stable(b0: Spreadsheet, b1: Spreadsheet) -> bool {
    crate::shared_string_table::items_view(b1.shared_string_table.shared_string_item@).take(
        b0.shared_string_table.shared_string_item@.len() as int,
    ) == crate::shared_string_table::items_view(b0.shared_string_table.shared_string_item@)
}

} // verus!
