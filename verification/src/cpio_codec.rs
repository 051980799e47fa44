//! The cpio container: reading through the `cpio_reader` crate, writing in
//! the newc form through the `cpio` crate.

use std::io::Write;
use vstd::prelude::*;

use crate::entry::{
    all_regular, check_all_regular, entry_views, record_for, record_of, record_views,
    ArchiveError, CodecFault, Entry, EntryKind, EntryMetadata, EntryView, KindView, RawRecord,
    RecordView,
};
use crate::path::copy_bytes;

verus! {

/// The name of the member that ends an archive.
pub open spec fn trailer_name() -> Seq<u8> {
    seq![0x54u8, 0x52, 0x41, 0x49, 0x4c, 0x45, 0x52, 0x21, 0x21, 0x21]
}

/// The member that ends an archive: `TRAILER!!!`, without content, with all
/// numbers zero.
pub open spec fn trailer() -> RecordView {
    RecordView { name: trailer_name(), uid: 0, gid: 0, mode: 0, mtime: 0, content: Seq::<u8>::empty() }
}

/// What the newc writer of the `cpio` crate writes for one member: header,
/// name, content and padding.
pub uninterp spec fn cpio_member(record: RecordView) -> Seq<u8>;

/// What the `cpio_reader` crate reads from an archive: the records of its
/// entries in their order. The crate reports no errors: it stops at the
/// trailer and at the first entry that it cannot read.
pub uninterp spec fn cpio_records(bytes: Seq<u8>) -> Seq<RecordView>;

/// `cpio_reader::iter_files`, and of each entry its name, owner, group, the
/// bits of its mode, its modification time and its content: the records are
/// those that the crate reads from these bytes. The crate ends its reading
/// at a member named `TRAILER!!!` without handing it out, and the newc
/// writer writes the trailer as a member that the reader reads by that
/// name, so the trailer alone gives no records. The crate converts sizes of
/// 64 bits to `usize` and panics where that fails, so machines with a
/// narrower `usize` are left out.
#[verifier::external_body]
fn read_records(bytes: &[u8]) -> (records: Vec<RawRecord>)
    requires
        usize::MAX == u64::MAX,
    ensures
        record_views(records@) == cpio_records(bytes@),
        bytes@ == cpio_member(trailer()) ==> records@.len() == 0,
{
    cpio_reader::iter_files(bytes).map(|file| RawRecord {
        name: file.name().as_bytes().to_vec(),
        uid: file.uid(),
        gid: file.gid(),
        mode: file.mode().bits(),
        mtime: file.mtime(),
        content: file.file().to_vec(),
    }).collect()
}

/// The entry that a record of a cpio archive stands for: a regular file with
/// owner, group and mode.
pub open spec fn cpio_entry(record: RecordView) -> EntryView {
    EntryView {
        name: record.name,
        kind: KindView::Regular,
        content: record.content,
        metadata: EntryMetadata { uid: Some(record.uid), gid: Some(record.gid), mode: Some(record.mode), mtime: None },
    }
}

/// The entries that records stand for, in their order.
pub open spec fn cpio_entries(records: Seq<RecordView>) -> Seq<EntryView> {
    Seq::new(records.len(), |i: int| cpio_entry(records[i]))
}

/// The entries that records of a cpio archive stand for, in their order.
pub fn entries_of_records(records: Vec<RawRecord>) -> (entries: Vec<Entry>)
    ensures
        entries@.len() == records@.len(),
        entry_views(entries@) == cpio_entries(record_views(records@)),
{
    let mut entries: Vec<Entry> = Vec::new();
    let mut i: usize = 0;
    while i < records.len()
        invariant
            i <= records.len(),
            entries@.len() == i,
            forall|j: int| 0 <= j < i ==> (#[trigger] entries@[j])@ == cpio_entry(records@[j]@),
        decreases records.len() - i,
    {
        let record = &records[i];
        entries.push(
            Entry {
                name: copy_bytes(record.name.as_slice()),
                kind: EntryKind::Regular,
                content: copy_bytes(record.content.as_slice()),
                metadata: EntryMetadata {
                    uid: Some(record.uid),
                    gid: Some(record.gid),
                    mode: Some(record.mode),
                    mtime: None,
                },
            },
        );
        i += 1;
    }
    assert(entry_views(entries@) == cpio_entries(record_views(records@)));
    entries
}

/// The entries of a cpio archive: those that the records of the
/// `cpio_reader` crate stand for. On a machine whose `usize` is narrower
/// than 64 bits no archive is read.
pub open spec fn decoded(bytes: Seq<u8>) -> Result<Seq<EntryView>, ArchiveError> {
    if usize::MAX == u64::MAX {
        Ok(cpio_entries(cpio_records(bytes)))
    } else {
        Err(ArchiveError::Codec(CodecFault::TooLarge))
    }
}

/// Decodes a cpio archive into its entries, in their order. The archive
/// without entries, as [`encode`] writes it, decodes to no entries.
pub fn decode(bytes: &[u8]) -> (outcome: Result<Vec<Entry>, ArchiveError>)
    ensures
        match decoded(bytes@) {
            Ok(entries) => outcome matches Ok(found) && entry_views(found@) == entries,
            Err(error) => outcome matches Err(reason) && reason == error,
        },
        usize::MAX == u64::MAX && bytes@ == cpio_member(trailer()) ==> (outcome matches Ok(found)
            && found@.len() == 0),
{
    if (usize::MAX as u64) < u64::MAX {
        return Err(ArchiveError::Codec(CodecFault::TooLarge));
    }
    Ok(entries_of_records(read_records(bytes)))
}

/// `cpio::newc::Builder::new` with the record's name, read as UTF-8 with
/// replacement characters where it is none, the builder's setters for
/// owner, group and mode, `write` with the length of the content,
/// `write_all` of the content and `finish`: what the crate writes for the
/// member is put behind what the buffer holds. The crate reports an error
/// where its writer does or where more is written than was announced; a
/// buffer takes every write, and exactly the announced content is written,
/// so there is none. The crate counts the content in 32 bits, so longer
/// content is left out.
#[verifier::external_body]
fn write_member(out: &mut Vec<u8>, record: &RawRecord) -> (outcome: Result<(), std::io::Error>)
    requires
        record.content@.len() <= u32::MAX,
    ensures
        outcome is Ok,
        final(out)@ == old(out)@ + cpio_member(record@),
{
    let name = String::from_utf8_lossy(&record.name);
    let builder = cpio::newc::Builder::new(&name).uid(record.uid).gid(record.gid).mode(record.mode);
    let mut writer = builder.write(&mut *out, record.content.len() as u32);
    writer.write_all(&record.content)?;
    writer.finish().map(|_| ())
}

/// Whether the content of every entry can be counted in 32 bits.
pub open spec fn all_countable(entries: Seq<EntryView>) -> bool {
    forall|i: int| 0 <= i < entries.len() ==> (#[trigger] entries[i]).content.len() <= u32::MAX
}

/// What the writer writes for the members of these entries, one after the
/// other.
pub open spec fn members(entries: Seq<EntryView>) -> Seq<u8>
    decreases entries.len(),
{
    if entries.len() == 0 {
        Seq::<u8>::empty()
    } else {
        members(entries.drop_last()) + cpio_member(record_of(entries.last()))
    }
}

/// The bytes of the cpio archive with these entries. Cpio is written with
/// regular files only: any other entry is refused, and so is content that
/// cannot be counted in 32 bits; nothing else is. The archive holds the
/// members of the entries in their order and then the trailer; the archive
/// without entries is the trailer.
pub open spec fn encoded(entries: Seq<EntryView>) -> Result<Seq<u8>, ArchiveError> {
    if !all_regular(entries) {
        Err(ArchiveError::Codec(CodecFault::UnsupportedEntry))
    } else if !all_countable(entries) {
        Err(ArchiveError::Codec(CodecFault::TooLarge))
    } else {
        Ok(members(entries) + cpio_member(trailer()))
    }
}

/// Whether the content of every entry can be counted in 32 bits.
pub fn check_all_countable(entries: &Vec<Entry>) -> (yes: bool)
    ensures
        yes == all_countable(entry_views(entries@)),
{
    let mut i: usize = 0;
    while i < entries.len()
        invariant
            i <= entries.len(),
            forall|j: int| 0 <= j < i ==> (#[trigger] entry_views(entries@)[j]).content.len() <= u32::MAX,
        decreases entries.len() - i,
    {
        if entries[i].content.len() > 0xffff_ffff {
            assert(entry_views(entries@)[i as int].content.len() > u32::MAX);
            return false;
        }
        i += 1;
    }
    true
}

/// The member that ends an archive.
fn trailer_record() -> (record: RawRecord)
    ensures
        record@ == trailer(),
{
    let mut name: Vec<u8> = Vec::new();
    name.push(0x54);
    name.push(0x52);
    name.push(0x41);
    name.push(0x49);
    name.push(0x4c);
    name.push(0x45);
    name.push(0x52);
    name.push(0x21);
    name.push(0x21);
    name.push(0x21);
    assert(name@ == trailer_name());
    RawRecord { name, uid: 0, gid: 0, mode: 0, mtime: 0, content: Vec::new() }
}

/// Encodes entries as a cpio archive in the newc form.
pub fn encode(entries: &Vec<Entry>) -> (outcome: Result<Vec<u8>, ArchiveError>)
    ensures
        match encoded(entry_views(entries@)) {
            Ok(bytes) => outcome matches Ok(written) && written@ == bytes,
            Err(error) => outcome matches Err(reason) && reason == error,
        },
        entries@.len() == 0 ==> (outcome matches Ok(written) && written@ == cpio_member(trailer())),
{
    let ghost views = entry_views(entries@);
    if !check_all_regular(entries) {
        return Err(ArchiveError::Codec(CodecFault::UnsupportedEntry));
    }
    if !check_all_countable(entries) {
        return Err(ArchiveError::Codec(CodecFault::TooLarge));
    }
    let mut out: Vec<u8> = Vec::new();
    let mut i: usize = 0;
    assert(views.take(0) == Seq::<EntryView>::empty());
    while i < entries.len()
        invariant
            i <= entries.len(),
            views == entry_views(entries@),
            all_regular(views),
            all_countable(views),
            members(views.take(i as int)) == out@,
        decreases entries.len() - i,
    {
        let record = record_for(&entries[i]);
        proof {
            assert(views.take(i + 1).drop_last() == views.take(i as int));
            assert(views.take(i + 1).last() == entries@[i as int]@);
            assert(views[i as int].content.len() <= u32::MAX);
        }
        if write_member(&mut out, &record).is_err() {
            return Err(ArchiveError::Io);
        }
        i += 1;
    }
    assert(views.take(entries.len() as int) == views);
    let end = trailer_record();
    match write_member(&mut out, &end) {
        Err(_) => Err(ArchiveError::Io),
        Ok(_) => {
            proof {
                if entries@.len() == 0 {
                    assert(out@ == cpio_member(trailer()));
                }
            }
            Ok(out)
        },
    }
}

} // verus!
