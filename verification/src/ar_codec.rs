//! The ar container: reading and writing through the `ar` crate.
//!
//! Before an archive is handed to the reader, its chain of entry headers is
//! walked here: the reader indexes its table of long names without a bounds
//! check and allocates what a header claims, so an archive whose headers
//! reach outside what is there is refused as malformed and never read.

use std::io::Read;
use vstd::prelude::*;

use crate::entry::{
    all_regular, check_all_regular, entry_views, record_for, record_of, record_views,
    ArchiveError, CodecFault, Entry, EntryKind, EntryMetadata, EntryView, KindView, RawRecord,
    RecordView,
};
use crate::path::{copy_bytes, SEPARATOR};

verus! {

/// The byte that pads header fields.
pub const SPACE: u8 = 0x20;

/// The length of the global header that every archive begins with.
pub const GLOBAL_HEADER_LEN: usize = 8;

/// The length of an entry header.
pub const ENTRY_HEADER_LEN: usize = 60;

/// The length of a header field without the spaces that pad it at the end.
pub open spec fn trimmed_len(field: Seq<u8>) -> nat
    decreases field.len(),
{
    if field.len() == 0 {
        0
    } else if field.last() == SPACE {
        trimmed_len(field.drop_last())
    } else {
        field.len()
    }
}

/// Whether a byte is a decimal digit.
pub open spec fn is_digit(byte: u8) -> bool {
    0x30 <= byte <= 0x39
}

/// The number that a string of decimal digits writes.
pub open spec fn digits_value(digits: Seq<u8>) -> nat
    decreases digits.len(),
{
    if digits.len() == 0 {
        0
    } else {
        digits_value(digits.drop_last()) * 10 + (digits.last() - 0x30) as nat
    }
}

/// The number in a header field that holds decimal digits, at least one, and
/// then nothing but padding; `None` for any other field.
pub open spec fn field_number(field: Seq<u8>) -> Option<nat> {
    let digits = field.take(trimmed_len(field) as int);
    if digits.len() > 0 && (forall|i: int| 0 <= i < digits.len() ==> is_digit(#[trigger] digits[i])) {
        Some(digits_value(digits))
    } else {
        None
    }
}

/// The variant that the reader takes an archive for, as far as it has read.
#[derive(Clone, Copy, Debug, PartialEq, Eq, Structural)]
pub enum Variant {
    Common,
    Bsd,
    Gnu,
}

/// Whether a name begins with `#1/`, the mark of a name that is kept behind
/// the header.
pub open spec fn has_long_name_mark(name: Seq<u8>) -> bool {
    name.len() >= 3 && name[0] == 0x23 && name[1] == 0x31 && name[2] == SEPARATOR
}

/// What reading the entry header at `pos` comes to: `None` where the header
/// reaches outside what is there or cannot be understood, else the place of
/// the next header with the variant and the length of the table of long
/// names as they are then. `table` is the length of the table of long names
/// that was read so far.
///
/// Of each header the size must be a plain number. A name that begins with a
/// separator belongs to the GNU variant: `/` is a table of symbols, `//` the
/// table of long names, which must lie within the archive, and `/` with a
/// number points into the table of long names and must not point behind it.
/// A name that begins with `#1/` and a number belongs to the BSD variant:
/// so many bytes of name follow the header, and they must lie within the
/// archive unless they are more than the entry's size, which the reader
/// refuses by itself: then reading ends here. Content is padded to an even
/// length.
pub open spec fn header_step(bytes: Seq<u8>, pos: int, variant: Variant, table: nat) -> Option<(int, Variant, nat)>
    recommends
        0 <= pos,
        pos + 60 <= bytes.len(),
{
    let field = bytes.subrange(pos, pos + 16);
    let name = field.take(trimmed_len(field) as int);
    let body = bytes.len() - (pos + 60);
    match field_number(bytes.subrange(pos + 48, pos + 58)) {
        None => None,
        Some(size) => {
            let next = pos + 60 + size + size % 2;
            if variant != Variant::Bsd && name.len() > 0 && name[0] == SEPARATOR {
                if name.len() == 1 {
                    Some((next, Variant::Gnu, table))
                } else if name.len() == 2 && name[1] == SEPARATOR {
                    if size <= body {
                        Some((next, Variant::Gnu, size))
                    } else {
                        None
                    }
                } else {
                    match field_number(bytes.subrange(pos + 1, pos + 16)) {
                        None => None,
                        Some(start) => if start <= table {
                            Some((next, Variant::Gnu, table))
                        } else {
                            None
                        },
                    }
                }
            } else {
                let seen = if variant != Variant::Bsd && name.len() > 0 && name.last() == SEPARATOR {
                    Variant::Gnu
                } else {
                    variant
                };
                if seen != Variant::Gnu && has_long_name_mark(name) {
                    match field_number(bytes.subrange(pos + 3, pos + 16)) {
                        None => None,
                        Some(padded) => if padded > size {
                            Some((bytes.len() as int, Variant::Bsd, table))
                        } else if padded <= body {
                            Some((pos + 60 + size + (size - padded) % 2, Variant::Bsd, table))
                        } else {
                            None
                        },
                    }
                } else {
                    Some((next, seen, table))
                }
            }
        },
    }
}

/// Whether the entry headers from `pos` on can be read without reaching
/// outside what is there: each header that lies within the archive takes a
/// step, and the steps lead from header to header up to the end.
pub open spec fn headers_safe(bytes: Seq<u8>, pos: int, variant: Variant, table: nat) -> bool
    decreases bytes.len() - pos,
{
    if pos < 0 || pos + 60 > bytes.len() {
        true
    } else {
        match header_step(bytes, pos, variant, table) {
            None => false,
            Some((next, seen, known)) => if pos < next <= bytes.len() {
                headers_safe(bytes, next, seen, known)
            } else {
                true
            },
        }
    }
}

/// Whether an archive can be handed to the reader: its headers, from the
/// first one behind the global header, can be read without reaching outside
/// what is there.
pub open spec fn is_safe(bytes: Seq<u8>) -> bool {
    headers_safe(bytes, GLOBAL_HEADER_LEN as int, Variant::Common, 0)
}

/// The length of the part of `bytes` between `from` and `to` without the
/// spaces that pad it at the end.
fn trimmed_end(bytes: &[u8], from: usize, to: usize) -> (end: usize)
    requires
        from <= to <= bytes.len(),
    ensures
        from <= end <= to,
        end - from == trimmed_len(bytes@.subrange(from as int, to as int)),
{
    let ghost field = bytes@.subrange(from as int, to as int);
    let mut end = to;
    assert(field.take((end - from) as int) == field);
    while end > from && bytes[end - 1] == SPACE
        invariant
            from <= end <= to <= bytes.len(),
            field == bytes@.subrange(from as int, to as int),
            trimmed_len(field) == trimmed_len(field.take((end - from) as int)),
        decreases end,
    {
        proof {
            let shorter = field.take((end - from) as int);
            assert(shorter.last() == bytes@[end - 1]);
            assert(shorter.drop_last() == field.take((end - from - 1) as int));
        }
        end -= 1;
    }
    proof {
        let shorter = field.take((end - from) as int);
        if end > from {
            assert(shorter.last() == bytes@[end - 1]);
        }
    }
    end
}

/// The number in the header field between `from` and `to`.
fn read_number(bytes: &[u8], from: usize, to: usize) -> (number: Option<u64>)
    requires
        from <= to <= bytes.len(),
        to - from <= 15,
    ensures
        number matches Some(value) ==> field_number(bytes@.subrange(from as int, to as int)) == Some(value as nat)
            && value < 1_000_000_000_000_000,
        number is None ==> field_number(bytes@.subrange(from as int, to as int)) is None,
{
    let ghost field = bytes@.subrange(from as int, to as int);
    let end = trimmed_end(bytes, from, to);
    let ghost digits = field.take((end - from) as int);
    if end == from {
        return None;
    }
    let mut value: u64 = 0;
    let mut i: usize = from;
    assert(digits.take(0) == Seq::<u8>::empty());
    while i < end
        invariant
            from <= i <= end <= to <= bytes.len(),
            to - from <= 15,
            field == bytes@.subrange(from as int, to as int),
            digits == field.take((end - from) as int),
            end - from == trimmed_len(field),
            forall|j: int| 0 <= j < i - from ==> is_digit(#[trigger] digits[j]),
            value == digits_value(digits.take((i - from) as int)),
            value < pow10((i - from) as nat),
        decreases end - i,
    {
        let byte = bytes[i];
        assert(digits[(i - from) as int] == byte);
        if byte < 0x30 || byte > 0x39 {
            assert(!is_digit(digits[(i - from) as int]));
            return None;
        }
        proof {
            let longer = digits.take((i - from + 1) as int);
            assert(longer.drop_last() == digits.take((i - from) as int));
            assert(longer.last() == byte);
            lemma_pow10_bound((i - from) as nat);
        }
        value = value * 10 + (byte - 0x30) as u64;
        i += 1;
    }
    assert(digits.take((end - from) as int) == digits);
    proof {
        lemma_pow10_bound((end - from) as nat);
    }
    Some(value)
}

/// Ten to the power of `exponent`.
pub open spec fn pow10(exponent: nat) -> nat
    decreases exponent,
{
    if exponent == 0 {
        1
    } else {
        10 * pow10((exponent - 1) as nat)
    }
}

proof fn lemma_pow10_bound(exponent: nat)
    requires
        exponent <= 15,
    ensures
        pow10(exponent) <= 1_000_000_000_000_000,
        pow10(exponent + 1) == 10 * pow10(exponent),
    decreases exponent,
{
    reveal_with_fuel(pow10, 17);
}


/// What reading one entry header comes to.
enum Step {
    /// The header reaches outside what is there or cannot be understood.
    Refused,
    /// Reading ends with this entry.
    End,
    /// The next header is at this place, with the variant and the length of
    /// the table of long names as they are then.
    Next(usize, Variant, u64),
}

/// Reads the entry header at `pos`.
fn take_step(bytes: &[u8], pos: usize, variant: Variant, table: u64) -> (step: Step)
    requires
        pos + 60 <= bytes.len(),
    ensures
        match header_step(bytes@, pos as int, variant, table as nat) {
            None => step is Refused,
            Some((next, seen, known)) => match step {
                Step::Refused => false,
                Step::End => next >= bytes.len(),
                Step::Next(place, kind, length) => place == next && kind == seen && length == known && pos < place
                    <= bytes.len(),
            },
        },
{
    let ghost field = bytes@.subrange(pos as int, pos + 16);
    let ghost name = field.take(trimmed_len(field) as int);
    let name_len = trimmed_end(bytes, pos, pos + 16) - pos;
    let body = bytes.len() - pos - 60;
    proof {
        assert(name.len() == name_len);
        assert forall|i: int| 0 <= i < name_len implies name[i] == bytes@[pos + i] by {}
    }
    let size = match read_number(bytes, pos + 48, pos + 58) {
        None => {
            return Step::Refused;
        },
        Some(size) => size,
    };
    let gnu_name = !matches!(variant, Variant::Bsd) && name_len > 0 && bytes[pos] == SEPARATOR;
    let mut seen = variant;
    let mut known = table;
    let mut data = size;
    if gnu_name {
        seen = Variant::Gnu;
        if name_len == 1 {
        } else if name_len == 2 && bytes[pos + 1] == SEPARATOR {
            if size > body as u64 {
                return Step::Refused;
            }
            known = size;
        } else {
            match read_number(bytes, pos + 1, pos + 16) {
                None => {
                    return Step::Refused;
                },
                Some(start) => {
                    if start > table {
                        return Step::Refused;
                    }
                },
            }
        }
    } else {
        if !matches!(variant, Variant::Bsd) && name_len > 0 && bytes[pos + name_len - 1] == SEPARATOR {
            seen = Variant::Gnu;
        }
        let marked = name_len >= 3 && bytes[pos] == 0x23 && bytes[pos + 1] == 0x31 && bytes[pos + 2] == SEPARATOR;
        if !matches!(seen, Variant::Gnu) && marked {
            seen = Variant::Bsd;
            match read_number(bytes, pos + 3, pos + 16) {
                None => {
                    return Step::Refused;
                },
                Some(padded) => {
                    if padded > size {
                        return Step::End;
                    }
                    if padded > body as u64 {
                        return Step::Refused;
                    }
                    data = size - padded;
                },
            }
        }
    }
    let need = size + data % 2;
    if need > body as u64 {
        Step::End
    } else {
        Step::Next(pos + 60 + need as usize, seen, known)
    }
}

/// Whether an archive can be handed to the reader.
pub fn check_safe(bytes: &[u8]) -> (safe: bool)
    ensures
        safe == is_safe(bytes@),
{
    let mut pos: usize = GLOBAL_HEADER_LEN;
    let mut variant = Variant::Common;
    let mut table: u64 = 0;
    while pos <= bytes.len() && bytes.len() - pos >= 60
        invariant
            0 <= pos,
            is_safe(bytes@) == headers_safe(bytes@, pos as int, variant, table as nat),
        decreases bytes.len() - pos,
    {
        match take_step(bytes, pos, variant, table) {
            Step::Refused => {
                return false;
            },
            Step::End => {
                proof {
                    let reached = header_step(bytes@, pos as int, variant, table as nat)->0;
                    assert(headers_safe(bytes@, bytes@.len() as int, reached.1, reached.2));
                }
                return true;
            },
            Step::Next(place, seen, known) => {
                pos = place;
                variant = seen;
                table = known;
            },
        }
    }
    true
}


/// The global header: `!<arch>` and a line feed. By itself it is the archive
/// without entries.
pub open spec fn global_header() -> Seq<u8> {
    seq![0x21u8, 0x3c, 0x61, 0x72, 0x63, 0x68, 0x3e, 0x0a]
}

/// What the `ar` crate reads from an archive: the records of its entries in
/// their order, or `None` where it reports an error.
pub uninterp spec fn ar_records(bytes: Seq<u8>) -> Option<Seq<RecordView>>;

/// `ar::Archive::new`, then `next_entry` until it gives no more, and of each
/// entry the header's identifier and numbers and the data that
/// `read_to_end` gives: the records are those that the crate reads from
/// these bytes, and an error of the crate is handed on. Behind the global
/// header `next_entry` finds the end of the archive when no byte follows, so
/// the global header alone gives no records and no error. Archives that are
/// not safe are left out: on some of them `next_entry` indexes behind its
/// table of long names or allocates more than the archive holds.
#[verifier::external_body]
fn read_records(bytes: &[u8]) -> (outcome: Result<Vec<RawRecord>, std::io::Error>)
    requires
        is_safe(bytes@),
    ensures
        outcome matches Ok(records) ==> ar_records(bytes@) == Some(record_views(records@)),
        outcome is Err ==> ar_records(bytes@) is None,
        bytes@ == global_header() ==> outcome is Ok && outcome->Ok_0@.len() == 0,
{
    let mut archive = ar::Archive::new(bytes);
    let mut records = Vec::new();
    while let Some(next) = archive.next_entry() {
        let mut entry = next?;
        let mut content = Vec::new();
        entry.read_to_end(&mut content)?;
        let header = entry.header();
        let name = header.identifier().to_vec();
        records.push(RawRecord { name, uid: header.uid(), gid: header.gid(), mode: header.mode(), mtime: header.mtime(), content });
    }
    Ok(records)
}

/// The entry that a record of an ar archive stands for: a regular file with
/// owner, group, mode and modification time.
pub open spec fn ar_entry(record: RecordView) -> EntryView {
    EntryView {
        name: record.name,
        kind: KindView::Regular,
        content: record.content,
        metadata: EntryMetadata {
            uid: Some(record.uid),
            gid: Some(record.gid),
            mode: Some(record.mode),
            mtime: Some(record.mtime),
        },
    }
}

/// The entries that records stand for, in their order.
pub open spec fn ar_entries(records: Seq<RecordView>) -> Seq<EntryView> {
    Seq::new(records.len(), |i: int| ar_entry(records[i]))
}

/// The entries that records of an ar archive stand for, in their order.
pub fn entries_of_records(records: Vec<RawRecord>) -> (entries: Vec<Entry>)
    ensures
        entries@.len() == records@.len(),
        entry_views(entries@) == ar_entries(record_views(records@)),
{
    let mut entries: Vec<Entry> = Vec::new();
    let mut i: usize = 0;
    while i < records.len()
        invariant
            i <= records.len(),
            entries@.len() == i,
            forall|j: int| 0 <= j < i ==> (#[trigger] entries@[j])@ == ar_entry(records@[j]@),
        decreases records.len() - i,
    {
        let record = &records[i];
        entries.push(
            Entry {
                name: copy_bytes(record.name.as_slice()),
                kind: EntryKind::Regular,
                content: copy_bytes(record.content.as_slice()),
                metadata: EntryMetadata {
                    uid: Some(record.uid),
                    gid: Some(record.gid),
                    mode: Some(record.mode),
                    mtime: Some(record.mtime),
                },
            },
        );
        i += 1;
    }
    assert(entry_views(entries@) == ar_entries(record_views(records@)));
    entries
}

/// The entries of an ar archive: those that the records of the `ar` crate
/// stand for. An archive that is not safe, or in which the crate reports an
/// error, is malformed.
pub open spec fn decoded(bytes: Seq<u8>) -> Result<Seq<EntryView>, ArchiveError> {
    if !is_safe(bytes) {
        Err(ArchiveError::Codec(CodecFault::Malformed))
    } else {
        match ar_records(bytes) {
            None => Err(ArchiveError::Codec(CodecFault::Malformed)),
            Some(records) => Ok(ar_entries(records)),
        }
    }
}

/// Decodes an ar archive into its entries, in their order. The archive
/// without entries, as [`encode`] writes it, decodes to no entries.
pub fn decode(bytes: &[u8]) -> (outcome: Result<Vec<Entry>, ArchiveError>)
    ensures
        match decoded(bytes@) {
            Ok(entries) => outcome matches Ok(found) && entry_views(found@) == entries,
            Err(error) => outcome matches Err(reason) && reason == error,
        },
        bytes@ == global_header() ==> (outcome matches Ok(found) && found@.len() == 0),
{
    if !check_safe(bytes) {
        return Err(ArchiveError::Codec(CodecFault::Malformed));
    }
    match read_records(bytes) {
        Err(_) => Err(ArchiveError::Codec(CodecFault::Malformed)),
        Ok(records) => Ok(entries_of_records(records)),
    }
}


/// An `ar::Builder` that writes into a buffer.
#[verifier::external_body]
pub struct ArWriter {
    inner: ar::Builder<Vec<u8>>,
}

/// The bytes that a writer has written so far.
pub uninterp spec fn ar_written(writer: ArWriter) -> Seq<u8>;

/// What `ar::Builder::append` makes of an archive when it adds a record:
/// the bytes of the longer archive.
pub uninterp spec fn ar_appended(written: Seq<u8>, record: RecordView) -> Seq<u8>;

/// `ar::Builder::new` over an empty buffer: nothing is written yet.
#[verifier::external_body]
fn builder_new() -> (builder: ArWriter)
    ensures
        ar_written(builder) == Seq::<u8>::empty(),
{
    ArWriter { inner: ar::Builder::new(Vec::new()) }
}

/// `ar::Header::new` with the record's name and the length of its content,
/// the header's setters for owner, group, mode and modification time, then
/// `ar::Builder::append` of that header and the content: what is written
/// afterwards is what the crate makes of what was written before and of the
/// record. The crate reports an error where its writer does or where the
/// content is not as long as the header says; a buffer takes every write,
/// and the header is given the length of the content, so there is none.
#[verifier::external_body]
fn builder_append(builder: &mut ArWriter, record: &RawRecord) -> (outcome: Result<(), std::io::Error>)
    ensures
        outcome is Ok,
        ar_written(*final(builder)) == ar_appended(ar_written(*old(builder)), record@),
{
    let mut header = ar::Header::new(record.name.clone(), record.content.len() as u64);
    header.set_uid(record.uid);
    header.set_gid(record.gid);
    header.set_mode(record.mode);
    header.set_mtime(record.mtime);
    builder.inner.append(&header, record.content.as_slice())
}

/// `ar::Builder::into_inner`: the buffer with what was written. The crate
/// hands the buffer back in every case: its body is `Ok` of the writer.
#[verifier::external_body]
fn builder_finish(builder: ArWriter) -> (outcome: Result<Vec<u8>, std::io::Error>)
    ensures
        outcome is Ok,
        outcome matches Ok(bytes) ==> bytes@ == ar_written(builder),
{
    builder.inner.into_inner()
}

/// What the builder has written after the records of these entries were
/// appended, one after the other, to what was written before.
pub open spec fn appended_all(written: Seq<u8>, entries: Seq<EntryView>) -> Seq<u8>
    decreases entries.len(),
{
    if entries.len() == 0 {
        written
    } else {
        ar_appended(appended_all(written, entries.drop_last()), record_of(entries.last()))
    }
}

/// The bytes of the ar archive with these entries. Ar has regular files
/// only: any other entry is refused, and nothing else is. The archive
/// without entries is the global header; any other is what the `ar` crate
/// writes for the records of the entries, in their order.
pub open spec fn encoded(entries: Seq<EntryView>) -> Result<Seq<u8>, ArchiveError> {
    if !all_regular(entries) {
        Err(ArchiveError::Codec(CodecFault::UnsupportedEntry))
    } else if entries.len() == 0 {
        Ok(global_header())
    } else {
        Ok(appended_all(Seq::<u8>::empty(), entries))
    }
}

/// Encodes entries as an ar archive.
pub fn encode(entries: &Vec<Entry>) -> (outcome: Result<Vec<u8>, ArchiveError>)
    ensures
        match encoded(entry_views(entries@)) {
            Ok(bytes) => outcome matches Ok(written) && written@ == bytes,
            Err(error) => outcome matches Err(reason) && reason == error,
        },
{
    let ghost views = entry_views(entries@);
    if !check_all_regular(entries) {
        return Err(ArchiveError::Codec(CodecFault::UnsupportedEntry));
    }
    if entries.len() == 0 {
        let mut header: Vec<u8> = Vec::new();
        header.push(0x21);
        header.push(0x3c);
        header.push(0x61);
        header.push(0x72);
        header.push(0x63);
        header.push(0x68);
        header.push(0x3e);
        header.push(0x0a);
        assert(header@ == global_header());
        return Ok(header);
    }
    let mut builder = builder_new();
    let mut i: usize = 0;
    assert(views.take(0) == Seq::<EntryView>::empty());
    while i < entries.len()
        invariant
            i <= entries.len(),
            views == entry_views(entries@),
            entries.len() > 0,
            all_regular(views),
            appended_all(Seq::<u8>::empty(), views.take(i as int)) == ar_written(builder),
        decreases entries.len() - i,
    {
        let record = record_for(&entries[i]);
        proof {
            assert(views.take(i + 1).drop_last() == views.take(i as int));
            assert(views.take(i + 1).last() == entries@[i as int]@);
        }
        if builder_append(&mut builder, &record).is_err() {
            return Err(ArchiveError::Io);
        }
        i += 1;
    }
    assert(views.take(entries.len() as int) == views);
    match builder_finish(builder) {
        Ok(bytes) => Ok(bytes),
        Err(_) => Err(ArchiveError::Io),
    }
}

} // verus!
