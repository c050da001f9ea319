//! Narrow read-only FAT32 reader: 8.3 short names, directory scans over
//! cluster chains, and whole-file reads.
use vstd::prelude::*;
use vstd::string::StringSliceAdditionalSpecFns;

use crate::storage::block::{BlockDevice, SECTOR_SIZE};
use crate::storage::gpt::GptPartition;
use crate::storage::StorageError;
use crate::util::{le_u16_from_bytes, le_u32_from_bytes, spec_le_u16, spec_le_u32};

verus! {

pub const FAT_DIRECTORY_ENTRY_SIZE: usize = 32;
pub const FAT_ATTRIBUTE_DIRECTORY: u8 = 0x10;
pub const FAT_ATTRIBUTE_VOLUME_ID: u8 = 0x08;
pub const FAT_ATTRIBUTE_LONG_NAME: u8 = 0x0f;
pub const FAT_ENTRY_END_OF_CHAIN: u32 = 0x0fff_fff8;
pub const FAT_ENTRY_BAD_CLUSTER: u32 = 0x0fff_fff7;
pub const SPACE: u8 = 0x20;
pub const DOT: u8 = 0x2e;

/// The byte a short name stores for `byte`: letters in upper case, digits
/// and the permitted punctuation as they are.
pub open spec fn spec_normalize_fat_byte(byte: u8) -> Option<u8> {
    if 0x61 <= byte <= 0x7a {
        Some((byte - 0x20) as u8)
    } else if (0x41 <= byte <= 0x5a) || (0x30 <= byte <= 0x39) {
        Some(byte)
    } else if byte == 0x24 || byte == 0x25 || byte == 0x27 || byte == 0x2d || byte == 0x5f || byte == 0x40
        || byte == 0x7e || byte == 0x60 || byte == 0x21 || byte == 0x28 || byte == 0x29 || byte == 0x7b
        || byte == 0x7d || byte == 0x5e || byte == 0x23 || byte == 0x26 {
        Some(byte)
    } else {
        None
    }
}

/// Normalizes one byte of a short name component.
pub fn normalize_fat_byte(byte: u8) -> (r: Result<u8, StorageError>)
    ensures
        match spec_normalize_fat_byte(byte) {
            Some(b) => r == Ok::<u8, StorageError>(b),
            None => r == Err::<u8, StorageError>(StorageError::InvalidShortName),
        },
{
    if 0x61 <= byte && byte <= 0x7a {
        Ok(byte - 0x20)
    } else if (0x41 <= byte && byte <= 0x5a) || (0x30 <= byte && byte <= 0x39) {
        Ok(byte)
    } else if byte == 0x24 || byte == 0x25 || byte == 0x27 || byte == 0x2d || byte == 0x5f || byte == 0x40
        || byte == 0x7e || byte == 0x60 || byte == 0x21 || byte == 0x28 || byte == 0x29 || byte == 0x7b
        || byte == 0x7d || byte == 0x5e || byte == 0x23 || byte == 0x26 {
        Ok(byte)
    } else {
        Err(StorageError::InvalidShortName)
    }
}

/// Whether every byte of `s` has a short-name form.
pub open spec fn all_normalizable(s: Seq<u8>) -> bool {
    forall|i: int| 0 <= i < s.len() ==> #[trigger] spec_normalize_fat_byte(s[i]) is Some
}

/// `s` with every byte in its short-name form, padded with spaces to `width`.
pub open spec fn padded_field(s: Seq<u8>, width: int) -> Seq<u8> {
    Seq::new(width as nat, |i: int| if i < s.len() { spec_normalize_fat_byte(s[i]).unwrap() } else { SPACE })
}

/// Position of the first dot of `s`.
pub open spec fn first_dot(s: Seq<u8>) -> Option<int> {
    if s.contains(DOT) {
        Some(choose|i: int| 0 <= i < s.len() && s[i] == DOT && forall|j: int| 0 <= j < i ==> s[j] != DOT)
    } else {
        None
    }
}

/// The 11-byte directory name of a path component: a name of one to eight
/// bytes, optionally a dot and an extension of one to three bytes.
pub open spec fn spec_short_name(component: Seq<u8>) -> Option<Seq<u8>> {
    match first_dot(component) {
        None => if 1 <= component.len() <= 8 && all_normalizable(component) {
            Some(padded_field(component, 8) + padded_field(Seq::empty(), 3))
        } else {
            None
        },
        Some(d) => {
            let name = component.take(d);
            let extension = component.skip(d + 1);
            if !extension.contains(DOT) && 1 <= name.len() <= 8 && 1 <= extension.len() <= 3
                && all_normalizable(name) && all_normalizable(extension) {
                Some(padded_field(name, 8) + padded_field(extension, 3))
            } else {
                None
            }
        },
    }
}

/// The first dot at or after `from`.
fn find_dot(bytes: &[u8], from: usize) -> (r: Option<usize>)
    requires
        from <= bytes@.len(),
    ensures
        match r {
            Some(i) => from <= i < bytes@.len() && bytes@[i as int] == DOT
                && forall|j: int| from <= j < i ==> #[trigger] bytes@[j] != DOT,
            None => forall|j: int| from <= j < bytes@.len() ==> #[trigger] bytes@[j] != DOT,
        },
{
    let mut index = from;
    while index < bytes.len()
        invariant
            from <= index <= bytes@.len(),
            forall|j: int| from <= j < index ==> #[trigger] bytes@[j] != DOT,
        decreases bytes@.len() - index,
    {
        if bytes[index] == DOT {
            return Some(index);
        }
        index += 1;
    }
    None
}

/// Writes the normalized bytes `bytes[start..end)` into `out` from `at`.
fn fill_field(out: &mut [u8; 11], at: usize, bytes: &[u8], start: usize, end: usize) -> (r: Result<(), StorageError>)
    requires
        start <= end <= bytes@.len(),
        at + (end - start) <= 11,
    ensures
        r is Ok <==> all_normalizable(bytes@.subrange(start as int, end as int)),
        r is Err ==> r == Err::<(), StorageError>(StorageError::InvalidShortName),
        r is Ok ==> forall|i: int| 0 <= i < 11 ==> #[trigger] final(out)@[i]
            == if at <= i < at + (end - start) { spec_normalize_fat_byte(bytes@[start + i - at]).unwrap() } else { old(out)@[i] },
{
    let mut index: usize = 0;
    while index < end - start
        invariant
            start <= end <= bytes@.len(),
            at + (end - start) <= 11,
            out@.len() == 11,
            index <= end - start,
            all_normalizable(bytes@.subrange(start as int, start + index)),
            forall|i: int| 0 <= i < 11 ==> #[trigger] out@[i]
                == if at <= i < at + index { spec_normalize_fat_byte(bytes@[start + i - at]).unwrap() } else { old(out)@[i] },
        decreases end - start - index,
    {
        let byte = match normalize_fat_byte(bytes[start + index]) {
            Ok(byte) => byte,
            Err(error) => {
                proof {
                    let s = bytes@.subrange(start as int, end as int);
                    assert(s[index as int] == bytes@[start + index]);
                }
                return Err(error);
            },
        };
        out[at + index] = byte;
        proof {
            let s = bytes@.subrange(start as int, start + index + 1);
            assert forall|i: int| 0 <= i < s.len() implies #[trigger] spec_normalize_fat_byte(s[i]) is Some by {
                if i < index {
                    assert(s[i] == bytes@.subrange(start as int, start + index)[i]);
                }
            }
        }
        index += 1;
    }
    Ok(())
}

/// Encodes one path component as an 11-byte FAT short name.
pub fn make_short_name(component: &str) -> (r: Result<[u8; 11], StorageError>)
    ensures
        match spec_short_name(component.spec_bytes()) {
            Some(name) => r is Ok && r.unwrap()@ == name,
            None => r == Err::<[u8; 11], StorageError>(StorageError::InvalidShortName),
        },
{
    short_name_of(component.as_bytes())
}

/// Encodes the bytes of one path component as an 11-byte FAT short name.
pub fn short_name_of(bytes: &[u8]) -> (r: Result<[u8; 11], StorageError>)
    ensures
        match spec_short_name(bytes@) {
            Some(name) => r is Ok && r.unwrap()@ == name,
            None => r == Err::<[u8; 11], StorageError>(StorageError::InvalidShortName),
        },
{
    let mut short_name = [SPACE; 11];
    let dot = find_dot(bytes, 0);
    let ghost c = bytes@;
    proof {
        match dot {
            Some(d) => {
                assert(c.contains(DOT));
                let w = choose|i: int| 0 <= i < c.len() && c[i] == DOT && forall|j: int| 0 <= j < i ==> c[j] != DOT;
                if w < d {
                    assert(c[w] != DOT);
                } else if w > d {
                    assert(c[d as int] != DOT);
                }
            },
            None => {
                assert(!c.contains(DOT));
            },
        }
    }
    let name_end = match dot {
        Some(d) => d,
        None => bytes.len(),
    };
    if name_end == 0 || name_end > 8 {
        return Err(StorageError::InvalidShortName);
    }
    match dot {
        Some(d) => {
            let second = find_dot(bytes, d + 1);
            if second.is_some() {
                proof {
                    let e = c.skip(d + 1);
                    assert(e[second.unwrap() - d - 1] == DOT);
                }
                return Err(StorageError::InvalidShortName);
            }
            let extension_len = bytes.len() - d - 1;
            if extension_len == 0 || extension_len > 3 {
                return Err(StorageError::InvalidShortName);
            }
            proof {
                let e = c.skip(d + 1);
                assert(!e.contains(DOT)) by {
                    if e.contains(DOT) {
                        let k = choose|k: int| 0 <= k < e.len() && e[k] == DOT;
                        assert(c[d + 1 + k] == DOT);
                    }
                }
                assert(c.take(d as int) =~= c.subrange(0, d as int));
                assert(e =~= c.subrange(d + 1, c.len() as int));
            }
            match fill_field(&mut short_name, 0, bytes, 0, d) {
                Ok(()) => {},
                Err(error) => return Err(error),
            }
            match fill_field(&mut short_name, 8, bytes, d + 1, bytes.len()) {
                Ok(()) => {},
                Err(error) => return Err(error),
            }
            proof {
                let expected = padded_field(c.take(d as int), 8) + padded_field(c.skip(d + 1), 3);
                assert(short_name@ =~= expected);
            }
        },
        None => {
            match fill_field(&mut short_name, 0, bytes, 0, bytes.len()) {
                Ok(()) => {},
                Err(error) => {
                    assert(c.subrange(0, c.len() as int) =~= c);
                    return Err(error);
                },
            }
            proof {
                assert(c.subrange(0, c.len() as int) =~= c);
                let expected = padded_field(c, 8) + padded_field(Seq::empty(), 3);
                assert(short_name@ =~= expected);
            }
        },
    }
    Ok(short_name)
}

/// Length of `s` without its trailing spaces.
pub open spec fn trimmed_len(s: Seq<u8>) -> int
    decreases s.len(),
{
    if s.len() == 0 {
        0
    } else if s.last() == SPACE {
        trimmed_len(s.drop_last())
    } else {
        s.len() as int
    }
}

/// The printable form of an 11-byte directory name: the name without its
/// padding, then a dot and the extension when there is one.
pub open spec fn spec_display_name(entry: Seq<u8>) -> Seq<u8> {
    let name = entry.take(trimmed_len(entry.take(8)));
    let extension = entry.subrange(8, 8 + trimmed_len(entry.subrange(8, 11)));
    if extension.len() == 0 { name } else { name + seq![DOT] + extension }
}

/// A short name laid out for printing.
pub struct DisplayShortName {
    pub bytes: [u8; 12],
    pub len: usize,
}

impl DisplayShortName {
    pub open spec fn text(&self) -> Seq<u8> {
        self.bytes@.take(self.len as int)
    }
}

proof fn lemma_trimmed_len_bounds(s: Seq<u8>)
    ensures
        0 <= trimmed_len(s) <= s.len(),
        forall|i: int| trimmed_len(s) <= i < s.len() ==> #[trigger] s[i] == SPACE,
        trimmed_len(s) > 0 ==> s[trimmed_len(s) - 1] != SPACE,
    decreases s.len(),
{
    if s.len() > 0 && s.last() == SPACE {
        lemma_trimmed_len_bounds(s.drop_last());
        assert forall|i: int| trimmed_len(s) <= i < s.len() implies #[trigger] s[i] == SPACE by {
            if i < s.len() - 1 {
                assert(s.drop_last()[i] == s[i]);
            }
        }
        if trimmed_len(s) > 0 {
            assert(s.drop_last()[trimmed_len(s) - 1] == s[trimmed_len(s) - 1]);
        }
    }
}

/// Counts the bytes of `field` (at `start`, `width` long) before its space padding.
fn field_len(entry: &[u8], start: usize, width: usize) -> (r: usize)
    requires
        start + width <= entry@.len(),
    ensures
        r == trimmed_len(entry@.subrange(start as int, start + width)),
{
    let ghost field = entry@.subrange(start as int, start + width);
    let n = entry.len();
    let mut len = width;
    assert(field.take(width as int) =~= field);
    while len > 0 && entry[start + len - 1] == SPACE
        invariant
            start + width <= entry@.len(),
            n == entry@.len(),
            len <= width,
            field == entry@.subrange(start as int, start + width),
            trimmed_len(field) == trimmed_len(field.take(len as int)),
        decreases len,
    {
        proof {
            let t = field.take(len as int);
            assert(t.last() == SPACE);
            assert(t.drop_last() =~= field.take(len - 1));
        }
        len -= 1;
    }
    proof {
        let t = field.take(len as int);
        if len > 0 {
            assert(t.last() == entry@[start + len - 1]);
        }
        assert(field.take(width as int) =~= field);
    }
    len
}

/// Formats an 11-byte directory name for printing.
pub fn display_short_name(entry: &[u8]) -> (r: DisplayShortName)
    requires
        entry@.len() >= 11,
    ensures
        r.len <= 12,
        r.text() == spec_display_name(entry@.take(11)),
{
    let ghost e = entry@.take(11);
    let name_len = field_len(entry, 0, 8);
    let extension_len = field_len(entry, 8, 3);
    proof {
        assert(entry@.subrange(0, 8) =~= e.take(8));
        assert(entry@.subrange(8, 11) =~= e.subrange(8, 11));
        lemma_trimmed_len_bounds(e.take(8));
        lemma_trimmed_len_bounds(e.subrange(8, 11));
    }
    let mut bytes = [0u8; 12];
    let mut len: usize = 0;
    while len < name_len
        invariant
            entry@.len() >= 11,
            name_len <= 8,
            len <= name_len,
            bytes@.len() == 12,
            forall|i: int| 0 <= i < len ==> #[trigger] bytes@[i] == entry@[i],
        decreases name_len - len,
    {
        bytes[len] = entry[len];
        len += 1;
    }
    if extension_len != 0 {
        bytes[len] = DOT;
        len += 1;
        let mut index: usize = 0;
        while index < extension_len
            invariant
                entry@.len() >= 11,
                name_len <= 8,
                extension_len <= 3,
                len == name_len + 1 + index,
                index <= extension_len,
                bytes@.len() == 12,
                forall|i: int| 0 <= i < name_len ==> #[trigger] bytes@[i] == entry@[i],
                bytes@[name_len as int] == DOT,
                forall|i: int| 0 <= i < index ==> #[trigger] bytes@[name_len + 1 + i] == entry@[8 + i],
            decreases extension_len - index,
        {
            bytes[len] = entry[8 + index];
            len += 1;
            index += 1;
        }
    }
    let r = DisplayShortName { bytes, len };
    proof {
        let name = e.take(name_len as int);
        let extension = e.subrange(8, 8 + extension_len);
        if extension_len == 0 {
            assert(r.text() =~= name);
        } else {
            let expected = name + seq![DOT] + extension;
            assert(expected.len() == r.text().len());
            assert forall|i: int| 0 <= i < expected.len() implies #[trigger] r.text()[i] == expected[i] by {
                if i < name_len {
                    assert(expected[i] == name[i]);
                } else if i == name_len {
                    assert(expected[i] == DOT);
                } else {
                    assert(expected[i] == extension[i - name_len - 1]);
                    assert(bytes@[name_len + 1 + (i - name_len - 1)] == entry@[8 + (i - name_len - 1)]);
                }
            }
            assert(r.text() =~= expected);
        }
    }
    r
}

/// Whether a displayed name is `.` or `..`.
pub open spec fn spec_is_dot_name(name: Seq<u8>) -> bool {
    name == seq![DOT] || name == seq![DOT, DOT]
}

/// Whether a displayed name is one of the `.` and `..` entries.
pub fn is_dot_entry(name: &DisplayShortName) -> (r: bool)
    requires
        name.len <= 12,
    ensures
        r == spec_is_dot_name(name.text()),
{
    let r = (name.len == 1 && name.bytes[0] == DOT) || (name.len == 2 && name.bytes[0] == DOT && name.bytes[1] == DOT);
    proof {
        if name.len == 1 && name.bytes@[0] == DOT {
            assert(name.text() =~= seq![DOT]);
        }
        if name.len == 2 && name.bytes@[0] == DOT && name.bytes@[1] == DOT {
            assert(name.text() =~= seq![DOT, DOT]);
        }
        if spec_is_dot_name(name.text()) {
            assert(name.text().len() == name.len);
            assert(name.text()[0] == name.bytes@[0]);
        }
    }
    r
}


/// One directory record as the reader uses it.
#[derive(Clone, Copy, Debug, PartialEq, Eq, Structural)]
pub struct FatDirectoryEntry {
    pub first_cluster: u32,
    pub size: u32,
    pub is_directory: bool,
}

/// What a path names.
#[derive(Clone, Copy, Debug, PartialEq, Eq, Structural)]
pub enum FatResolvedPath {
    RootDirectory,
    Directory(u32),
    File(FatDirectoryEntry),
}

/// The entry a 32-byte directory record describes.
pub open spec fn spec_record_entry(record: Seq<u8>) -> FatDirectoryEntry {
    FatDirectoryEntry {
        first_cluster: ((spec_le_u16(record.subrange(20, 22)) as u32) << 16u32) | (spec_le_u16(record.subrange(26, 28)) as u32),
        size: spec_le_u32(record.subrange(28, 32)) as u32,
        is_directory: record[11] & FAT_ATTRIBUTE_DIRECTORY != 0,
    }
}

/// How a 32-byte FAT32 short directory record is read: it names a
/// directory exactly when the directory bit (0x10) of its attribute byte at
/// offset 11 is set; its first cluster has its high 16 bits at offsets 20-21
/// and its low 16 bits at offsets 26-27, and its size is at offsets 28-31,
/// all little-endian.
pub proof fn lemma_record_format(rec: Seq<u8>)
    requires
        rec.len() == 32,
    ensures
        spec_record_entry(rec).is_directory <==> rec[11] & 0x10u8 != 0,
        spec_record_entry(rec).first_cluster == (rec[20] + rec[21] * 0x100) * 0x1_0000 + rec[26] + rec[27] * 0x100,
        spec_record_entry(rec).size == rec[28] + rec[29] * 0x100 + rec[30] * 0x1_0000 + rec[31] * 0x100_0000,
{
    let high = spec_le_u16(rec.subrange(20, 22)) as u32;
    let low = spec_le_u16(rec.subrange(26, 28)) as u32;
    assert(rec.subrange(20, 22)[0] == rec[20] && rec.subrange(20, 22)[1] == rec[21]);
    assert(rec.subrange(26, 28)[0] == rec[26] && rec.subrange(26, 28)[1] == rec[27]);
    assert(rec.subrange(28, 32)[0] == rec[28] && rec.subrange(28, 32)[1] == rec[29]);
    assert(rec.subrange(28, 32)[2] == rec[30] && rec.subrange(28, 32)[3] == rec[31]);
    crate::util::lemma_bit_facts(0, high, low, 0);
}

/// Record `k` (of sixteen) of a directory sector.
pub open spec fn record(sector: Seq<u8>, k: int) -> Seq<u8> {
    sector.subrange(32 * k, 32 * k + 32)
}

/// A record that names a file or directory: in use, and neither a long-name
/// fragment nor the volume label.
pub open spec fn names_object(rec: Seq<u8>) -> bool {
    rec[0] != 0 && rec[0] != 0xe5 && rec[11] != FAT_ATTRIBUTE_LONG_NAME && rec[11] & FAT_ATTRIBUTE_VOLUME_ID == 0
}

/// Outcome of scanning one directory sector.
#[derive(Clone, Copy, Debug, PartialEq, Eq, Structural)]
pub enum SectorScan {
    /// A free record marks the end of the directory.
    End,
    Found(FatDirectoryEntry),
    /// The directory goes on past this sector.
    NotHere,
}

/// Scans records `k..16` of a directory sector for `short_name`.
pub open spec fn scan_records(sector: Seq<u8>, short_name: Seq<u8>, k: int) -> SectorScan
    decreases 16 - k,
{
    if k >= 16 || k < 0 {
        SectorScan::NotHere
    } else {
        let rec = record(sector, k);
        if rec[0] == 0 {
            SectorScan::End
        } else if names_object(rec) && rec.take(11) == short_name {
            SectorScan::Found(spec_record_entry(rec))
        } else {
            scan_records(sector, short_name, k + 1)
        }
    }
}

fn parse_record(sector: &[u8], offset: usize) -> (r: FatDirectoryEntry)
    requires
        offset + 32 <= sector@.len(),
    ensures
        r == spec_record_entry(sector@.subrange(offset as int, offset + 32)),
{
    let _n = sector.len();
    let rec = vstd::slice::slice_subrange(sector, offset, offset + 32);
    let high = le_u16_from_bytes(rec, 20) as u32;
    let low = le_u16_from_bytes(rec, 26) as u32;
    FatDirectoryEntry {
        first_cluster: (high << 16u32) | low,
        size: le_u32_from_bytes(rec, 28),
        is_directory: rec[11] & FAT_ATTRIBUTE_DIRECTORY != 0,
    }
}

/// Looks for `short_name` in one directory sector.
pub fn scan_sector(sector: &[u8], short_name: &[u8; 11]) -> (r: SectorScan)
    requires
        sector@.len() == SECTOR_SIZE,
    ensures
        r == scan_records(sector@, short_name@, 0),
{
    let mut k: usize = 0;
    while k < 16
        invariant
            sector@.len() == SECTOR_SIZE,
            k <= 16,
            scan_records(sector@, short_name@, 0) == scan_records(sector@, short_name@, k as int),
        decreases 16 - k,
    {
        let offset = k * FAT_DIRECTORY_ENTRY_SIZE;
        let ghost rec = record(sector@, k as int);
        assert(rec =~= sector@.subrange(offset as int, offset + 32));
        let first_byte = sector[offset];
        if first_byte == 0 {
            return SectorScan::End;
        }
        let attributes = sector[offset + 11];
        if first_byte != 0xe5 && attributes != FAT_ATTRIBUTE_LONG_NAME && attributes & FAT_ATTRIBUTE_VOLUME_ID == 0 {
            let mut same = true;
            let mut i: usize = 0;
            while i < 11
                invariant
                    sector@.len() == SECTOR_SIZE,
                    offset + 32 <= SECTOR_SIZE,
                    i <= 11,
                    same <==> forall|j: int| 0 <= j < i ==> #[trigger] sector@[offset + j] == short_name@[j],
                decreases 11 - i,
            {
                if sector[offset + i] != short_name[i] {
                    same = false;
                }
                i += 1;
            }
            proof {
                if same {
                    assert forall|j: int| 0 <= j < 11 implies #[trigger] rec.take(11)[j] == short_name@[j] by {
                        assert(rec[j] == sector@[offset + j]);
                    }
                    assert(rec.take(11) =~= short_name@);
                } else {
                    let j = choose|j: int| 0 <= j < 11 && sector@[offset + j] != short_name@[j];
                    assert(rec.take(11)[j] != short_name@[j]);
                }
            }
            if same {
                return SectorScan::Found(parse_record(sector, offset));
            }
        }
        k += 1;
    }
    SectorScan::NotHere
}

/// The names a directory sector lists, records `k..16`, and whether a free
/// record ended the directory there.
pub open spec fn listed_names(sector: Seq<u8>, k: int) -> (Seq<u8>, bool)
    decreases 16 - k,
{
    if k >= 16 || k < 0 {
        (Seq::empty(), false)
    } else {
        let rec = record(sector, k);
        if rec[0] == 0 {
            (Seq::empty(), true)
        } else {
            let rest = listed_names(sector, k + 1);
            let name = spec_display_name(rec.take(11));
            if names_object(rec) && !spec_is_dot_name(name) {
                (name + seq![0x0au8] + rest.0, rest.1)
            } else {
                rest
            }
        }
    }
}

/// FAT32 volume geometry.
#[derive(Clone, Copy, Debug, PartialEq, Eq, Structural)]
pub struct Fat32 {
    pub partition_start_lba: u64,
    pub partition_sector_count: u64,
    pub sectors_per_cluster: u8,
    pub reserved_sector_count: u16,
    pub root_cluster: u32,
    pub first_data_sector: u64,
}

/// The volume a boot sector describes, if it is a supported FAT32 one.
pub open spec fn spec_mount(s: Seq<u8>, partition: GptPartition) -> Option<Fat32> {
    spec_mount_range(s, partition.start_lba, partition.sector_count)
}

/// The volume that boot sector `s` describes, for a partition of
/// `sector_count` sectors from `start_lba`, if the sector is acceptable.
pub open spec fn spec_mount_range(s: Seq<u8>, start_lba: u64, sector_count: u64) -> Option<Fat32> {
    let bytes_per_sector = spec_le_u16(s.subrange(11, 13));
    let sectors_per_cluster = s[13];
    let reserved = spec_le_u16(s.subrange(14, 16));
    let fat_count = s[16];
    let root_entries = spec_le_u16(s.subrange(17, 19));
    let total_16 = spec_le_u16(s.subrange(19, 21));
    let fat_size_16 = spec_le_u16(s.subrange(22, 24));
    let total_32 = spec_le_u32(s.subrange(32, 36));
    let sectors_per_fat = spec_le_u32(s.subrange(36, 40));
    let root_cluster = spec_le_u32(s.subrange(44, 48));
    let total = if total_16 != 0 { total_16 } else { total_32 };
    let first_data = start_lba + reserved + fat_count * sectors_per_fat;
    if bytes_per_sector != 512 || sectors_per_cluster == 0 || reserved == 0 || fat_count == 0 || root_entries != 0
        || fat_size_16 != 0 || sectors_per_fat == 0 || total == 0 || total > sector_count
        || first_data > u64::MAX {
        None
    } else {
        Some(Fat32 {
            partition_start_lba: start_lba,
            partition_sector_count: sector_count,
            sectors_per_cluster,
            reserved_sector_count: reserved as u16,
            root_cluster: root_cluster as u32,
            first_data_sector: first_data as u64,
        })
    }
}

impl Fat32 {
    /// Reads and checks the boot sector at the start of `partition`.
    pub fn mount(device: &BlockDevice, partition: GptPartition) -> (r: Result<Self, StorageError>)
        ensures
            partition.start_lba >= device.sector_count() ==> r == Err::<Self, StorageError>(StorageError::AhciTaskFileError),
            partition.start_lba < device.sector_count() ==> match spec_mount(device.sector(partition.start_lba as int), partition) {
                Some(fs) => r == Ok::<Self, StorageError>(fs),
                None => r == Err::<Self, StorageError>(StorageError::InvalidFat32BootSector),
            },
    {
        let mut sector = [0u8; SECTOR_SIZE];
        match device.read_sector(partition.start_lba, &mut sector) {
            Ok(()) => {},
            Err(error) => return Err(error),
        }
        let bytes_per_sector = le_u16_from_bytes(&sector, 11);
        let sectors_per_cluster = sector[13];
        let reserved_sector_count = le_u16_from_bytes(&sector, 14);
        let fat_count = sector[16];
        let root_entry_count = le_u16_from_bytes(&sector, 17);
        let total_sectors_16 = le_u16_from_bytes(&sector, 19);
        let fat_size_16 = le_u16_from_bytes(&sector, 22);
        let total_sectors_32 = le_u32_from_bytes(&sector, 32);
        let sectors_per_fat = le_u32_from_bytes(&sector, 36);
        let root_cluster = le_u32_from_bytes(&sector, 44);
        if bytes_per_sector != SECTOR_SIZE as u16 || sectors_per_cluster == 0 || reserved_sector_count == 0 || fat_count == 0
            || root_entry_count != 0 || fat_size_16 != 0 || sectors_per_fat == 0 {
            return Err(StorageError::InvalidFat32BootSector);
        }
        let total_sectors = if total_sectors_16 != 0 { total_sectors_16 as u64 } else { total_sectors_32 as u64 };
        if total_sectors == 0 || total_sectors > partition.sector_count {
            return Err(StorageError::InvalidFat32BootSector);
        }
        assert(fat_count as u64 * sectors_per_fat as u64 <= 0xff * 0xffff_ffff) by (nonlinear_arith)
            requires
                fat_count <= 0xff,
                sectors_per_fat <= 0xffff_ffff,
        ;
        let fat_sectors = fat_count as u64 * sectors_per_fat as u64;
        let first_data_sector = match partition.start_lba.checked_add(reserved_sector_count as u64) {
            Some(v) => match v.checked_add(fat_sectors) {
                Some(v) => v,
                None => return Err(StorageError::InvalidFat32BootSector),
            },
            None => return Err(StorageError::InvalidFat32BootSector),
        };
        Ok(Fat32 {
            partition_start_lba: partition.start_lba,
            partition_sector_count: partition.sector_count,
            sectors_per_cluster,
            reserved_sector_count,
            root_cluster,
            first_data_sector,
        })
    }

    /// First sector of data cluster `cluster`, when it lies in the partition.
    pub open spec fn spec_cluster_lba(&self, cluster: u32) -> Option<int> {
        let lba = self.first_data_sector + (cluster - 2) * self.sectors_per_cluster;
        if cluster < 2 || lba >= self.partition_start_lba + self.partition_sector_count || lba > u64::MAX {
            None
        } else {
            Some(lba)
        }
    }

    /// First sector of data cluster `cluster`.
    pub fn cluster_to_lba(&self, cluster: u32) -> (r: Result<u64, StorageError>)
        ensures
            match self.spec_cluster_lba(cluster) {
                Some(lba) => r == Ok::<u64, StorageError>(lba as u64),
                None => r == Err::<u64, StorageError>(StorageError::InvalidFat32BootSector),
            },
    {
        if cluster < 2 {
            return Err(StorageError::InvalidFat32BootSector);
        }
        assert((cluster - 2) as u64 * self.sectors_per_cluster as u64 <= 0xffff_ffff * 0xff) by (nonlinear_arith)
            requires
                2 <= cluster <= 0xffff_ffff,
                self.sectors_per_cluster <= 0xff,
        ;
        let offset = (cluster as u64 - 2) * self.sectors_per_cluster as u64;
        let end = self.partition_start_lba as u128 + self.partition_sector_count as u128;
        if self.first_data_sector as u128 + offset as u128 >= end {
            return Err(StorageError::InvalidFat32BootSector);
        }
        match self.first_data_sector.checked_add(offset) {
            Some(lba) => Ok(lba),
            None => Err(StorageError::InvalidFat32BootSector),
        }
    }

    /// Sector of the FAT holding the entry of `cluster`, and the entry's offset in it.
    pub open spec fn fat_position(&self, cluster: u32) -> (int, int) {
        (self.partition_start_lba + self.reserved_sector_count + (cluster * 4) / 512, (cluster * 4) % 512)
    }

    /// The link the FAT stores for `cluster`.
    pub open spec fn spec_next_cluster(&self, device: &BlockDevice, cluster: u32) -> Result<u32, StorageError> {
        let (lba, offset) = self.fat_position(cluster);
        if lba >= device.sector_count() {
            Err(StorageError::AhciTaskFileError)
        } else {
            let e = (spec_le_u32(device.sector(lba).subrange(offset, offset + 4)) as u32) & 0x0fff_ffffu32;
            if e == FAT_ENTRY_BAD_CLUSTER || e < 2 {
                Err(StorageError::InvalidFat32BootSector)
            } else if e >= FAT_ENTRY_END_OF_CHAIN {
                Err(StorageError::FileNotFound)
            } else {
                Ok(e)
            }
        }
    }

    /// The cluster after `cluster` in its chain. The end of the chain is
    /// reported as `FileNotFound`; a bad or reserved link as a broken volume.
    #[verifier::rlimit(40)]
    pub fn next_cluster(&self, device: &BlockDevice, cluster: u32) -> (r: Result<u32, StorageError>)
        ensures
            r == self.spec_next_cluster(device, cluster),
    {
        let fat_offset = cluster as u64 * 4;
        let lba = match self.partition_start_lba.checked_add(self.reserved_sector_count as u64) {
            Some(v) => v.checked_add(fat_offset / 512),
            None => None,
        };
        let lba = match lba {
            Some(lba) => lba,
            None => {
                let _total = device.total_sectors();
                return Err(StorageError::AhciTaskFileError);
            },
        };
        let sector_offset = (fat_offset % 512) as usize;
        let mut sector = [0u8; SECTOR_SIZE];
        match device.read_sector(lba, &mut sector) {
            Ok(()) => {},
            Err(error) => return Err(error),
        }
        let entry = le_u32_from_bytes(&sector, sector_offset) & 0x0fff_ffffu32;
        if entry == FAT_ENTRY_BAD_CLUSTER || entry < 2 {
            return Err(StorageError::InvalidFat32BootSector);
        }
        if entry >= FAT_ENTRY_END_OF_CHAIN {
            return Err(StorageError::FileNotFound);
        }
        Ok(entry)
    }
}


impl Fat32 {
    /// Looks `short_name` up in the directory starting at `cluster`, following
    /// at most `steps` clusters of its chain.
    pub open spec fn lookup_chain(&self, device: &BlockDevice, cluster: u32, short_name: Seq<u8>, steps: int)
        -> Result<FatDirectoryEntry, StorageError>
        decreases steps, 300int,
    {
        if steps <= 0 {
            Err(StorageError::InvalidFat32BootSector)
        } else {
            match self.spec_cluster_lba(cluster) {
                None => Err(StorageError::InvalidFat32BootSector),
                Some(lba) => self.lookup_sectors(device, cluster, lba, short_name, 0, steps),
            }
        }
    }

    /// The same lookup from sector `i` of the cluster at `lba` on.
    pub open spec fn lookup_sectors(&self, device: &BlockDevice, cluster: u32, lba: int, short_name: Seq<u8>, i: int, steps: int)
        -> Result<FatDirectoryEntry, StorageError>
        decreases steps, self.sectors_per_cluster - i,
    {
        if steps <= 0 {
            Err(StorageError::InvalidFat32BootSector)
        } else if i >= self.sectors_per_cluster {
            match self.spec_next_cluster(device, cluster) {
                Err(error) => Err(error),
                Ok(next) => self.lookup_chain(device, next, short_name, steps - 1),
            }
        } else if lba + i >= device.sector_count() {
            Err(StorageError::AhciTaskFileError)
        } else {
            match scan_records(device.sector(lba + i), short_name, 0) {
                SectorScan::End => Err(StorageError::FileNotFound),
                SectorScan::Found(entry) => Ok(entry),
                SectorScan::NotHere => self.lookup_sectors(device, cluster, lba, short_name, i + 1, steps),
            }
        }
    }

    /// Finds `component` in the directory starting at `start_cluster`.
    /// A chain longer than the partition has sectors can only be a loop and
    /// is reported as a broken volume.
    pub fn find_in_directory(&self, device: &BlockDevice, start_cluster: u32, component: &[u8])
        -> (r: Result<FatDirectoryEntry, StorageError>)
        ensures
            match spec_short_name(component@) {
                None => r == Err::<FatDirectoryEntry, StorageError>(StorageError::InvalidShortName),
                Some(short_name) => r == self.lookup_chain(device, start_cluster, short_name, self.partition_sector_count as int),
            },
    {
        let short_name = match short_name_of(component) {
            Ok(short_name) => short_name,
            Err(error) => return Err(error),
        };
        let ghost goal = self.lookup_chain(device, start_cluster, short_name@, self.partition_sector_count as int);
        let mut cluster = start_cluster;
        let mut steps: u64 = self.partition_sector_count;
        let mut sector = [0u8; SECTOR_SIZE];
        while steps > 0
            invariant
                sector@.len() == SECTOR_SIZE,
                spec_short_name(component@) == Some(short_name@),
                goal == self.lookup_chain(device, start_cluster, short_name@, self.partition_sector_count as int),
                goal == self.lookup_chain(device, cluster, short_name@, steps as int),
            decreases steps,
        {
            let lba = match self.cluster_to_lba(cluster) {
                Ok(lba) => lba,
                Err(error) => return Err(error),
            };
            let mut index: u8 = 0;
            while index < self.sectors_per_cluster
                invariant
                    sector@.len() == SECTOR_SIZE,
                    spec_short_name(component@) == Some(short_name@),
                    goal == self.lookup_chain(device, start_cluster, short_name@, self.partition_sector_count as int),
                    steps > 0,
                    self.spec_cluster_lba(cluster) == Some(lba as int),
                    goal == self.lookup_sectors(device, cluster, lba as int, short_name@, index as int, steps as int),
                decreases self.sectors_per_cluster - index,
            {
                let at = match lba.checked_add(index as u64) {
                    Some(at) => at,
                    None => {
                        let _total = device.total_sectors();
                        return Err(StorageError::AhciTaskFileError);
                    },
                };
                match device.read_sector(at, &mut sector) {
                    Ok(()) => {},
                    Err(error) => return Err(error),
                }
                match scan_sector(&sector, &short_name) {
                    SectorScan::End => return Err(StorageError::FileNotFound),
                    SectorScan::Found(entry) => return Ok(entry),
                    SectorScan::NotHere => {},
                }
                index += 1;
            }
            cluster = match self.next_cluster(device, cluster) {
                Ok(next) => next,
                Err(error) => return Err(error),
            };
            steps -= 1;
        }
        Err(StorageError::InvalidFat32BootSector)
    }
}


/// Position of the first byte at or after `i` that is not a slash.
pub open spec fn skip_slashes(p: Seq<u8>, i: int) -> int
    decreases p.len() - i,
{
    if 0 <= i < p.len() && p[i] == 0x2f { skip_slashes(p, i + 1) } else { i }
}

/// End of the path component starting at `i`: the next slash or the end.
pub open spec fn component_end(p: Seq<u8>, i: int) -> int
    decreases p.len() - i,
{
    if 0 <= i < p.len() && p[i] != 0x2f { component_end(p, i + 1) } else { i }
}

pub proof fn lemma_skip_slashes(p: Seq<u8>, i: int)
    requires
        0 <= i <= p.len(),
    ensures
        i <= skip_slashes(p, i) <= p.len(),
        forall|k: int| i <= k < skip_slashes(p, i) ==> #[trigger] p[k] == 0x2f,
        skip_slashes(p, i) < p.len() ==> p[skip_slashes(p, i)] != 0x2f,
    decreases p.len() - i,
{
    if i < p.len() && p[i] == 0x2f {
        lemma_skip_slashes(p, i + 1);
    }
}

pub proof fn lemma_component_end(p: Seq<u8>, i: int)
    requires
        0 <= i <= p.len(),
    ensures
        i <= component_end(p, i) <= p.len(),
        forall|k: int| i <= k < component_end(p, i) ==> #[trigger] p[k] != 0x2f,
        component_end(p, i) < p.len() ==> p[component_end(p, i)] == 0x2f,
    decreases p.len() - i,
{
    if i < p.len() && p[i] != 0x2f {
        lemma_component_end(p, i + 1);
    }
}

fn skip_slash_bytes(p: &[u8], i: usize) -> (r: usize)
    requires
        i <= p@.len(),
    ensures
        r == skip_slashes(p@, i as int),
{
    let mut k = i;
    while k < p.len() && p[k] == 0x2f
        invariant
            i <= k <= p@.len(),
            skip_slashes(p@, i as int) == skip_slashes(p@, k as int),
        decreases p@.len() - k,
    {
        k += 1;
    }
    k
}

fn component_end_bytes(p: &[u8], i: usize) -> (r: usize)
    requires
        i <= p@.len(),
    ensures
        r == component_end(p@, i as int),
{
    let mut k = i;
    while k < p.len() && p[k] != 0x2f
        invariant
            i <= k <= p@.len(),
            component_end(p@, i as int) == component_end(p@, k as int),
        decreases p@.len() - k,
    {
        k += 1;
    }
    k
}

impl Fat32 {
    /// Resolves the components of `p` from position `s` (the start of a
    /// component) on, inside the directory starting at `cluster`.
    pub open spec fn walk(&self, device: &BlockDevice, cluster: u32, p: Seq<u8>, s: int) -> Result<FatResolvedPath, StorageError>
        decreases p.len() - s,
    {
        if s < 0 || s >= p.len() {
            Err(StorageError::FileNotFound)
        } else {
            let e = component_end(p, s);
            match spec_short_name(p.subrange(s, e)) {
                None => Err(StorageError::InvalidShortName),
                Some(short_name) => match self.lookup_chain(device, cluster, short_name, self.partition_sector_count as int) {
                    Err(error) => Err(error),
                    Ok(entry) => {
                        let t = skip_slashes(p, e);
                        if t >= p.len() {
                            if entry.is_directory { Ok(FatResolvedPath::Directory(entry.first_cluster)) } else { Ok(FatResolvedPath::File(entry)) }
                        } else if !entry.is_directory {
                            Err(StorageError::FileNotFound)
                        } else {
                            proof {
                                lemma_component_end(p, s);
                                lemma_skip_slashes(p, e);
                            }
                            self.walk(device, entry.first_cluster, p, t)
                        }
                    },
                },
            }
        }
    }

    /// What an absolute path names on the volume.
    pub open spec fn spec_resolve(&self, device: &BlockDevice, p: Seq<u8>) -> Result<FatResolvedPath, StorageError> {
        if p.len() == 0 || p[0] != 0x2f {
            Err(StorageError::PathNotAbsolute)
        } else if skip_slashes(p, 0) >= p.len() {
            Ok(FatResolvedPath::RootDirectory)
        } else {
            self.walk(device, self.root_cluster, p, skip_slashes(p, 0))
        }
    }

    /// Resolves an absolute path component by component.
    pub fn resolve_absolute(&self, device: &BlockDevice, path: &str) -> (r: Result<FatResolvedPath, StorageError>)
        ensures
            r == self.spec_resolve(device, path.spec_bytes()),
    {
        let p = path.as_bytes();
        if p.len() == 0 || p[0] != 0x2f {
            return Err(StorageError::PathNotAbsolute);
        }
        let mut s = skip_slash_bytes(p, 0);
        if s >= p.len() {
            return Ok(FatResolvedPath::RootDirectory);
        }
        let ghost goal = self.spec_resolve(device, p@);
        let mut cluster = self.root_cluster;
        proof {
            lemma_skip_slashes(p@, 0);
        }
        loop
            invariant
                p@ == path.spec_bytes(),
                0 <= s < p@.len(),
                goal == self.spec_resolve(device, p@),
                goal == self.walk(device, cluster, p@, s as int),
            decreases p@.len() - s,
        {
            let e = component_end_bytes(p, s);
            proof {
                lemma_component_end(p@, s as int);
            }
            let component = vstd::slice::slice_subrange(p, s, e);
            let entry = match self.find_in_directory(device, cluster, component) {
                Ok(entry) => entry,
                Err(error) => return Err(error),
            };
            let t = skip_slash_bytes(p, e);
            proof {
                lemma_skip_slashes(p@, e as int);
            }
            if t >= p.len() {
                if entry.is_directory {
                    return Ok(FatResolvedPath::Directory(entry.first_cluster));
                }
                return Ok(FatResolvedPath::File(entry));
            }
            if !entry.is_directory {
                return Err(StorageError::FileNotFound);
            }
            cluster = entry.first_cluster;
            s = t;
        }
    }

    /// The directory entry of the regular file at `path`.
    pub fn open_absolute(&self, device: &BlockDevice, path: &str) -> (r: Result<FatDirectoryEntry, StorageError>)
        ensures
            match self.spec_resolve(device, path.spec_bytes()) {
                Err(error) => r == Err::<FatDirectoryEntry, StorageError>(error),
                Ok(FatResolvedPath::File(entry)) => r == Ok::<FatDirectoryEntry, StorageError>(entry),
                Ok(_) => r == Err::<FatDirectoryEntry, StorageError>(StorageError::NotAFile),
            },
    {
        match self.resolve_absolute(device, path) {
            Ok(FatResolvedPath::File(entry)) => Ok(entry),
            Ok(FatResolvedPath::RootDirectory) => Err(StorageError::NotAFile),
            Ok(FatResolvedPath::Directory(_)) => Err(StorageError::NotAFile),
            Err(error) => Err(error),
        }
    }

    /// Succeeds when `path` names a directory.
    pub fn ensure_dir(&self, device: &BlockDevice, path: &str) -> (r: Result<(), StorageError>)
        ensures
            match self.spec_resolve(device, path.spec_bytes()) {
                Err(error) => r == Err::<(), StorageError>(error),
                Ok(FatResolvedPath::File(_)) => r == Err::<(), StorageError>(StorageError::NotADirectory),
                Ok(_) => r is Ok,
            },
    {
        match self.resolve_absolute(device, path) {
            Ok(FatResolvedPath::File(_)) => Err(StorageError::NotADirectory),
            Ok(FatResolvedPath::RootDirectory) => Ok(()),
            Ok(FatResolvedPath::Directory(_)) => Ok(()),
            Err(error) => Err(error),
        }
    }
}


/// Writes the listed names of one directory sector into `buffer` at
/// `written`; reports the new length and whether the directory ended.
fn list_sector(sector: &[u8], buffer: &mut [u8], written: usize) -> (r: Result<(usize, bool), StorageError>)
    requires
        sector@.len() == SECTOR_SIZE,
        written <= old(buffer)@.len(),
    ensures
        final(buffer)@.len() == old(buffer)@.len(),
        final(buffer)@.take(written as int) == old(buffer)@.take(written as int),
        ({
            let (names, ended) = listed_names(sector@, 0);
            if written + names.len() <= old(buffer)@.len() {
                r == Ok::<(usize, bool), StorageError>(((written + names.len()) as usize, ended))
                    && final(buffer)@.subrange(written as int, written + names.len()) == names
            } else {
                r == Err::<(usize, bool), StorageError>(StorageError::BufferTooSmall)
            }
        }),
{
    let ghost total = listed_names(sector@, 0);
    let blen = buffer.len();
    let mut at = written;
    let mut k: usize = 0;
    while k < 16
        invariant
            sector@.len() == SECTOR_SIZE,
            written <= at <= buffer@.len(),
            blen == buffer@.len(),
            buffer@.len() == old(buffer)@.len(),
            buffer@.take(written as int) == old(buffer)@.take(written as int),
            k <= 16,
            total == listed_names(sector@, 0),
            total.0 == buffer@.subrange(written as int, at as int) + listed_names(sector@, k as int).0,
            total.1 == listed_names(sector@, k as int).1,
        decreases 16 - k,
    {
        let offset = k * FAT_DIRECTORY_ENTRY_SIZE;
        let ghost rec = record(sector@, k as int);
        assert(rec =~= sector@.subrange(offset as int, offset + 32));
        let first_byte = sector[offset];
        if first_byte == 0 {
            assert(total.0 =~= buffer@.subrange(written as int, at as int));
            return Ok((at, true));
        }
        let attributes = sector[offset + 11];
        if first_byte != 0xe5 && attributes != FAT_ATTRIBUTE_LONG_NAME && attributes & FAT_ATTRIBUTE_VOLUME_ID == 0 {
            let record_bytes = vstd::slice::slice_subrange(sector, offset, offset + 32);
            let display_name = display_short_name(record_bytes);
            proof {
                assert(record_bytes@.take(11) =~= rec.take(11));
            }
            if !is_dot_entry(&display_name) {
                let len = display_name.len;
                if len + 1 > buffer.len() - at {
                    proof {
                        lemma_listed_len(sector@, k as int + 1);
                    }
                    return Err(StorageError::BufferTooSmall);
                }
                let ghost before = buffer@;
                let mut i: usize = 0;
                while i < len
                    invariant
                        len <= 12,
                        display_name.len == len,
                        at + len + 1 <= buffer@.len(),
                        blen == buffer@.len(),
                        buffer@.len() == before.len(),
                        i <= len,
                        forall|j: int| 0 <= j < buffer@.len() && !(at <= j < at + i) ==> #[trigger] buffer@[j] == before[j],
                        forall|j: int| 0 <= j < i ==> #[trigger] buffer@[at + j] == display_name.bytes@[j],
                    decreases len - i,
                {
                    buffer[at + i] = display_name.bytes[i];
                    i += 1;
                }
                let ghost mid = buffer@;
                buffer[at + len] = 0x0a;
                proof {
                    let name = display_name.text();
                    let expected = before.subrange(written as int, at as int) + name + seq![0x0au8];
                    assert forall|j: int| 0 <= j < expected.len() implies
                        #[trigger] buffer@.subrange(written as int, at + len + 1)[j] == expected[j] by {
                        if j < at - written {
                            assert(buffer@[written + j] == before[written + j]);
                        } else if j < at - written + len {
                            let jj = j - (at - written);
                            assert(mid[at + jj] == display_name.bytes@[jj]);
                            assert(buffer@[at + jj] == mid[at + jj]);
                        }
                    }
                    assert(buffer@.subrange(written as int, at + len + 1) =~= expected);
                    assert(buffer@.take(written as int) =~= before.take(written as int));
                }
                at = at + len + 1;
            }
        }
        k += 1;
    }
    assert(total.0 =~= buffer@.subrange(written as int, at as int));
    Ok((at, false))
}

/// Appending `names` after the kept prefix of a buffer.
proof fn lemma_take_extend(before: Seq<u8>, after: Seq<u8>, written: int, next: int, names: Seq<u8>)
    requires
        0 <= written <= next <= after.len(),
        after.len() == before.len(),
        after.take(written) == before.take(written),
        next == written + names.len(),
        after.subrange(written, next) == names,
    ensures
        after.take(next) == after.take(written) + names,
{
    assert(after.take(next) =~= after.take(written) + after.subrange(written, next));
}

/// The listing of records `k..16` never shrinks when started earlier.
proof fn lemma_listed_len(sector: Seq<u8>, k: int)
    requires
        0 <= k <= 16,
    ensures
        listed_names(sector, k).0.len() >= 0,
    decreases 16 - k,
{
}

impl Fat32 {
    /// The listing of the directory starting at `cluster` when at most `cap`
    /// more bytes fit, following at most `steps` clusters.
    pub open spec fn list_chain(&self, device: &BlockDevice, cluster: u32, cap: int, steps: int) -> Result<Seq<u8>, StorageError>
        decreases steps, 300int,
    {
        if steps <= 0 {
            Err(StorageError::InvalidFat32BootSector)
        } else {
            match self.spec_cluster_lba(cluster) {
                None => Err(StorageError::InvalidFat32BootSector),
                Some(lba) => self.list_sectors(device, cluster, lba, cap, 0, steps),
            }
        }
    }

    /// The same listing from sector `i` of the cluster at `lba` on.
    pub open spec fn list_sectors(&self, device: &BlockDevice, cluster: u32, lba: int, cap: int, i: int, steps: int)
        -> Result<Seq<u8>, StorageError>
        decreases steps, self.sectors_per_cluster - i,
    {
        if steps <= 0 {
            Err(StorageError::InvalidFat32BootSector)
        } else if i >= self.sectors_per_cluster {
            match self.spec_next_cluster(device, cluster) {
                Err(error) => Err(error),
                Ok(next) => self.list_chain(device, next, cap, steps - 1),
            }
        } else if lba + i >= device.sector_count() {
            Err(StorageError::AhciTaskFileError)
        } else {
            let (names, ended) = listed_names(device.sector(lba + i), 0);
            if names.len() > cap {
                Err(StorageError::BufferTooSmall)
            } else if ended {
                Ok(names)
            } else {
                match self.list_sectors(device, cluster, lba, cap - names.len(), i + 1, steps) {
                    Ok(rest) => Ok(names + rest),
                    Err(error) => Err(error),
                }
            }
        }
    }

    /// Lists the directory at `path` into `buffer`, one name per line,
    /// skipping `.` and `..`.
    pub fn read_dir(&self, device: &BlockDevice, path: &str, buffer: &mut [u8]) -> (r: Result<usize, StorageError>)
        ensures
            ({
                let listing = match self.spec_resolve(device, path.spec_bytes()) {
                    Err(error) => Err(error),
                    Ok(FatResolvedPath::File(_)) => Err(StorageError::NotADirectory),
                    Ok(FatResolvedPath::RootDirectory) =>
                        self.list_chain(device, self.root_cluster, old(buffer)@.len() as int, self.partition_sector_count as int),
                    Ok(FatResolvedPath::Directory(c)) =>
                        self.list_chain(device, c, old(buffer)@.len() as int, self.partition_sector_count as int),
                };
                match listing {
                    Ok(names) => r == Ok::<usize, StorageError>(names.len() as usize)
                        && final(buffer)@.take(names.len() as int) == names,
                    Err(error) => r == Err::<usize, StorageError>(error),
                }
            }),
    {
        let start_cluster = match self.resolve_absolute(device, path) {
            Ok(FatResolvedPath::RootDirectory) => self.root_cluster,
            Ok(FatResolvedPath::Directory(cluster)) => cluster,
            Ok(FatResolvedPath::File(_)) => return Err(StorageError::NotADirectory),
            Err(error) => return Err(error),
        };
        self.list_directory(device, start_cluster, buffer)
    }

    /// Lists the directory starting at `start_cluster` into `buffer`.
    fn list_directory(&self, device: &BlockDevice, start_cluster: u32, buffer: &mut [u8]) -> (r: Result<usize, StorageError>)
        ensures
            match self.list_chain(device, start_cluster, old(buffer)@.len() as int, self.partition_sector_count as int) {
                Ok(names) => r == Ok::<usize, StorageError>(names.len() as usize)
                    && final(buffer)@.take(names.len() as int) == names,
                Err(error) => r == Err::<usize, StorageError>(error),
            },
    {
        let ghost cap0 = buffer@.len() as int;
        let ghost goal = self.list_chain(device, start_cluster, cap0, self.partition_sector_count as int);
        let blen = buffer.len();
        let mut written: usize = 0;
        let mut cluster = start_cluster;
        let mut steps: u64 = self.partition_sector_count;
        let mut sector = [0u8; SECTOR_SIZE];
        while steps > 0
            invariant
                sector@.len() == SECTOR_SIZE,
                buffer@.len() == cap0,
                blen == cap0,
                cap0 == old(buffer)@.len(),
                goal == self.list_chain(device, start_cluster, cap0, self.partition_sector_count as int),
                written <= cap0,
                goal == match self.list_chain(device, cluster, cap0 - written, steps as int) {
                    Ok(rest) => Ok(buffer@.take(written as int) + rest),
                    Err(error) => Err::<Seq<u8>, StorageError>(error),
                },
            decreases steps,
        {
            let lba = match self.cluster_to_lba(cluster) {
                Ok(lba) => lba,
                Err(error) => return Err(error),
            };
            let mut index: u8 = 0;
            while index < self.sectors_per_cluster
                invariant
                    sector@.len() == SECTOR_SIZE,
                    buffer@.len() == cap0,
                    blen == cap0,
                    cap0 == old(buffer)@.len(),
                    goal == self.list_chain(device, start_cluster, cap0, self.partition_sector_count as int),
                    written <= cap0,
                    steps > 0,
                    self.spec_cluster_lba(cluster) == Some(lba as int),
                    goal == match self.list_sectors(device, cluster, lba as int, cap0 - written, index as int, steps as int) {
                        Ok(rest) => Ok(buffer@.take(written as int) + rest),
                        Err(error) => Err::<Seq<u8>, StorageError>(error),
                    },
                decreases self.sectors_per_cluster - index,
            {
                let at = match lba.checked_add(index as u64) {
                    Some(at) => at,
                    None => {
                        let _total = device.total_sectors();
                        return Err(StorageError::AhciTaskFileError);
                    },
                };
                match device.read_sector(at, &mut sector) {
                    Ok(()) => {},
                    Err(error) => return Err(error),
                }
                let ghost before = buffer@;
                match list_sector(&sector, buffer, written) {
                    Ok((next, ended)) => {
                        proof {
                            let names = listed_names(sector@, 0).0;
                            lemma_take_extend(before, buffer@, written as int, next as int, names);
                            match self.list_sectors(device, cluster, lba as int, cap0 - next, index + 1, steps as int) {
                                Ok(rest) => {
                                    assert(buffer@.take(written as int) + (names + rest) =~= buffer@.take(next as int) + rest);
                                },
                                Err(_) => {},
                            }
                            if ended {
                                assert(buffer@.take(written as int) + names =~= buffer@.take(next as int));
                            }
                        }
                        written = next;
                        if ended {
                            return Ok(written);
                        }
                    },
                    Err(error) => return Err(error),
                }
                index += 1;
            }
            cluster = match self.next_cluster(device, cluster) {
                Ok(next) => next,
                Err(error) => return Err(error),
            };
            steps -= 1;
        }
        Err(StorageError::InvalidFat32BootSector)
    }
}


impl Fat32 {
    /// The first `remaining` bytes of the cluster chain starting at
    /// `cluster`, following at most `steps` clusters.
    pub open spec fn file_chain(&self, device: &BlockDevice, cluster: u32, remaining: int, steps: int) -> Result<Seq<u8>, StorageError>
        decreases steps, 300int,
    {
        if remaining <= 0 {
            Ok(Seq::empty())
        } else if steps <= 0 {
            Err(StorageError::InvalidFat32BootSector)
        } else {
            match self.spec_cluster_lba(cluster) {
                None => Err(StorageError::InvalidFat32BootSector),
                Some(lba) => self.file_sectors(device, cluster, lba, remaining, 0, steps),
            }
        }
    }

    /// The same bytes from sector `i` of the cluster at `lba` on.
    pub open spec fn file_sectors(&self, device: &BlockDevice, cluster: u32, lba: int, remaining: int, i: int, steps: int)
        -> Result<Seq<u8>, StorageError>
        decreases steps, self.sectors_per_cluster - i,
    {
        if remaining <= 0 {
            Ok(Seq::empty())
        } else if steps <= 0 {
            Err(StorageError::InvalidFat32BootSector)
        } else if i >= self.sectors_per_cluster {
            match self.spec_next_cluster(device, cluster) {
                Err(error) => Err(error),
                Ok(next) => self.file_chain(device, next, remaining, steps - 1),
            }
        } else if lba + i >= device.sector_count() {
            Err(StorageError::AhciTaskFileError)
        } else {
            let take = if remaining < SECTOR_SIZE { remaining } else { SECTOR_SIZE as int };
            match self.file_sectors(device, cluster, lba, remaining - take, i + 1, steps) {
                Ok(rest) => Ok(device.sector(lba + i).take(take) + rest),
                Err(error) => Err(error),
            }
        }
    }

    /// Reads the whole file `entry` into the front of `buffer`.
    pub fn read_file(&self, device: &BlockDevice, entry: &FatDirectoryEntry, buffer: &mut [u8]) -> (r: Result<usize, StorageError>)
        ensures
            final(buffer)@.len() == old(buffer)@.len(),
            old(buffer)@.len() < entry.size ==> r == Err::<usize, StorageError>(StorageError::BufferTooSmall),
            old(buffer)@.len() >= entry.size ==> match self.file_chain(device, entry.first_cluster, entry.size as int, self.partition_sector_count as int) {
                Ok(bytes) => r == Ok::<usize, StorageError>(entry.size as usize) && final(buffer)@.take(entry.size as int) == bytes,
                Err(error) => r == Err::<usize, StorageError>(error),
            },
    {
        let size = entry.size as usize;
        if buffer.len() < size {
            return Err(StorageError::BufferTooSmall);
        }
        let ghost goal = self.file_chain(device, entry.first_cluster, entry.size as int, self.partition_sector_count as int);
        let mut remaining = size;
        let mut written: usize = 0;
        let mut cluster = entry.first_cluster;
        let mut steps: u64 = self.partition_sector_count;
        let mut sector = [0u8; SECTOR_SIZE];
        while remaining > 0
            invariant
                sector@.len() == SECTOR_SIZE,
                size == entry.size,
                size <= buffer@.len(),
                buffer@.len() == old(buffer)@.len(),
                written + remaining == size,
                goal == self.file_chain(device, entry.first_cluster, entry.size as int, self.partition_sector_count as int),
                goal == match self.file_chain(device, cluster, remaining as int, steps as int) {
                    Ok(rest) => Ok(buffer@.take(written as int) + rest),
                    Err(error) => Err::<Seq<u8>, StorageError>(error),
                },
            ensures
                buffer@.len() == old(buffer)@.len(),
                written == size,
                goal == Ok::<Seq<u8>, StorageError>(buffer@.take(written as int) + Seq::<u8>::empty()),
            decreases steps,
        {
            if steps == 0 {
                return Err(StorageError::InvalidFat32BootSector);
            }
            let lba = match self.cluster_to_lba(cluster) {
                Ok(lba) => lba,
                Err(error) => return Err(error),
            };
            let mut index: u8 = 0;
            while index < self.sectors_per_cluster && remaining > 0
                invariant
                    sector@.len() == SECTOR_SIZE,
                    size == entry.size,
                    size <= buffer@.len(),
                    buffer@.len() == old(buffer)@.len(),
                    written + remaining == size,
                    steps > 0,
                    self.spec_cluster_lba(cluster) == Some(lba as int),
                    goal == self.file_chain(device, entry.first_cluster, entry.size as int, self.partition_sector_count as int),
                    goal == match self.file_sectors(device, cluster, lba as int, remaining as int, index as int, steps as int) {
                        Ok(rest) => Ok(buffer@.take(written as int) + rest),
                        Err(error) => Err::<Seq<u8>, StorageError>(error),
                    },
                decreases self.sectors_per_cluster - index,
            {
                let at = match lba.checked_add(index as u64) {
                    Some(at) => at,
                    None => {
                        let _total = device.total_sectors();
                        return Err(StorageError::AhciTaskFileError);
                    },
                };
                match device.read_sector(at, &mut sector) {
                    Ok(()) => {},
                    Err(error) => return Err(error),
                }
                let bytes = if remaining < SECTOR_SIZE { remaining } else { SECTOR_SIZE };
                let ghost before = buffer@;
                crate::process::copy_bytes(buffer, written, vstd::slice::slice_subrange(sector.as_slice(), 0, bytes));
                proof {
                    let chunk = sector@.subrange(0, bytes as int);
                    assert(chunk =~= device.sector(at as int).take(bytes as int));
                    assert(buffer@.take(written + bytes) =~= before.take(written as int) + chunk);
                    match self.file_sectors(device, cluster, lba as int, remaining - bytes, index + 1, steps as int) {
                        Ok(rest) => {
                            assert(before.take(written as int) + (chunk + rest) =~= buffer@.take(written + bytes) + rest);
                        },
                        Err(_) => {},
                    }
                }
                written += bytes;
                remaining -= bytes;
                index += 1;
            }
            if remaining == 0 {
                break;
            }
            cluster = match self.next_cluster(device, cluster) {
                Ok(next) => next,
                Err(error) => return Err(error),
            };
            steps -= 1;
        }
        proof {
            assert(buffer@.take(written as int) + Seq::<u8>::empty() =~= buffer@.take(written as int));
        }
        Ok(written)
    }
}

} // verus!
