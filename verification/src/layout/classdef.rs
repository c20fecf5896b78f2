//! Class definition tables: which class each glyph belongs to.
//!
//! The table comes in two formats. Format 1 lists the class of every glyph
//! of one range of glyph IDs. Format 2 lists ranges of glyph IDs, each with
//! the class of all its glyphs. A glyph that a table does not mention is of
//! class 0.

pub mod laws;

use crate::cursor::{put_u16, put_u16_array, u16_at, u16_be, u16s_at, u16s_be, Reader};
use crate::error::Error;
use laws::{
    ascending, lemma_empty_range, lemma_lists_entries, lemma_range_grows, lemma_slices_len,
};
use std::collections::BTreeMap;
use vstd::prelude::*;
use vstd::std_specs::btree::{group_btree_axioms, increasing_seq};
use vstd::std_specs::cmp::OrdSpec;
use vstd::std_specs::iter::IteratorSpec;

verus! {

/// One range of a format 2 table: the glyphs from `startGlyphID` to
/// `endGlyphID`, both included, are of class `class`.
#[allow(non_snake_case)]
#[derive(Debug, Clone, Copy, PartialEq, Eq, Structural)]
pub struct ClassRangeRecord {
    pub startGlyphID: u16,
    pub endGlyphID: u16,
    pub class: u16,
}

/// A format 1 table: the classes of the glyphs from `startGlyphID` on.
#[allow(non_snake_case)]
#[derive(Debug, PartialEq)]
pub struct ClassDefFormat1 {
    pub startGlyphID: u16,
    pub classValueArray: Vec<u16>,
}

/// A format 2 table: ranges of glyphs with their classes.
#[allow(non_snake_case)]
#[derive(Debug, PartialEq)]
pub struct ClassDefFormat2 {
    pub classRangeRecords: Vec<ClassRangeRecord>,
}

/// A class definition table in one of its two formats.
#[derive(Debug, PartialEq)]
pub enum ClassDefTable {
    Format1(ClassDefFormat1),
    Format2(ClassDefFormat2),
}

/// What a class definition table holds.
pub enum TableView {
    Format1 { start: u16, classes: Seq<u16> },
    Format2 { records: Seq<ClassRangeRecord> },
}

impl View for ClassDefTable {
    type V = TableView;

    open spec fn view(&self) -> TableView {
        match *self {
            ClassDefTable::Format1(t) => TableView::Format1 {
                start: t.startGlyphID,
                classes: t.classValueArray@,
            },
            ClassDefTable::Format2(t) => TableView::Format2 { records: t.classRangeRecords@ },
        }
    }
}

/// A mapping from glyph IDs to classes. A glyph without an entry is of class 0.
#[derive(Debug, PartialEq, Clone)]
pub struct ClassDef {
    pub classes: BTreeMap<u16, u16>,
}

impl View for ClassDef {
    type V = Map<u16, u16>;

    open spec fn view(&self) -> Map<u16, u16> {
        self.classes@
    }
}

/// The class of the glyph `g`: its entry, or 0 where it has none.
pub open spec fn class_of(m: Map<u16, u16>, g: u16) -> u16 {
    if m.contains_key(g) {
        m[g]
    } else {
        0
    }
}

/// The six bytes of a range record.
pub open spec fn record_bytes(r: ClassRangeRecord) -> Seq<u8> {
    u16_be(r.startGlyphID) + u16_be(r.endGlyphID) + u16_be(r.class)
}

/// The bytes of each of `records` in turn.
pub open spec fn records_bytes(records: Seq<ClassRangeRecord>) -> Seq<u8> {
    Seq::new(6 * records.len(), |i: int| record_bytes(records[i / 6])[i % 6])
}

/// Whether the table's array is short enough for its 16-bit count.
pub open spec fn table_fits(t: TableView) -> bool {
    match t {
        TableView::Format1 { start, classes } => classes.len() <= 0xffff,
        TableView::Format2 { records } => records.len() <= 0xffff,
    }
}

/// The bytes of a table: the format, then for format 1 the first glyph ID,
/// the count and the classes, and for format 2 the count and the records.
pub open spec fn table_bytes(t: TableView) -> Seq<u8>
    recommends
        table_fits(t),
{
    match t {
        TableView::Format1 { start, classes } => u16_be(1) + u16_be(start) + u16_be(
            classes.len() as u16,
        ) + u16s_be(classes),
        TableView::Format2 { records } => u16_be(2) + u16_be(records.len() as u16) + records_bytes(
            records,
        ),
    }
}

/// The range record that `bytes` holds at `pos`.
pub open spec fn record_at(bytes: Seq<u8>, pos: int) -> ClassRangeRecord {
    ClassRangeRecord {
        startGlyphID: u16_at(bytes, pos),
        endGlyphID: u16_at(bytes, pos + 2),
        class: u16_at(bytes, pos + 4),
    }
}

/// The `n` consecutive range records that `bytes` holds from `pos` on.
pub open spec fn records_at(bytes: Seq<u8>, pos: int, n: nat) -> Seq<ClassRangeRecord> {
    Seq::new(n, |i: int| record_at(bytes, pos + 6 * i))
}

/// The table that `bytes` holds at `pos`, and the position behind it.
///
/// There is none where the buffer ends before the format, before a field
/// of the header or inside the array that the count announces, and where
/// the format is neither 1 nor 2.
pub open spec fn parsed_table(bytes: Seq<u8>, pos: int) -> Option<(TableView, int)> {
    if pos < 0 || pos + 2 > bytes.len() {
        None
    } else if u16_at(bytes, pos) == 1 {
        if pos + 6 > bytes.len() {
            None
        } else {
            let start = u16_at(bytes, pos + 2);
            let count = u16_at(bytes, pos + 4);
            if pos + 6 + 2 * count > bytes.len() {
                None
            } else {
                Some(
                    (
                        TableView::Format1 {
                            start,
                            classes: u16s_at(bytes, pos + 6, count as nat),
                        },
                        pos + 6 + 2 * count,
                    ),
                )
            }
        }
    } else if u16_at(bytes, pos) == 2 {
        if pos + 4 > bytes.len() {
            None
        } else {
            let count = u16_at(bytes, pos + 2);
            if pos + 4 + 6 * count > bytes.len() {
                None
            } else {
                Some(
                    (
                        TableView::Format2 { records: records_at(bytes, pos + 4, count as nat) },
                        pos + 4 + 6 * count,
                    ),
                )
            }
        }
    } else {
        None
    }
}

/// The glyph ID that lies `i` after `start`, counted round past 65535.
pub open spec fn glyph_after(start: u16, i: int) -> u16 {
    ((start + i) % 0x1_0000) as u16
}

/// The mapping of a format 1 table: the glyph that lies `i` after `start`
/// is of class `classes[i]`. Entries are made in the order of the array.
pub open spec fn format1_mapping(start: u16, classes: Seq<u16>) -> Map<u16, u16>
    decreases classes.len(),
{
    if classes.len() == 0 {
        Map::empty()
    } else {
        format1_mapping(start, classes.drop_last()).insert(
            glyph_after(start, classes.len() - 1),
            classes.last(),
        )
    }
}

/// Whether the glyph `g` lies in the range of the record `r`.
pub open spec fn covers(r: ClassRangeRecord, g: u16) -> bool {
    r.startGlyphID <= g <= r.endGlyphID
}

/// The class that the records give to the glyph `g`: that of the last
/// record whose range holds `g`, if there is one.
pub open spec fn class_in_ranges(records: Seq<ClassRangeRecord>, g: u16) -> Option<u16>
    decreases records.len(),
{
    if records.len() == 0 {
        None
    } else if covers(records.last(), g) {
        Some(records.last().class)
    } else {
        class_in_ranges(records.drop_last(), g)
    }
}

/// The mapping of a format 2 table: every glyph in the range of a record
/// has an entry, with the class of the last such record.
pub open spec fn format2_mapping(records: Seq<ClassRangeRecord>) -> Map<u16, u16> {
    Map::new(
        |g: u16| class_in_ranges(records, g) is Some,
        |g: u16| class_in_ranges(records, g)->0,
    )
}

/// The mapping that a table stands for.
pub open spec fn mapping_of(t: TableView) -> Map<u16, u16> {
    match t {
        TableView::Format1 { start, classes } => format1_mapping(start, classes),
        TableView::Format2 { records } => format2_mapping(records),
    }
}

/// The mapping that decoding finds in `bytes`, if it finds a table there.
pub open spec fn decoded_classdef(bytes: Seq<u8>) -> Option<Map<u16, u16>> {
    match parsed_table(bytes, 0) {
        Some((t, _)) => Some(mapping_of(t)),
        None => None,
    }
}

/// The entries of `m` with a glyph ID below `bound`, by ascending glyph ID.
pub open spec fn entries_below(m: Map<u16, u16>, bound: int) -> Seq<(u16, u16)>
    decreases bound,
{
    if bound <= 0 {
        Seq::empty()
    } else {
        let g = (bound - 1) as u16;
        if m.contains_key(g) {
            entries_below(m, bound - 1).push((g, m[g]))
        } else {
            entries_below(m, bound - 1)
        }
    }
}

/// The entries of `m`, by ascending glyph ID.
pub open spec fn entries(m: Map<u16, u16>) -> Seq<(u16, u16)> {
    entries_below(m, 0x1_0000)
}

/// Whether a new run starts with entry `i` of `data`: with the first entry,
/// and wherever the glyph ID is not one more than the one before, or the
/// class is another than the one before.
pub open spec fn starts_run(data: Seq<(u16, u16)>, i: int) -> bool
    recommends
        0 <= i < data.len(),
{
    i == 0 || data[i - 1].0 + 1 != data[i].0 || data[i - 1].1 != data[i].1
}

/// The range record of the one entry `e`.
pub open spec fn single(e: (u16, u16)) -> ClassRangeRecord {
    ClassRangeRecord { startGlyphID: e.0, endGlyphID: e.0, class: e.1 }
}

/// The record `r` with its range drawn out to the glyph `end`.
pub open spec fn extended(r: ClassRangeRecord, end: u16) -> ClassRangeRecord {
    ClassRangeRecord { startGlyphID: r.startGlyphID, endGlyphID: end, class: r.class }
}

/// The runs of `data`: its entries cut into the longest stretches of
/// consecutive glyph IDs with one class, each as a range record from the
/// first glyph ID of the stretch to its last, with the class of the first.
pub open spec fn slices(data: Seq<(u16, u16)>) -> Seq<ClassRangeRecord>
    decreases data.len(),
{
    if data.len() == 0 {
        Seq::empty()
    } else if starts_run(data, data.len() - 1) {
        slices(data.drop_last()).push(single(data.last()))
    } else {
        let before = slices(data.drop_last());
        before.drop_last().push(extended(before.last(), data.last().0))
    }
}

/// The runs of the mapping `m`, by ascending glyph ID.
pub open spec fn runs(m: Map<u16, u16>) -> Seq<ClassRangeRecord> {
    slices(entries(m))
}

/// The smallest glyph ID with an entry in `m`, where `m` has one.
pub open spec fn first_gid(m: Map<u16, u16>) -> u16
    recommends
        entries(m).len() > 0,
{
    entries(m).first().0
}

/// The largest glyph ID with an entry in `m`, where `m` has one.
pub open spec fn last_gid(m: Map<u16, u16>) -> u16
    recommends
        entries(m).len() > 0,
{
    entries(m).last().0
}

/// Whether format 1 is taken for the mapping `m`, which has an entry: three
/// fields for each run are weighed against two fields and the width of the
/// range from the first glyph ID to the last.
pub open spec fn prefers_format1(m: Map<u16, u16>) -> bool
    recommends
        entries(m).len() > 0,
{
    runs(m).len() * 3 > 2 + last_gid(m) - first_gid(m)
}

/// The classes of all glyphs from the first glyph ID of `m` to its last,
/// 0 for a glyph without an entry.
pub open spec fn dense_classes(m: Map<u16, u16>) -> Seq<u16>
    recommends
        entries(m).len() > 0,
{
    Seq::new(
        (last_gid(m) - first_gid(m) + 1) as nat,
        |i: int| class_of(m, (first_gid(m) + i) as u16),
    )
}

/// The table that is written for the mapping `m`.
///
/// An empty mapping gives a format 1 table with first glyph ID 0 and no
/// classes. Any other gives format 1 with the classes of all glyphs from
/// its first glyph ID to its last where that format is taken, and else
/// format 2 with one record for each run.
pub open spec fn table_of(m: Map<u16, u16>) -> TableView {
    if entries(m).len() == 0 {
        TableView::Format1 { start: 0, classes: Seq::empty() }
    } else if prefers_format1(m) {
        TableView::Format1 { start: first_gid(m), classes: dense_classes(m) }
    } else {
        TableView::Format2 { records: runs(m) }
    }
}

/// Whether the table of `m` can be written: whether its array is short
/// enough for the 16-bit count. It is not only where `m` has entries for
/// glyph 0 and for glyph 65535 and takes format 1.
pub open spec fn encodable(m: Map<u16, u16>) -> bool {
    table_fits(table_of(m))
}

/// The bytes that encoding gives for the mapping `m`.
pub open spec fn encoded_classdef(m: Map<u16, u16>) -> Seq<u8>
    recommends
        encodable(m),
{
    table_bytes(table_of(m))
}

impl ClassRangeRecord {
    /// Reads one range record, or nothing if the buffer holds less.
    pub fn read(reader: &mut Reader) -> (res: Result<ClassRangeRecord, Error>)
        ensures
            match res {
                Ok(r) => {
                    &&& old(reader).has(6)
                    &&& old(reader).advanced(*final(reader), 6)
                    &&& r == record_at(old(reader).bytes(), old(reader).pos())
                },
                Err(e) => {
                    &&& e == Error::MalformedTable
                    &&& !old(reader).has(6)
                    &&& *final(reader) == *old(reader)
                },
            },
    {
        if reader.remaining() < 6 {
            return Err(Error::MalformedTable);
        }
        let start = match reader.read_u16() {
            Ok(v) => v,
            Err(e) => {
                return Err(e);
            },
        };
        let end = match reader.read_u16() {
            Ok(v) => v,
            Err(e) => {
                return Err(e);
            },
        };
        let class = match reader.read_u16() {
            Ok(v) => v,
            Err(e) => {
                return Err(e);
            },
        };
        Ok(ClassRangeRecord { startGlyphID: start, endGlyphID: end, class })
    }

    /// Appends the six bytes of the record.
    pub fn write(&self, out: &mut Vec<u8>)
        ensures
            final(out)@ == old(out)@ + record_bytes(*self),
    {
        put_u16(out, self.startGlyphID);
        put_u16(out, self.endGlyphID);
        put_u16(out, self.class);
    }
}

impl ClassDefTable {
    /// Reads a class definition table at the reader's position.
    ///
    /// The read fails where the buffer ends before the end of the table, and
    /// where the format is neither 1 nor 2.
    pub fn read(reader: &mut Reader) -> (res: Result<ClassDefTable, Error>)
        ensures
            final(reader).bytes() == old(reader).bytes(),
            match res {
                Ok(t) => parsed_table(old(reader).bytes(), old(reader).pos()) == Some(
                    (t@, final(reader).pos()),
                ),
                Err(e) => e == Error::MalformedTable && parsed_table(
                    old(reader).bytes(),
                    old(reader).pos(),
                ) is None,
            },
    {
        let ghost bytes = reader.bytes();
        let ghost pos = reader.pos();
        proof {
            use_type_invariant(&*reader);
        }
        let format = match reader.read_u16() {
            Ok(v) => v,
            Err(e) => {
                return Err(e);
            },
        };
        if format == 1 {
            let start = match reader.read_u16() {
                Ok(v) => v,
                Err(e) => {
                    return Err(e);
                },
            };
            let count = match reader.read_u16() {
                Ok(v) => v,
                Err(e) => {
                    return Err(e);
                },
            };
            let classes = match reader.read_u16_array(count as usize) {
                Ok(v) => v,
                Err(e) => {
                    return Err(e);
                },
            };
            Ok(
                ClassDefTable::Format1(
                    ClassDefFormat1 { startGlyphID: start, classValueArray: classes },
                ),
            )
        } else if format == 2 {
            let count = match reader.read_u16() {
                Ok(v) => v,
                Err(e) => {
                    return Err(e);
                },
            };
            if count as usize > reader.remaining() / 6 {
                return Err(Error::MalformedTable);
            }
            let mut records: Vec<ClassRangeRecord> = Vec::new();
            let mut i: u16 = 0;
            while i < count
                invariant
                    i <= count,
                    reader.bytes() == bytes,
                    reader.pos() == pos + 4 + 6 * i,
                    pos + 4 + 6 * count <= bytes.len(),
                    records@ == records_at(bytes, pos + 4, i as nat),
                decreases count - i,
            {
                match ClassRangeRecord::read(reader) {
                    Ok(r) => {
                        records.push(r);
                    },
                    Err(e) => {
                        return Err(e);
                    },
                }
                i = i + 1;
            }
            Ok(ClassDefTable::Format2(ClassDefFormat2 { classRangeRecords: records }))
        } else {
            Err(Error::MalformedTable)
        }
    }

    /// Whether the table's array is short enough for its 16-bit count.
    pub fn fits(&self) -> (b: bool)
        ensures
            b == table_fits(self@),
    {
        match self {
            ClassDefTable::Format1(t) => t.classValueArray.len() <= 0xffff,
            ClassDefTable::Format2(t) => t.classRangeRecords.len() <= 0xffff,
        }
    }

    /// The bytes of the table.
    pub fn to_bytes(&self) -> (out: Vec<u8>)
        requires
            table_fits(self@),
        ensures
            out@ == table_bytes(self@),
    {
        let mut out: Vec<u8> = Vec::new();
        match self {
            ClassDefTable::Format1(t) => {
                put_u16(&mut out, 1);
                put_u16(&mut out, t.startGlyphID);
                put_u16(&mut out, t.classValueArray.len() as u16);
                put_u16_array(&mut out, t.classValueArray.as_slice());
            },
            ClassDefTable::Format2(t) => {
                put_u16(&mut out, 2);
                put_u16(&mut out, t.classRangeRecords.len() as u16);
                let ghost header = out@;
                let mut i: usize = 0;
                while i < t.classRangeRecords.len()
                    invariant
                        i <= t.classRangeRecords.len(),
                        out@ == header + records_bytes(t.classRangeRecords@.take(i as int)),
                    decreases t.classRangeRecords.len() - i,
                {
                    t.classRangeRecords[i].write(&mut out);
                    i = i + 1;
                }
            },
        }
        out
    }
}

/// Gives the glyph `glyph` the class `class`, in place of the one it had.
fn insert_entry(classes: &mut BTreeMap<u16, u16>, glyph: u16, class: u16)
    ensures
        final(classes)@ == old(classes)@.insert(glyph, class),
{
    broadcast use vstd::laws_cmp::group_laws_cmp;

    classes.insert(glyph, class);
}

/// In a sequence whose items ascend as `u16`s do, each is less than the next.
proof fn lemma_increasing(s: Seq<u16>)
    requires
        increasing_seq(s),
    ensures
        forall|i: int, j: int| 0 <= i < j < s.len() ==> s[i] < s[j],
{
    broadcast use group_btree_axioms;
    broadcast use vstd::laws_cmp::group_laws_cmp;

    assert forall|i: int, j: int| 0 <= i < j < s.len() implies s[i] < s[j] by {
        assert(s[i].cmp_spec(&s[j]) is Less);
    }
}

/// The runs of `data`: its entries cut into the longest stretches of
/// consecutive glyph IDs with one class.
pub fn consecutive_slices(data: &[(u16, u16)]) -> (result: Vec<ClassRangeRecord>)
    ensures
        result@ == slices(data@),
{
    let mut result: Vec<ClassRangeRecord> = Vec::new();
    if data.len() == 0 {
        return result;
    }
    let mut slice_start: usize = 0;
    let mut i: usize = 1;
    assert(slices(data@.take(1).drop_last()) =~= Seq::empty());
    while i < data.len()
        invariant
            slice_start < i <= data.len(),
            slices(data@.take(i as int)) == result@.push(
                ClassRangeRecord {
                    startGlyphID: data[slice_start as int].0,
                    endGlyphID: data[i - 1].0,
                    class: data[slice_start as int].1,
                },
            ),
        decreases data.len() - i,
    {
        assert(data@.take(i + 1).drop_last() =~= data@.take(i as int));
        if data[i - 1].0 as u32 + 1 != data[i].0 as u32 || data[i - 1].1 != data[i].1 {
            result.push(
                ClassRangeRecord {
                    startGlyphID: data[slice_start].0,
                    endGlyphID: data[i - 1].0,
                    class: data[slice_start].1,
                },
            );
            slice_start = i;
        }
        i = i + 1;
    }
    assert(data@.take(i as int) =~= data@);
    result.push(
        ClassRangeRecord {
            startGlyphID: data[slice_start].0,
            endGlyphID: data[i - 1].0,
            class: data[slice_start].1,
        },
    );
    result
}

impl ClassDef {
    /// The class of the glyph `glyph`: its entry, or 0 where it has none.
    pub fn class(&self, glyph: u16) -> (class: u16)
        ensures
            class == class_of(self@, glyph),
    {
        broadcast use group_btree_axioms;
        broadcast use vstd::laws_cmp::group_laws_cmp;

        match self.classes.get(&glyph) {
            Some(class) => *class,
            None => 0,
        }
    }

    /// The mapping that a table stands for.
    ///
    /// A format 1 table gives the glyph that lies `i` after the first glyph
    /// ID the `i`-th class of its array. A format 2 table gives every glyph
    /// in the range of a record the class of that record; where ranges
    /// overlap, the later record wins.
    pub fn from_table(table: &ClassDefTable) -> (c: ClassDef)
        ensures
            c@ == mapping_of(table@),
    {
        let mut classes: BTreeMap<u16, u16> = BTreeMap::new();
        match table {
            ClassDefTable::Format1(cdf1) => {
                let start = cdf1.startGlyphID;
                let mut ix: usize = 0;
                while ix < cdf1.classValueArray.len()
                    invariant
                        ix <= cdf1.classValueArray.len(),
                        start == cdf1.startGlyphID,
                        classes@ == format1_mapping(start, cdf1.classValueArray@.take(ix as int)),
                    decreases cdf1.classValueArray.len() - ix,
                {
                    // Glyph IDs are counted round past 65535.
                    let glyph = ((start as usize + ix % 0x1_0000) % 0x1_0000) as u16;
                    insert_entry(&mut classes, glyph, cdf1.classValueArray[ix]);
                    assert(cdf1.classValueArray@.take(ix + 1).drop_last()
                        =~= cdf1.classValueArray@.take(ix as int));
                    ix = ix + 1;
                }
                assert(cdf1.classValueArray@.take(ix as int) =~= cdf1.classValueArray@);
            },
            ClassDefTable::Format2(cdf2) => {
                let mut i: usize = 0;
                while i < cdf2.classRangeRecords.len()
                    invariant
                        i <= cdf2.classRangeRecords.len(),
                        classes@ == format2_mapping(cdf2.classRangeRecords@.take(i as int)),
                    decreases cdf2.classRangeRecords.len() - i,
                {
                    let rr = cdf2.classRangeRecords[i];
                    let ghost done = cdf2.classRangeRecords@.take(i as int);
                    let mut g: u32 = rr.startGlyphID as u32;
                    while g <= rr.endGlyphID as u32
                        invariant
                            rr.startGlyphID <= g,
                            g > rr.startGlyphID ==> g <= rr.endGlyphID + 1,
                            g == rr.startGlyphID ==> classes@ == format2_mapping(done),
                            g > rr.startGlyphID ==> classes@ == format2_mapping(
                                done.push(
                                    ClassRangeRecord {
                                        startGlyphID: rr.startGlyphID,
                                        endGlyphID: (g - 1) as u16,
                                        class: rr.class,
                                    },
                                ),
                            ),
                        decreases rr.endGlyphID + 1 - g,
                    {
                        proof {
                            lemma_range_grows(
                                done,
                                ClassRangeRecord {
                                    startGlyphID: rr.startGlyphID,
                                    endGlyphID: g as u16,
                                    class: rr.class,
                                },
                            );
                        }
                        insert_entry(&mut classes, g as u16, rr.class);
                        g = g + 1;
                    }
                    proof {
                        if rr.startGlyphID > rr.endGlyphID {
                            lemma_empty_range(done, rr);
                        }
                        assert(done.push(rr) =~= cdf2.classRangeRecords@.take(i + 1));
                    }
                    i = i + 1;
                }
                assert(cdf2.classRangeRecords@.take(i as int) =~= cdf2.classRangeRecords@);
            },
        }
        ClassDef { classes }
    }

    /// The entries of the mapping, by ascending glyph ID.
    pub fn pairs(&self) -> (out: Vec<(u16, u16)>)
        ensures
            out@ == entries(self@),
            out@.len() <= 0x1_0000,
            ascending(out@),
    {
        broadcast use group_btree_axioms;
        broadcast use vstd::laws_cmp::group_laws_cmp;

        let mut out: Vec<(u16, u16)> = Vec::new();
        for kv in it: self.classes.iter()
            invariant
                out@.len() == it.index(),
                forall|i: int|
                    0 <= i < out@.len() ==> out@[i].0 == *it.seq()[i].0 && out@[i].1
                        == *it.seq()[i].1,
        {
            out.push((*kv.0, *kv.1));
        }
        proof {
            let m = self.classes@;
            let items = self.classes.iter().remaining();
            let keys = items.map_values(|kv: (&u16, &u16)| *kv.0);
            lemma_increasing(keys);
            assert forall|i: int, j: int| 0 <= i < j < out@.len() implies out@[i].0 < out@[j].0 by {
                assert(keys[i] < keys[j]);
            }
            assert forall|g: u16| m.contains_key(g) implies exists|i: int|
                0 <= i < out@.len() && (#[trigger] out@[i]).0 == g by {
                assert(items.contains((&g, &m[g])));
                let i = choose|i: int| 0 <= i < items.len() && items[i] == (&g, &m[g]);
                assert(out@[i].0 == g);
            }
            lemma_lists_entries(out@, m);
        }
        out
    }

    /// The table that is written for the mapping.
    ///
    /// An empty mapping gives a format 1 table with first glyph ID 0 and no
    /// classes. Else the entries are cut into runs of consecutive glyph IDs
    /// with one class. Where three times the number of runs is more than two
    /// plus the last glyph ID minus the first, the table is of format 1 and
    /// holds the class of every glyph from the first glyph ID to the last, 0
    /// for a glyph without an entry. Else it is of format 2 and holds one
    /// record for each run.
    pub fn to_table(&self) -> (table: ClassDefTable)
        ensures
            table@ == table_of(self@),
    {
        let pairs = self.pairs();
        let as_consecutive = consecutive_slices(pairs.as_slice());
        if pairs.len() == 0 {
            return ClassDefTable::Format1(
                ClassDefFormat1 { startGlyphID: 0, classValueArray: Vec::new() },
            );
        }
        proof {
            lemma_slices_len(pairs@);
        }
        let first_gid = pairs[0].0;
        let last_gid = pairs[pairs.len() - 1].0;
        if as_consecutive.len() as u64 * 3 > 2 + last_gid as u64 - first_gid as u64 {
            let mut class_values: Vec<u16> = Vec::new();
            let mut gid: u32 = first_gid as u32;
            while gid <= last_gid as u32
                invariant
                    first_gid <= gid <= last_gid + 1,
                    class_values@ == Seq::new(
                        (gid - first_gid) as nat,
                        |i: int| class_of(self@, (first_gid + i) as u16),
                    ),
                decreases last_gid + 1 - gid,
            {
                class_values.push(self.class(gid as u16));
                gid = gid + 1;
            }
            ClassDefTable::Format1(
                ClassDefFormat1 { startGlyphID: first_gid, classValueArray: class_values },
            )
        } else {
            ClassDefTable::Format2(ClassDefFormat2 { classRangeRecords: as_consecutive })
        }
    }
}

/// Decodes a class definition table into the mapping it stands for.
///
/// Decoding fails where the buffer ends before the end of the table, and
/// where the format is neither 1 nor 2. Bytes behind the table are not read.
pub fn decode_classdef(bytes: &[u8]) -> (res: Result<ClassDef, Error>)
    ensures
        match res {
            Ok(c) => decoded_classdef(bytes@) == Some(c@),
            Err(e) => e == Error::MalformedTable && decoded_classdef(bytes@) is None,
        },
{
    let mut reader = Reader::new(bytes);
    match ClassDefTable::read(&mut reader) {
        Ok(table) => Ok(ClassDef::from_table(&table)),
        Err(e) => Err(e),
    }
}

/// Encodes a mapping as the class definition table that is written for it.
///
/// The mapping must be one whose table can be written, which is what
/// [`ClassDefTable::fits`] says of the table that [`ClassDef::to_table`]
/// gives for it.
pub fn encode_classdef(c: &ClassDef) -> (out: Vec<u8>)
    requires
        encodable(c@),
    ensures
        out@ == encoded_classdef(c@),
{
    c.to_table().to_bytes()
}

} // verus!
