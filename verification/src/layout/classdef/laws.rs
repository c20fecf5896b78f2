//! What holds of class definition tables: above all, that decoding gives
//! every glyph the class it had when the table was encoded.

use super::{
    class_in_ranges, class_of, covers, decoded_classdef, dense_classes, encodable,
    encoded_classdef, entries, entries_below, extended, first_gid, format1_mapping,
    format2_mapping, last_gid, parsed_table, prefers_format1, record_bytes, records_at,
    records_bytes, runs, single, slices, starts_run, table_bytes, table_fits, table_of,
    ClassRangeRecord, TableView,
};
use crate::cursor::{holds_at, lemma_holds_at_split, lemma_u16s_held, u16_be, u16s_be};
use vstd::prelude::*;

verus! {

/// Whether the glyph IDs of `s` ascend.
pub open spec fn ascending(s: Seq<(u16, u16)>) -> bool {
    forall|i: int, j: int| 0 <= i < j < s.len() ==> s[i].0 < s[j].0
}

/// Whether `s` lists the entries of `m` with a glyph ID below `bound`, each
/// once, by ascending glyph ID.
pub open spec fn lists(s: Seq<(u16, u16)>, m: Map<u16, u16>, bound: int) -> bool {
    &&& ascending(s)
    &&& forall|i: int|
        0 <= i < s.len() ==> (#[trigger] s[i]).0 < bound && m.contains_key(s[i].0) && m[s[i].0]
            == s[i].1
    &&& forall|g: u16|
        g < bound && m.contains_key(g) ==> exists|i: int|
            0 <= i < s.len() && (#[trigger] s[i]).0 == g
}

/// The mapping `m`, which has an entry, with an entry of class 0 for each
/// glyph between its first glyph ID and its last that has none.
pub open spec fn filled(m: Map<u16, u16>) -> Map<u16, u16>
    recommends
        entries(m).len() > 0,
{
    Map::new(|g: u16| first_gid(m) <= g <= last_gid(m), |g: u16| class_of(m, g))
}

/// Whether each record's range starts no later than it ends, and ends
/// before the next one starts.
pub open spec fn apart(records: Seq<ClassRangeRecord>) -> bool {
    &&& forall|i: int|
        0 <= i < records.len() ==> (#[trigger] records[i]).startGlyphID <= records[i].endGlyphID
    &&& forall|i: int, j: int|
        0 <= i < j < records.len() ==> (#[trigger] records[i]).endGlyphID
            < (#[trigger] records[j]).startGlyphID
}

/// A record with an empty range gives no glyph a class.
pub proof fn lemma_empty_range(records: Seq<ClassRangeRecord>, r: ClassRangeRecord)
    requires
        r.startGlyphID > r.endGlyphID,
    ensures
        format2_mapping(records.push(r)) == format2_mapping(records),
{
    assert(records.push(r).drop_last() =~= records);
}

/// A last record whose range is one glyph longer gives that glyph its
/// class too, and changes nothing else.
pub proof fn lemma_range_grows(records: Seq<ClassRangeRecord>, r: ClassRangeRecord)
    requires
        r.startGlyphID <= r.endGlyphID,
    ensures
        format2_mapping(records.push(r)) == (if r.startGlyphID == r.endGlyphID {
            format2_mapping(records)
        } else {
            format2_mapping(
                records.push(
                    ClassRangeRecord {
                        startGlyphID: r.startGlyphID,
                        endGlyphID: (r.endGlyphID - 1) as u16,
                        class: r.class,
                    },
                ),
            )
        }).insert(r.endGlyphID, r.class),
{
    let shorter = ClassRangeRecord {
        startGlyphID: r.startGlyphID,
        endGlyphID: (r.endGlyphID - 1) as u16,
        class: r.class,
    };
    assert(records.push(r).drop_last() =~= records);
    assert(records.push(shorter).drop_last() =~= records);
}

/// `entries_below` lists the entries below its bound.
pub proof fn lemma_entries_below_lists(m: Map<u16, u16>, bound: int)
    requires
        bound <= 0x1_0000,
    ensures
        lists(entries_below(m, bound), m, bound),
    decreases bound,
{
    if bound > 0 {
        lemma_entries_below_lists(m, bound - 1);
        let g = (bound - 1) as u16;
        let before = entries_below(m, bound - 1);
        let now = entries_below(m, bound);
        assert forall|k: u16| k < bound && m.contains_key(k) implies exists|i: int|
            0 <= i < now.len() && (#[trigger] now[i]).0 == k by {
            if k == g {
                assert(now[now.len() - 1].0 == k);
            } else {
                let i = choose|i: int| 0 <= i < before.len() && (#[trigger] before[i]).0 == k;
                assert(now[i].0 == k);
            }
        }
    }
}

/// A list without its last entry lists the entries below that entry.
pub proof fn lemma_lists_drop_last(s: Seq<(u16, u16)>, m: Map<u16, u16>, bound: int)
    requires
        lists(s, m, bound),
        s.len() > 0,
    ensures
        lists(s.drop_last(), m, s.last().0 as int),
        s.last().0 < bound,
        m.contains_key(s.last().0),
        m[s.last().0] == s.last().1,
{
    let last = s[s.len() - 1];
    let rest = s.drop_last();
    assert forall|g: u16| g < last.0 && m.contains_key(g) implies exists|i: int|
        0 <= i < rest.len() && (#[trigger] rest[i]).0 == g by {
        let i = choose|i: int| 0 <= i < s.len() && (#[trigger] s[i]).0 == g;
        assert(rest[i].0 == g);
    }
}

/// A list has no more entries than there are glyph IDs below its bound.
pub proof fn lemma_lists_len(s: Seq<(u16, u16)>, m: Map<u16, u16>, bound: int)
    requires
        lists(s, m, bound),
        0 <= bound,
    ensures
        s.len() <= bound,
    decreases s.len(),
{
    if s.len() > 0 {
        lemma_lists_drop_last(s, m, bound);
        lemma_lists_len(s.drop_last(), m, s.last().0 as int);
    }
}

/// Two lists of the same entries are the same list.
pub proof fn lemma_lists_unique(
    a: Seq<(u16, u16)>,
    b: Seq<(u16, u16)>,
    m: Map<u16, u16>,
    bound: int,
)
    requires
        lists(a, m, bound),
        lists(b, m, bound),
    ensures
        a == b,
    decreases a.len(),
{
    if a.len() == 0 {
        if b.len() > 0 {
            // The first entry of `b` would have to stand in `a` too.
            let i = choose|i: int| 0 <= i < a.len() && (#[trigger] a[i]).0 == b[0].0;
            assert(false);
        }
    } else {
        // The last entry of each list stands in the other, so they are the same.
        let la = a[a.len() - 1];
        let lb = b[b.len() - 1];
        let j = choose|j: int| 0 <= j < b.len() && (#[trigger] b[j]).0 == la.0;
        let i = choose|i: int| 0 <= i < a.len() && (#[trigger] a[i]).0 == lb.0;
        assert(la == lb);
        lemma_lists_drop_last(a, m, bound);
        lemma_lists_drop_last(b, m, bound);
        lemma_lists_unique(a.drop_last(), b.drop_last(), m, la.0 as int);
    }
}

/// A sequence that lists all entries of `m` is `entries(m)`.
pub proof fn lemma_lists_entries(s: Seq<(u16, u16)>, m: Map<u16, u16>)
    requires
        lists(s, m, 0x1_0000),
    ensures
        s == entries(m),
        s.len() <= 0x1_0000,
{
    lemma_entries_below_lists(m, 0x1_0000);
    lemma_lists_unique(s, entries(m), m, 0x1_0000);
    lemma_lists_len(s, m, 0x1_0000);
}

/// A mapping without entries in its list is the empty mapping.
pub proof fn lemma_no_entries(m: Map<u16, u16>)
    ensures
        entries(m).len() == 0 <==> m == Map::<u16, u16>::empty(),
{
    lemma_entries_below_lists(m, 0x1_0000);
    let e = entries(m);
    if e.len() == 0 {
        assert forall|g: u16| !m.contains_key(g) by {
            if m.contains_key(g) {
                let i = choose|i: int| 0 <= i < e.len() && (#[trigger] e[i]).0 == g;
                assert(false);
            }
        }
        assert(m =~= Map::<u16, u16>::empty());
    } else {
        assert(m.contains_key(e[0].0));
    }
}

/// The first and the last glyph ID of a mapping have entries, and every
/// glyph ID with an entry lies between them.
pub proof fn lemma_gid_bounds(m: Map<u16, u16>)
    requires
        entries(m).len() > 0,
    ensures
        m.contains_key(first_gid(m)),
        m.contains_key(last_gid(m)),
        first_gid(m) <= last_gid(m),
        forall|g: u16| m.contains_key(g) ==> first_gid(m) <= g <= last_gid(m),
{
    lemma_entries_below_lists(m, 0x1_0000);
    let e = entries(m);
    assert forall|g: u16| m.contains_key(g) implies first_gid(m) <= g <= last_gid(m) by {
        let i = choose|i: int| 0 <= i < e.len() && (#[trigger] e[i]).0 == g;
        assert(e[0].0 <= e[i].0 <= e[e.len() - 1].0);
    }
}

/// Glyph IDs that have an entry and bound all glyph IDs with an entry are
/// the first and the last glyph ID.
pub proof fn lemma_gids_are(m: Map<u16, u16>, first: u16, last: u16)
    requires
        m.contains_key(first),
        m.contains_key(last),
        forall|g: u16| m.contains_key(g) ==> first <= g <= last,
    ensures
        entries(m).len() > 0,
        first_gid(m) == first,
        last_gid(m) == last,
{
    lemma_no_entries(m);
    lemma_gid_bounds(m);
}

/// The table of a mapping can be written unless the mapping has entries
/// for glyph 0 and for glyph 65535 and takes format 1.
pub proof fn lemma_encodable(m: Map<u16, u16>)
    ensures
        encodable(m) <==> !(entries(m).len() > 0 && prefers_format1(m) && first_gid(m) == 0
            && last_gid(m) == 0xffff),
{
    if entries(m).len() > 0 {
        lemma_gid_bounds(m);
    }
}

/// There are no more runs than entries, and there is a run where there
/// is an entry.
pub proof fn lemma_slices_len(data: Seq<(u16, u16)>)
    ensures
        slices(data).len() <= data.len(),
        data.len() > 0 ==> slices(data).len() > 0,
    decreases data.len(),
{
    if data.len() > 0 {
        lemma_slices_len(data.drop_last());
    }
}

/// The last run of a list of entries starts no later than it ends, ends
/// with the last entry and has its class.
pub proof fn lemma_slices_last_run(data: Seq<(u16, u16)>)
    requires
        data.len() > 0,
    ensures
        slices(data).len() > 0,
        slices(data).last().startGlyphID <= slices(data).last().endGlyphID,
        slices(data).last().endGlyphID == data.last().0,
        slices(data).last().class == data.last().1,
    decreases data.len(),
{
    if data.len() > 1 {
        lemma_slices_last_run(data.drop_last());
    }
}

/// The runs of a list of entries give each listed glyph its class, and no
/// other glyph a class.
pub proof fn lemma_slices_classes(data: Seq<(u16, u16)>, m: Map<u16, u16>, bound: int, g: u16)
    requires
        lists(data, m, bound),
    ensures
        class_in_ranges(slices(data), g) == if g < bound && m.contains_key(g) {
            Some(m[g])
        } else {
            None
        },
    decreases data.len(),
{
    if data.len() > 0 {
        let e = data.last();
        let rest = data.drop_last();
        lemma_lists_drop_last(data, m, bound);
        lemma_slices_classes(rest, m, e.0 as int, g);
        if g > e.0 && g < bound && m.contains_key(g) {
            // An entry for `g` would stand behind the last entry.
            let i = choose|i: int| 0 <= i < data.len() && (#[trigger] data[i]).0 == g;
            assert(false);
        }
        let before = slices(rest);
        if starts_run(data, data.len() - 1) {
            assert(before.push(single(e)).drop_last() =~= before);
        } else {
            lemma_slices_last_run(rest);
            let r = before.last();
            assert(before.drop_last().push(extended(r, e.0)).drop_last() =~= before.drop_last());
        }
    }
}

/// The runs of a mapping give back the mapping.
pub proof fn lemma_runs_mapping(m: Map<u16, u16>)
    ensures
        format2_mapping(runs(m)) == m,
{
    lemma_entries_below_lists(m, 0x1_0000);
    assert forall|g: u16|
        class_in_ranges(runs(m), g) == if m.contains_key(g) {
            Some(m[g])
        } else {
            None
        } by {
        lemma_slices_classes(entries(m), m, 0x1_0000, g);
    }
}

/// The runs of an ascending list of entries lie apart.
pub proof fn lemma_slices_apart(data: Seq<(u16, u16)>)
    requires
        ascending(data),
    ensures
        apart(slices(data)),
    decreases data.len(),
{
    if data.len() == 1 {
        assert(slices(data.drop_last()) =~= Seq::empty());
    } else if data.len() > 1 {
        let rest = data.drop_last();
        lemma_slices_apart(rest);
    }
}

/// No glyph lies in the range of more than one run of a mapping.
pub proof fn lemma_runs_apart(m: Map<u16, u16>)
    ensures
        apart(runs(m)),
        forall|i: int, j: int, g: u16|
            0 <= i < runs(m).len() && 0 <= j < runs(m).len() && covers(runs(m)[i], g) && covers(
                runs(m)[j],
                g,
            ) ==> i == j,
{
    lemma_entries_below_lists(m, 0x1_0000);
    lemma_slices_apart(entries(m));
    let records = runs(m);
    assert forall|i: int, j: int, g: u16|
        0 <= i < records.len() && 0 <= j < records.len() && covers(records[i], g) && covers(
            records[j],
            g,
        ) implies i == j by {}
}

/// Range records that a buffer holds are read back from where they stand.
pub proof fn lemma_records_held(bytes: Seq<u8>, at: int, records: Seq<ClassRangeRecord>)
    requires
        holds_at(bytes, at, records_bytes(records)),
    ensures
        records_at(bytes, at, records.len()) == records,
{
    let stored = records_bytes(records);
    let read = records_at(bytes, at, records.len());
    assert forall|i: int| 0 <= i < records.len() implies read[i] == records[i] by {
        let r = records[i];
        let six = record_bytes(r);
        assert(holds_at(bytes, at + 6 * i, six)) by {
            assert forall|k: int| 0 <= k < 6 implies bytes[at + 6 * i + k] == six[k] by {
                assert(bytes.subrange(at, at + stored.len())[6 * i + k] == stored[6 * i + k]);
            }
            assert(bytes.subrange(at + 6 * i, at + 6 * i + 6) =~= six);
        }
        lemma_holds_at_split(
            bytes,
            at + 6 * i,
            u16_be(r.startGlyphID) + u16_be(r.endGlyphID),
            u16_be(r.class),
        );
        lemma_holds_at_split(bytes, at + 6 * i, u16_be(r.startGlyphID), u16_be(r.endGlyphID));
    }
}

/// A table that a buffer holds is read back from where it stands, and
/// the read ends right behind it.
pub proof fn lemma_table_held(bytes: Seq<u8>, at: int, t: TableView)
    requires
        table_fits(t),
        holds_at(bytes, at, table_bytes(t)),
    ensures
        parsed_table(bytes, at) == Some((t, at + table_bytes(t).len())),
{
    match t {
        TableView::Format1 { start, classes } => {
            let count = classes.len() as u16;
            let header = u16_be(1) + u16_be(start) + u16_be(count);
            lemma_holds_at_split(bytes, at, header, u16s_be(classes));
            lemma_holds_at_split(bytes, at, u16_be(1) + u16_be(start), u16_be(count));
            lemma_holds_at_split(bytes, at, u16_be(1), u16_be(start));
            lemma_u16s_held(bytes, at + 6, classes);
        },
        TableView::Format2 { records } => {
            let count = records.len() as u16;
            let header = u16_be(2) + u16_be(count);
            lemma_holds_at_split(bytes, at, header, records_bytes(records));
            lemma_holds_at_split(bytes, at, u16_be(2), u16_be(count));
            lemma_records_held(bytes, at + 4, records);
        },
    }
}

/// A format 1 table whose array does not run past glyph 65535 gives the
/// glyph that lies `i` after its first glyph ID its `i`-th class, and no
/// other glyph a class.
pub proof fn lemma_format1_mapping(start: u16, classes: Seq<u16>)
    requires
        start + classes.len() <= 0x1_0000,
    ensures
        format1_mapping(start, classes) == Map::new(
            |g: u16| start <= g < start + classes.len(),
            |g: u16| classes[g - start],
        ),
    decreases classes.len(),
{
    if classes.len() > 0 {
        lemma_format1_mapping(start, classes.drop_last());
    }
}

/// The table that is written for a mapping is read back as it was,
/// wherever its bytes stand in a buffer, and the read ends right behind
/// them.
pub proof fn lemma_classdef_round_trip_within(m: Map<u16, u16>, before: Seq<u8>, after: Seq<u8>)
    requires
        encodable(m),
    ensures
        parsed_table(before + encoded_classdef(m) + after, before.len() as int) == Some(
            (table_of(m), (before.len() + encoded_classdef(m).len()) as int),
        ),
{
    let stored = encoded_classdef(m);
    let bytes = before + stored + after;
    assert(holds_at(bytes, before.len() as int, stored)) by {
        assert(bytes.subrange(before.len() as int, (before.len() + stored.len()) as int)
            =~= stored);
    }
    lemma_table_held(bytes, before.len() as int, table_of(m));
}

/// Round trip: the bytes that encoding gives for a mapping are decoded as
/// a mapping that gives every glyph the class it has in the first.
///
/// Where format 2 was taken, the decoded mapping is the first mapping.
/// Where format 1 was taken, it has an entry of class 0 besides for each
/// glyph without an entry between the first glyph ID and the last.
pub proof fn lemma_classdef_round_trip(m: Map<u16, u16>)
    requires
        encodable(m),
    ensures
        decoded_classdef(encoded_classdef(m)) == Some(
            if entries(m).len() > 0 && prefers_format1(m) {
                filled(m)
            } else {
                m
            },
        ),
        decoded_classdef(encoded_classdef(m)) matches Some(decoded) && forall|g: u16|
            class_of(decoded, g) == class_of(m, g),
{
    lemma_classdef_round_trip_within(m, Seq::empty(), Seq::empty());
    lemma_no_entries(m);
    if entries(m).len() > 0 {
        if prefers_format1(m) {
            lemma_gid_bounds(m);
            lemma_format1_mapping(first_gid(m), dense_classes(m));
        } else {
            lemma_runs_mapping(m);
        }
    }
}

/// A mapping with an entry for every glyph between its first glyph ID and
/// its last is decoded from its bytes as it was.
pub proof fn lemma_filled_dense(m: Map<u16, u16>)
    requires
        entries(m).len() > 0,
        forall|g: u16| first_gid(m) <= g <= last_gid(m) ==> m.contains_key(g),
    ensures
        filled(m) == m,
{
    lemma_gid_bounds(m);
}

/// The bytes of a mapping are canonical: encoding what was decoded from
/// them gives them again.
///
/// This does not hold of a mapping that takes format 1 while the mapping
/// decoded from its bytes, in which the glyphs without an entry have got
/// one, takes format 2: such mappings are left out.
pub proof fn lemma_classdef_reencode(m: Map<u16, u16>)
    requires
        encodable(m),
        entries(m).len() > 0 && prefers_format1(m) ==> prefers_format1(filled(m)),
    ensures
        decoded_classdef(encoded_classdef(m)) matches Some(decoded) && encodable(decoded)
            && encoded_classdef(decoded) == encoded_classdef(m),
{
    lemma_classdef_round_trip(m);
    if entries(m).len() > 0 && prefers_format1(m) {
        lemma_gid_bounds(m);
        lemma_gids_are(filled(m), first_gid(m), last_gid(m));
    }
}

/// The empty mapping is written as a format 1 table with first glyph ID 0
/// and no classes.
pub proof fn lemma_classdef_empty()
    ensures
        table_of(Map::empty()) == (TableView::Format1 { start: 0, classes: Seq::empty() }),
        encodable(Map::empty()),
        encoded_classdef(Map::empty()) == seq![0u8, 1, 0, 0, 0, 0],
{
    lemma_no_entries(Map::empty());
}

} // verus!
