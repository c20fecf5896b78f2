use fonttools::cursor::Reader;
use fonttools::error::Error;
use fonttools::layout::classdef::{
    consecutive_slices, decode_classdef, encode_classdef, ClassDef, ClassDefFormat1,
    ClassDefFormat2, ClassDefTable, ClassRangeRecord,
};
use std::collections::BTreeMap;

fn classdef(pairs: &[(u16, u16)]) -> ClassDef {
    let mut classes = BTreeMap::new();
    for (glyph, class) in pairs {
        classes.insert(*glyph, *class);
    }
    ClassDef { classes }
}

fn record(start: u16, end: u16, class: u16) -> ClassRangeRecord {
    ClassRangeRecord { startGlyphID: start, endGlyphID: end, class }
}

#[test]
fn test_format2_deser() {
    let expected = classdef(&[
        (24, 1),
        (25, 1),
        (26, 1),
        (27, 1),
        (28, 1),
        (29, 2),
        (30, 1),
        (31, 5),
        (32, 5),
        (33, 1),
        (34, 3),
        (35, 1),
        (36, 1),
        (70, 1),
        (71, 2),
        (72, 2),
        (73, 1),
        (74, 1),
        (75, 1),
        (76, 2),
        (77, 5),
        (78, 3),
        (79, 3),
        (80, 1),
        (81, 1),
        (82, 2),
        (83, 1),
        (84, 2),
    ]);
    let binary_classdef = vec![
        0x00, 0x02, 0x00, 0x11, 0x00, 0x18, 0x00, 0x1c, 0x00, 0x01, 0x00, 0x1d, 0x00, 0x1d, 0x00,
        0x02, 0x00, 0x1e, 0x00, 0x1e, 0x00, 0x01, 0x00, 0x1f, 0x00, 0x20, 0x00, 0x05, 0x00, 0x21,
        0x00, 0x21, 0x00, 0x01, 0x00, 0x22, 0x00, 0x22, 0x00, 0x03, 0x00, 0x23, 0x00, 0x24, 0x00,
        0x01, 0x00, 0x46, 0x00, 0x46, 0x00, 0x01, 0x00, 0x47, 0x00, 0x48, 0x00, 0x02, 0x00, 0x49,
        0x00, 0x4b, 0x00, 0x01, 0x00, 0x4c, 0x00, 0x4c, 0x00, 0x02, 0x00, 0x4d, 0x00, 0x4d, 0x00,
        0x05, 0x00, 0x4e, 0x00, 0x4f, 0x00, 0x03, 0x00, 0x50, 0x00, 0x51, 0x00, 0x01, 0x00, 0x52,
        0x00, 0x52, 0x00, 0x02, 0x00, 0x53, 0x00, 0x53, 0x00, 0x01, 0x00, 0x54, 0x00, 0x54, 0x00,
        0x02,
    ];
    let deserialized: ClassDef = decode_classdef(&binary_classdef).unwrap();
    assert_eq!(deserialized, expected);
    let serialized = encode_classdef(&deserialized);
    assert_eq!(serialized, binary_classdef);
}

#[test]
fn test_format1_deser() {
    let expected = classdef(&[
        (1, 1),
        (2, 2),
        (3, 0),
        (4, 1),
        (5, 2),
        (6, 0),
        (7, 1),
        (8, 2),
        (9, 0),
        (10, 1),
        (11, 2),
        (12, 0),
        (13, 1),
        (14, 2),
    ]);
    let binary_classdef = vec![
        0x00, 0x01, 0x00, 0x01, 0x00, 0x0e, 0x00, 0x01, 0x00, 0x02, 0x00, 0x00, 0x00, 0x01, 0x00,
        0x02, 0x00, 0x00, 0x00, 0x01, 0x00, 0x02, 0x00, 0x00, 0x00, 0x01, 0x00, 0x02, 0x00, 0x00,
        0x00, 0x01, 0x00, 0x02,
    ];
    let deserialized: ClassDef = decode_classdef(&binary_classdef).unwrap();
    assert_eq!(deserialized, expected);
    let serialized = encode_classdef(&deserialized);
    assert_eq!(serialized, binary_classdef);
}

#[test]
fn empty_mapping_is_an_empty_format1_table() {
    let empty = classdef(&[]);
    assert_eq!(encode_classdef(&empty), vec![0x00, 0x01, 0x00, 0x00, 0x00, 0x00]);
    assert_eq!(decode_classdef(&[0x00, 0x01, 0x00, 0x00, 0x00, 0x00]).unwrap(), empty);
    match empty.to_table() {
        ClassDefTable::Format1(t) => {
            assert_eq!(t.startGlyphID, 0);
            assert!(t.classValueArray.is_empty());
        }
        ClassDefTable::Format2(_) => panic!("format 2 for the empty mapping"),
    }
}

#[test]
fn singleton_takes_format1() {
    let one = classdef(&[(7, 3)]);
    assert_eq!(encode_classdef(&one), vec![0x00, 0x01, 0x00, 0x07, 0x00, 0x01, 0x00, 0x03]);
    assert_eq!(decode_classdef(&encode_classdef(&one)).unwrap(), one);
}

#[test]
fn format_choice_weighs_runs_against_width() {
    // One run over glyphs 10 to 11: 3 is not more than 2 + 1, so format 2.
    let two = classdef(&[(10, 4), (11, 4)]);
    assert_eq!(
        encode_classdef(&two),
        vec![0x00, 0x02, 0x00, 0x01, 0x00, 0x0a, 0x00, 0x0b, 0x00, 0x04]
    );
    // Two runs over glyphs 10 to 11: 6 is more than 2 + 1, so format 1.
    let split = classdef(&[(10, 4), (11, 5)]);
    assert_eq!(
        encode_classdef(&split),
        vec![0x00, 0x01, 0x00, 0x0a, 0x00, 0x02, 0x00, 0x04, 0x00, 0x05]
    );
    // Two runs over glyphs 1 to 5: 6 is equal to 2 + 4, so format 2.
    let equal = classdef(&[(1, 9), (5, 9)]);
    assert_eq!(
        encode_classdef(&equal),
        vec![
            0x00, 0x02, 0x00, 0x02, 0x00, 0x01, 0x00, 0x01, 0x00, 0x09, 0x00, 0x05, 0x00, 0x05,
            0x00, 0x09
        ]
    );
    // Two runs over glyphs 1 to 4: 6 is more than 2 + 3, so format 1.
    let more = classdef(&[(1, 9), (4, 9)]);
    assert_eq!(
        encode_classdef(&more),
        vec![
            0x00, 0x01, 0x00, 0x01, 0x00, 0x04, 0x00, 0x09, 0x00, 0x00, 0x00, 0x00, 0x00, 0x09
        ]
    );
}

#[test]
fn format1_fills_gaps_with_class_zero() {
    let sparse = classdef(&[(1, 5), (3, 5)]);
    let bytes = encode_classdef(&sparse);
    assert_eq!(
        bytes,
        vec![0x00, 0x01, 0x00, 0x01, 0x00, 0x03, 0x00, 0x05, 0x00, 0x00, 0x00, 0x05]
    );
    let decoded = decode_classdef(&bytes).unwrap();
    assert_eq!(decoded, classdef(&[(1, 5), (2, 0), (3, 5)]));
    for glyph in 0..10u16 {
        assert_eq!(decoded.class(glyph), sparse.class(glyph));
    }
    assert_eq!(sparse.class(1), 5);
    assert_eq!(sparse.class(2), 0);
    assert_eq!(sparse.class(4), 0);
}

#[test]
fn format2_round_trip_is_exact() {
    let ranges = classdef(&[(100, 1), (101, 1), (102, 1), (103, 1), (200, 2), (201, 2), (202, 2)]);
    let bytes = encode_classdef(&ranges);
    assert_eq!(
        bytes,
        vec![
            0x00, 0x02, 0x00, 0x02, 0x00, 0x64, 0x00, 0x67, 0x00, 0x01, 0x00, 0xc8, 0x00, 0xca,
            0x00, 0x02
        ]
    );
    assert_eq!(decode_classdef(&bytes).unwrap(), ranges);
}

#[test]
fn reencoding_a_decoded_table_gives_the_same_bytes() {
    let dense = classdef(&[(1, 1), (2, 2), (3, 0), (4, 1)]);
    let bytes = encode_classdef(&dense);
    let again = encode_classdef(&decode_classdef(&bytes).unwrap());
    assert_eq!(again, bytes);
    let ranges = classdef(&[
        (24, 1),
        (25, 1),
        (26, 1),
        (27, 1),
        (28, 1),
        (70, 2),
        (71, 2),
        (72, 2),
    ]);
    let bytes = encode_classdef(&ranges);
    let again = encode_classdef(&decode_classdef(&bytes).unwrap());
    assert_eq!(again, bytes);
}

#[test]
fn reencoding_can_change_the_format_when_gaps_were_filled() {
    // Glyphs 1 and 3 of class 0 are two runs, and format 1 is taken. Decoded,
    // glyphs 1 to 3 are one run of class 0, and format 2 is taken.
    let sparse = classdef(&[(1, 0), (3, 0)]);
    let bytes = encode_classdef(&sparse);
    assert_eq!(
        bytes,
        vec![0x00, 0x01, 0x00, 0x01, 0x00, 0x03, 0x00, 0x00, 0x00, 0x00, 0x00, 0x00]
    );
    let again = encode_classdef(&decode_classdef(&bytes).unwrap());
    assert_eq!(again, vec![0x00, 0x02, 0x00, 0x01, 0x00, 0x01, 0x00, 0x03, 0x00, 0x00]);
}

#[test]
fn later_ranges_overwrite_earlier_ones() {
    let bytes = vec![
        0x00, 0x02, 0x00, 0x02, 0x00, 0x05, 0x00, 0x08, 0x00, 0x01, 0x00, 0x07, 0x00, 0x09, 0x00,
        0x02,
    ];
    let decoded = decode_classdef(&bytes).unwrap();
    assert_eq!(decoded, classdef(&[(5, 1), (6, 1), (7, 2), (8, 2), (9, 2)]));
}

#[test]
fn a_range_that_ends_before_it_starts_is_empty() {
    let bytes = vec![0x00, 0x02, 0x00, 0x01, 0x00, 0x09, 0x00, 0x05, 0x00, 0x01];
    assert_eq!(decode_classdef(&bytes).unwrap(), classdef(&[]));
}

#[test]
fn a_range_can_end_with_the_last_glyph_id() {
    let bytes = vec![0x00, 0x02, 0x00, 0x01, 0xff, 0xfe, 0xff, 0xff, 0x00, 0x07];
    assert_eq!(decode_classdef(&bytes).unwrap(), classdef(&[(0xfffe, 7), (0xffff, 7)]));
    assert_eq!(encode_classdef(&classdef(&[(0xfffe, 7), (0xffff, 7)])), bytes);
}

#[test]
fn format1_glyph_ids_wrap_round() {
    let bytes = vec![0x00, 0x01, 0xff, 0xff, 0x00, 0x02, 0x00, 0x03, 0x00, 0x04];
    assert_eq!(decode_classdef(&bytes).unwrap(), classdef(&[(0xffff, 3), (0, 4)]));
}

#[test]
fn bytes_behind_the_table_are_not_read() {
    let bytes = vec![0x00, 0x01, 0x00, 0x07, 0x00, 0x01, 0x00, 0x03, 0xde, 0xad];
    assert_eq!(decode_classdef(&bytes).unwrap(), classdef(&[(7, 3)]));
}

#[test]
fn truncated_tables_are_malformed() {
    assert_eq!(decode_classdef(&[]), Err(Error::MalformedTable));
    assert_eq!(decode_classdef(&[0x00]), Err(Error::MalformedTable));
    assert_eq!(decode_classdef(&[0x00, 0x01]), Err(Error::MalformedTable));
    assert_eq!(decode_classdef(&[0x00, 0x01, 0x00, 0x01]), Err(Error::MalformedTable));
    assert_eq!(
        decode_classdef(&[0x00, 0x01, 0x00, 0x01, 0x00, 0x02, 0x00, 0x01, 0x00]),
        Err(Error::MalformedTable)
    );
    assert_eq!(decode_classdef(&[0x00, 0x02]), Err(Error::MalformedTable));
    assert_eq!(
        decode_classdef(&[0x00, 0x02, 0x00, 0x01, 0x00, 0x05, 0x00, 0x08, 0x00]),
        Err(Error::MalformedTable)
    );
}

#[test]
fn unknown_formats_are_malformed() {
    assert_eq!(
        decode_classdef(&[0x00, 0x00, 0x00, 0x00, 0x00, 0x00]),
        Err(Error::MalformedTable)
    );
    assert_eq!(
        decode_classdef(&[0x00, 0x03, 0x00, 0x00, 0x00, 0x00]),
        Err(Error::MalformedTable)
    );
    assert_eq!(
        decode_classdef(&[0x01, 0x00, 0x00, 0x00, 0x00, 0x00]),
        Err(Error::MalformedTable)
    );
}

#[test]
fn consecutive_slices_cuts_at_gaps_and_class_changes() {
    assert_eq!(consecutive_slices(&[]), vec![]);
    assert_eq!(consecutive_slices(&[(4, 1)]), vec![record(4, 4, 1)]);
    assert_eq!(
        consecutive_slices(&[(4, 1), (5, 1), (6, 2), (8, 2), (9, 2)]),
        vec![record(4, 5, 1), record(6, 6, 2), record(8, 9, 2)]
    );
    assert_eq!(
        consecutive_slices(&[(0xfffe, 1), (0xffff, 1)]),
        vec![record(0xfffe, 0xffff, 1)]
    );
    assert_eq!(
        consecutive_slices(&[(0xffff, 1), (0, 1)]),
        vec![record(0xffff, 0xffff, 1), record(0, 0, 1)]
    );
}

#[test]
fn pairs_ascend_by_glyph_id() {
    let c = classdef(&[(9, 1), (2, 7), (5, 0)]);
    assert_eq!(c.pairs(), vec![(2, 7), (5, 0), (9, 1)]);
}

#[test]
fn tables_and_mappings() {
    let format1 = ClassDefTable::Format1(ClassDefFormat1 {
        startGlyphID: 3,
        classValueArray: vec![8, 0, 9],
    });
    assert_eq!(ClassDef::from_table(&format1), classdef(&[(3, 8), (4, 0), (5, 9)]));
    assert!(format1.fits());
    assert_eq!(
        format1.to_bytes(),
        vec![0x00, 0x01, 0x00, 0x03, 0x00, 0x03, 0x00, 0x08, 0x00, 0x00, 0x00, 0x09]
    );
    let format2 = ClassDefTable::Format2(ClassDefFormat2 {
        classRangeRecords: vec![record(0x0102, 0x0103, 0x0405)],
    });
    assert_eq!(ClassDef::from_table(&format2), classdef(&[(0x0102, 0x0405), (0x0103, 0x0405)]));
    assert_eq!(
        format2.to_bytes(),
        vec![0x00, 0x02, 0x00, 0x01, 0x01, 0x02, 0x01, 0x03, 0x04, 0x05]
    );
    assert_eq!(classdef(&[(3, 8), (4, 0), (5, 9)]).to_table(), format1);
}

#[test]
fn a_table_of_all_glyph_ids_does_not_fit() {
    let mut classes = BTreeMap::new();
    for glyph in 0..=0xffffu16 {
        classes.insert(glyph, glyph % 2);
    }
    let all = ClassDef { classes };
    let table = all.to_table();
    assert!(!table.fits());
    match table {
        ClassDefTable::Format1(t) => assert_eq!(t.classValueArray.len(), 0x1_0000),
        ClassDefTable::Format2(_) => panic!("format 2 for alternating classes"),
    }
    let mut classes = BTreeMap::new();
    for glyph in 0..=0xffffu16 {
        classes.insert(glyph, 1);
    }
    let one_run = ClassDef { classes };
    assert!(one_run.to_table().fits());
    assert_eq!(
        encode_classdef(&one_run),
        vec![0x00, 0x02, 0x00, 0x01, 0x00, 0x00, 0xff, 0xff, 0x00, 0x01]
    );
}

#[test]
fn a_decoded_mapping_can_have_gaps() {
    let bytes = vec![
        0x00, 0x02, 0x00, 0x02, 0x00, 0x01, 0x00, 0x01, 0x00, 0x05, 0x00, 0x03, 0x00, 0x03, 0x00,
        0x05,
    ];
    let decoded = decode_classdef(&bytes).unwrap();
    assert_eq!(decoded, classdef(&[(1, 5), (3, 5)]));
    assert_eq!(decoded.class(2), 0);
    let again = decode_classdef(&encode_classdef(&decoded)).unwrap();
    assert_eq!(again, classdef(&[(1, 5), (2, 0), (3, 5)]));
}

#[test]
fn records_are_read_and_written_field_by_field() {
    let bytes = [0x00, 0x18, 0x00, 0x1c, 0x00, 0x01, 0xff];
    let mut reader = Reader::new(&bytes);
    assert_eq!(ClassRangeRecord::read(&mut reader), Ok(record(24, 28, 1)));
    assert_eq!(reader.position(), 6);
    assert_eq!(ClassRangeRecord::read(&mut reader), Err(Error::MalformedTable));
    assert_eq!(reader.position(), 6);
    let mut out = vec![0xff];
    record(24, 28, 1).write(&mut out);
    assert_eq!(out, vec![0xff, 0x00, 0x18, 0x00, 0x1c, 0x00, 0x01]);
}

#[test]
fn a_table_is_read_where_the_reader_stands() {
    let bytes = [0xaa, 0x00, 0x01, 0x00, 0x07, 0x00, 0x01, 0x00, 0x03, 0xbb];
    let mut reader = Reader::new(&bytes);
    assert_eq!(reader.read_u8(), Ok(0xaa));
    let table = ClassDefTable::read(&mut reader).unwrap();
    assert_eq!(
        table,
        ClassDefTable::Format1(ClassDefFormat1 {
            startGlyphID: 7,
            classValueArray: vec![3],
        })
    );
    assert_eq!(reader.position(), 9);
    assert_eq!(reader.read_u8(), Ok(0xbb));
}
