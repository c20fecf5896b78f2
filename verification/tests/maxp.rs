use fonttools::error::Error;
use fonttools::maxp;

#[test]
fn maxp_ser_v05() {
    let v = maxp::maxp {
        version: maxp::VERSION_0_5,
        table: maxp::MaxpVariant::Maxp05(maxp::maxp05 { numGlyphs: 935 }),
    };
    let binary_maxp = v.to_bytes();
    let maxp_expectation = vec![0x00, 0x00, 0x50, 0x00, 0x03, 0xa7];
    assert_eq!(binary_maxp, maxp_expectation);
}

#[test]
fn maxp_ser_v10() {
    let v = maxp::maxp {
        version: maxp::VERSION_1_0,
        table: maxp::MaxpVariant::Maxp10(maxp::maxp10 {
            numGlyphs: 1117,
            maxPoints: 98,
            maxContours: 7,
            maxCompositePoints: 0,
            maxCompositeContours: 0,
            maxZones: 2,
            maxTwilightPoints: 0,
            maxStorage: 0,
            maxFunctionDefs: 0,
            maxInstructionDefs: 0,
            maxStackElements: 0,
            maxSizeOfInstructions: 0,
            maxComponentElements: 0,
            maxComponentDepth: 0,
        }),
    };
    let binary_maxp = v.to_bytes();
    let maxp_expectation = vec![
        0x00, 0x01, 0x00, 0x00, 0x04, 0x5d, 0x00, 0x62, 0x00, 0x07, 0x00, 0x00, 0x00, 0x00, 0x00,
        0x02, 0x00, 0x00, 0x00, 0x00, 0x00, 0x00, 0x00, 0x00, 0x00, 0x00, 0x00, 0x00, 0x00, 0x00,
        0x00, 0x00,
    ];
    assert_eq!(binary_maxp, maxp_expectation);
}

#[test]
fn maxp_de_v05() {
    let v = maxp::maxp {
        version: maxp::VERSION_0_5,
        table: maxp::MaxpVariant::Maxp05(maxp::maxp05 { numGlyphs: 935 }),
    };
    let binary_maxp = vec![0x00, 0x00, 0x50, 0x00, 0x03, 0xa7];
    let deserialized: maxp::maxp = maxp::maxp::from_bytes(&binary_maxp).unwrap();
    assert_eq!(deserialized, v);
}

#[test]
fn maxp_de_v10() {
    let binary_maxp = vec![
        0x00, 0x01, 0x00, 0x00, 0x04, 0x5d, 0x00, 0x62, 0x00, 0x07, 0x00, 0x01, 0x00, 0x02, 0x00,
        0x02, 0x00, 0x03, 0x00, 0x04, 0x00, 0x05, 0x00, 0x06, 0x00, 0x07, 0x00, 0x08, 0x00, 0x09,
        0x00, 0x0a, 0xff,
    ];
    let deserialized = maxp::maxp::from_bytes(&binary_maxp).unwrap();
    let expected = maxp::maxp {
        version: maxp::VERSION_1_0,
        table: maxp::MaxpVariant::Maxp10(maxp::maxp10 {
            numGlyphs: 1117,
            maxPoints: 98,
            maxContours: 7,
            maxCompositePoints: 1,
            maxCompositeContours: 2,
            maxZones: 2,
            maxTwilightPoints: 3,
            maxStorage: 4,
            maxFunctionDefs: 5,
            maxInstructionDefs: 6,
            maxStackElements: 7,
            maxSizeOfInstructions: 8,
            maxComponentElements: 9,
            maxComponentDepth: 10,
        }),
    };
    assert_eq!(deserialized, expected);
    assert_eq!(deserialized.to_bytes(), binary_maxp[..32].to_vec());
}

#[test]
fn new05_is_a_version_05_table() {
    let table = maxp::maxp::new05(935);
    assert_eq!(table.version, 0x0000_5000);
    assert_eq!(table.table, maxp::MaxpVariant::Maxp05(maxp::maxp05 { numGlyphs: 935 }));
    assert_eq!(table.num_glyphs(), 935);
    assert_eq!(table.to_bytes(), vec![0x00, 0x00, 0x50, 0x00, 0x03, 0xa7]);
}

#[test]
fn new10_is_a_version_10_table() {
    let table = maxp::maxp::new10(1117, 98, 7, 1, 2, 3, 4);
    assert_eq!(table.version, 0x0001_0000);
    assert_eq!(
        table.table,
        maxp::MaxpVariant::Maxp10(maxp::maxp10 {
            numGlyphs: 1117,
            maxPoints: 98,
            maxContours: 7,
            maxCompositePoints: 1,
            maxCompositeContours: 2,
            maxZones: 2,
            maxTwilightPoints: 0,
            maxStorage: 0,
            maxFunctionDefs: 0,
            maxInstructionDefs: 0,
            maxStackElements: 0,
            maxSizeOfInstructions: 0,
            maxComponentElements: 3,
            maxComponentDepth: 4,
        })
    );
    assert_eq!(table.num_glyphs(), 1117);
    assert_eq!(maxp::maxp::from_bytes(&table.to_bytes()), Ok(table));
}

#[test]
fn set_num_glyphs_changes_only_the_number_of_glyphs() {
    let mut short = maxp::maxp::new05(1);
    short.set_num_glyphs(600);
    assert_eq!(short, maxp::maxp::new05(600));
    let mut long = maxp::maxp::new10(1, 98, 7, 1, 2, 3, 4);
    long.set_num_glyphs(600);
    assert_eq!(long, maxp::maxp::new10(600, 98, 7, 1, 2, 3, 4));
    assert_eq!(long.num_glyphs(), 600);
}

#[test]
fn unknown_versions_are_malformed() {
    assert_eq!(
        maxp::maxp::from_bytes(&[0x00, 0x00, 0x80, 0x00, 0x03, 0xa7]),
        Err(Error::MalformedTable)
    );
    assert_eq!(
        maxp::maxp::from_bytes(&[0x00, 0x02, 0x00, 0x00, 0x03, 0xa7]),
        Err(Error::MalformedTable)
    );
}

#[test]
fn truncated_maxp_tables_are_malformed() {
    assert_eq!(maxp::maxp::from_bytes(&[]), Err(Error::MalformedTable));
    assert_eq!(maxp::maxp::from_bytes(&[0x00, 0x00, 0x50]), Err(Error::MalformedTable));
    assert_eq!(
        maxp::maxp::from_bytes(&[0x00, 0x00, 0x50, 0x00, 0x03]),
        Err(Error::MalformedTable)
    );
    assert_eq!(
        maxp::maxp::from_bytes(&[0x00, 0x01, 0x00, 0x00, 0x04, 0x5d, 0x00, 0x62]),
        Err(Error::MalformedTable)
    );
}

#[test]
fn fields_follow_the_version() {
    assert_eq!(maxp::maxp::field_count(0x0000_5000), Some(1));
    assert_eq!(maxp::maxp::field_count(0x0001_0000), Some(14));
    assert_eq!(maxp::maxp::field_count(0x0000_8000), None);
    assert_eq!(maxp::maxp::from_fields(0x0000_5000, &[935]), Some(maxp::maxp::new05(935)));
    assert_eq!(maxp::maxp::from_fields(0x0000_5000, &[935, 1]), None);
    assert_eq!(maxp::maxp::from_fields(0x0001_0000, &[935]), None);
    assert_eq!(maxp::maxp::from_fields(0x0002_0000, &[935]), None);
    assert_eq!(
        maxp::maxp::from_fields(0x0001_0000, &[1117, 98, 7, 1, 2, 2, 0, 0, 0, 0, 0, 0, 3, 4]),
        Some(maxp::maxp::new10(1117, 98, 7, 1, 2, 3, 4))
    );
    assert_eq!(maxp::maxp::new05(935).fields(), vec![935]);
    assert_eq!(
        maxp::maxp::new10(1117, 98, 7, 1, 2, 3, 4).fields(),
        vec![1117, 98, 7, 1, 2, 2, 0, 0, 0, 0, 0, 0, 3, 4]
    );
}
