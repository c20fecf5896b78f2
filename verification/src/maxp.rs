//! The maximum profile table, which says how many glyphs a font has and,
//! in its longer form, how much memory its TrueType outlines need.

use crate::cursor::{
    holds_at, lemma_holds_at_split, lemma_u16s_held, put_u16_array, put_u32,
    u16s_at, u16s_be, u32_at, u32_be, Reader,
};
use crate::error::Error;
use vstd::prelude::*;

verus! {

/// The version field of a version 0.5 table.
pub const VERSION_0_5: u32 = 0x0000_5000;

/// The version field of a version 1.0 table.
pub const VERSION_1_0: u32 = 0x0001_0000;

/// The fields of a version 0.5 table behind its version.
#[allow(non_camel_case_types)]
#[allow(non_snake_case)]
#[derive(Debug, Clone, Copy, PartialEq, Eq, Structural)]
pub struct maxp05 {
    pub numGlyphs: u16,
}

/// The fields of a version 1.0 table behind its version.
#[allow(non_camel_case_types)]
#[allow(non_snake_case)]
#[derive(Debug, Clone, Copy, PartialEq, Eq, Structural)]
pub struct maxp10 {
    pub numGlyphs: u16,
    pub maxPoints: u16,
    pub maxContours: u16,
    pub maxCompositePoints: u16,
    pub maxCompositeContours: u16,
    pub maxZones: u16,
    pub maxTwilightPoints: u16,
    pub maxStorage: u16,
    pub maxFunctionDefs: u16,
    pub maxInstructionDefs: u16,
    pub maxStackElements: u16,
    pub maxSizeOfInstructions: u16,
    pub maxComponentElements: u16,
    pub maxComponentDepth: u16,
}

/// Which maxp table is contained within the object.
///
/// The `maxp` table comes in two versions, 0.5 and 1.0, which have
/// different fields. The enum allows a single maxp object to represent
/// both versions.
#[derive(Debug, Clone, Copy, PartialEq, Eq, Structural)]
pub enum MaxpVariant {
    /// This table is a maxp version 0.5
    Maxp05(maxp05),
    /// This table is a maxp version 1.0
    Maxp10(maxp10),
}

/// A maxp table, regardless of version.
#[allow(non_camel_case_types)]
#[derive(Debug, Clone, Copy, PartialEq, Eq, Structural)]
pub struct maxp {
    /// The version number as the table stores it: the major version in the
    /// upper sixteen bits, the minor version in the four bits below them.
    pub version: u32,
    /// Either a maxp 0.5 table or a maxp 1.0 table
    pub table: MaxpVariant,
}

/// The fields of a version 1.0 table in the order in which they are stored.
pub open spec fn maxp10_fields(t: maxp10) -> Seq<u16> {
    seq![
        t.numGlyphs,
        t.maxPoints,
        t.maxContours,
        t.maxCompositePoints,
        t.maxCompositeContours,
        t.maxZones,
        t.maxTwilightPoints,
        t.maxStorage,
        t.maxFunctionDefs,
        t.maxInstructionDefs,
        t.maxStackElements,
        t.maxSizeOfInstructions,
        t.maxComponentElements,
        t.maxComponentDepth,
    ]
}

/// The version 1.0 table with the given fields, in the order in which they
/// are stored.
pub open spec fn maxp10_of(fields: Seq<u16>) -> maxp10
    recommends
        fields.len() == 14,
{
    maxp10 {
        numGlyphs: fields[0],
        maxPoints: fields[1],
        maxContours: fields[2],
        maxCompositePoints: fields[3],
        maxCompositeContours: fields[4],
        maxZones: fields[5],
        maxTwilightPoints: fields[6],
        maxStorage: fields[7],
        maxFunctionDefs: fields[8],
        maxInstructionDefs: fields[9],
        maxStackElements: fields[10],
        maxSizeOfInstructions: fields[11],
        maxComponentElements: fields[12],
        maxComponentDepth: fields[13],
    }
}

/// The fields of a table behind its version, in the order in which they are
/// stored.
pub open spec fn variant_fields(table: MaxpVariant) -> Seq<u16> {
    match table {
        MaxpVariant::Maxp05(t) => seq![t.numGlyphs],
        MaxpVariant::Maxp10(t) => maxp10_fields(t),
    }
}

/// The bytes of a table: the version, then the fields.
pub open spec fn maxp_bytes(t: maxp) -> Seq<u8> {
    u32_be(t.version) + u16s_be(variant_fields(t.table))
}

/// How many fields follow the version `version`, if it is 0.5 or 1.0.
pub open spec fn fields_of_version(version: u32) -> Option<nat> {
    if version == VERSION_0_5 {
        Some(1)
    } else if version == VERSION_1_0 {
        Some(14)
    } else {
        None
    }
}

/// The table with the version `version`, which is 0.5 or 1.0, and the
/// fields `fields`, in the order in which they are stored.
pub open spec fn maxp_of_fields(version: u32, fields: Seq<u16>) -> maxp
    recommends
        fields_of_version(version) == Some(fields.len()),
{
    maxp {
        version,
        table: if version == VERSION_0_5 {
            MaxpVariant::Maxp05(maxp05 { numGlyphs: fields[0] })
        } else {
            MaxpVariant::Maxp10(maxp10_of(fields))
        },
    }
}

/// The table that `bytes` holds at `pos`, and the position behind it.
///
/// There is none where the buffer ends before the end of the table, and
/// where the version is neither 0.5 nor 1.0.
pub open spec fn parsed_maxp(bytes: Seq<u8>, pos: int) -> Option<(maxp, int)> {
    if pos < 0 || pos + 4 > bytes.len() {
        None
    } else {
        let version = u32_at(bytes, pos);
        match fields_of_version(version) {
            None => None,
            Some(count) => {
                if pos + 4 + 2 * count > bytes.len() {
                    None
                } else {
                    Some(
                        (
                            maxp_of_fields(version, u16s_at(bytes, pos + 4, count)),
                            pos + 4 + 2 * count,
                        ),
                    )
                }
            },
        }
    }
}

/// Whether the table's version is the one that belongs to its fields.
pub open spec fn version_matches(t: maxp) -> bool {
    match t.table {
        MaxpVariant::Maxp05(_) => t.version == VERSION_0_5,
        MaxpVariant::Maxp10(_) => t.version == VERSION_1_0,
    }
}

/// A table whose version belongs to its fields is read back from where a
/// buffer holds it, and the read ends right behind it.
pub proof fn lemma_maxp_round_trip(bytes: Seq<u8>, at: int, t: maxp)
    requires
        version_matches(t),
        holds_at(bytes, at, maxp_bytes(t)),
    ensures
        parsed_maxp(bytes, at) == Some((t, at + maxp_bytes(t).len())),
{
    let fields = variant_fields(t.table);
    lemma_holds_at_split(bytes, at, u32_be(t.version), u16s_be(fields));
    lemma_u16s_held(bytes, at + 4, fields);
}

impl maxp {
    /// The number of glyphs that the table gives.
    pub open spec fn glyphs(self) -> u16 {
        match self.table {
            MaxpVariant::Maxp05(s) => s.numGlyphs,
            MaxpVariant::Maxp10(s) => s.numGlyphs,
        }
    }

    /// The table with `num` as its number of glyphs, and all else as it is.
    pub open spec fn with_glyphs(self, num: u16) -> maxp {
        maxp {
            version: self.version,
            table: match self.table {
                MaxpVariant::Maxp05(s) => MaxpVariant::Maxp05(maxp05 { numGlyphs: num }),
                MaxpVariant::Maxp10(s) => MaxpVariant::Maxp10(maxp10 { numGlyphs: num, ..s }),
            },
        }
    }

    /// Creates a new `maxp` table with version=0.5, given a number of glyphs
    pub fn new05(num_glyphs: u16) -> (table: maxp)
        ensures
            table == (maxp {
                version: VERSION_0_5,
                table: MaxpVariant::Maxp05(maxp05 { numGlyphs: num_glyphs }),
            }),
    {
        maxp { version: VERSION_0_5, table: MaxpVariant::Maxp05(maxp05 { numGlyphs: num_glyphs }) }
    }

    /// Creates a new `maxp` table with version=1.0 for a font with two
    /// zones that uses no twilight points, storage, functions, instructions
    /// or stack.
    #[allow(non_snake_case)]
    pub fn new10(
        numGlyphs: u16,
        maxPoints: u16,
        maxContours: u16,
        maxCompositePoints: u16,
        maxCompositeContours: u16,
        maxComponentElements: u16,
        maxComponentDepth: u16,
    ) -> (table: maxp)
        ensures
            table == (maxp {
                version: VERSION_1_0,
                table: MaxpVariant::Maxp10(
                    maxp10 {
                        numGlyphs,
                        maxPoints,
                        maxContours,
                        maxCompositePoints,
                        maxCompositeContours,
                        maxZones: 2,
                        maxTwilightPoints: 0,
                        maxStorage: 0,
                        maxFunctionDefs: 0,
                        maxInstructionDefs: 0,
                        maxStackElements: 0,
                        maxSizeOfInstructions: 0,
                        maxComponentElements,
                        maxComponentDepth,
                    },
                ),
            }),
    {
        maxp {
            version: VERSION_1_0,
            table: MaxpVariant::Maxp10(
                maxp10 {
                    numGlyphs,
                    maxPoints,
                    maxContours,
                    maxCompositePoints,
                    maxCompositeContours,
                    maxZones: 2,
                    maxTwilightPoints: 0,
                    maxStorage: 0,
                    maxFunctionDefs: 0,
                    maxInstructionDefs: 0,
                    maxStackElements: 0,
                    maxSizeOfInstructions: 0,
                    maxComponentElements,
                    maxComponentDepth,
                },
            ),
        }
    }

    /// The number of glyphs that the table gives.
    pub fn num_glyphs(&self) -> (num: u16)
        ensures
            num == self.glyphs(),
    {
        match &self.table {
            MaxpVariant::Maxp05(s) => s.numGlyphs,
            MaxpVariant::Maxp10(s) => s.numGlyphs,
        }
    }

    /// Sets the number of glyphs, and leaves all else as it is.
    pub fn set_num_glyphs(&mut self, num: u16)
        ensures
            *final(self) == old(self).with_glyphs(num),
    {
        match self.table {
            MaxpVariant::Maxp05(s) => {
                self.table = MaxpVariant::Maxp05(maxp05 { numGlyphs: num });
            },
            MaxpVariant::Maxp10(s) => {
                self.table = MaxpVariant::Maxp10(maxp10 { numGlyphs: num, ..s });
            },
        }
    }

    /// How many fields follow the version `version`, if it is 0.5 or 1.0.
    pub fn field_count(version: u32) -> (count: Option<usize>)
        ensures
            match count {
                Some(n) => fields_of_version(version) == Some(n as nat),
                None => fields_of_version(version) is None,
            },
    {
        if version == VERSION_0_5 {
            Some(1)
        } else if version == VERSION_1_0 {
            Some(14)
        } else {
            None
        }
    }

    /// The table with the version `version` and the fields `fields`, in
    /// the order in which they are stored, if the version is 0.5 or 1.0 and
    /// the fields are as many as follow that version.
    pub fn from_fields(version: u32, fields: &[u16]) -> (table: Option<maxp>)
        ensures
            table == if fields_of_version(version) == Some(fields@.len()) {
                Some(maxp_of_fields(version, fields@))
            } else {
                None::<maxp>
            },
    {
        if version == VERSION_0_5 && fields.len() == 1 {
            Some(maxp { version, table: MaxpVariant::Maxp05(maxp05 { numGlyphs: fields[0] }) })
        } else if version == VERSION_1_0 && fields.len() == 14 {
            Some(
                maxp {
                    version,
                    table: MaxpVariant::Maxp10(
                        maxp10 {
                            numGlyphs: fields[0],
                            maxPoints: fields[1],
                            maxContours: fields[2],
                            maxCompositePoints: fields[3],
                            maxCompositeContours: fields[4],
                            maxZones: fields[5],
                            maxTwilightPoints: fields[6],
                            maxStorage: fields[7],
                            maxFunctionDefs: fields[8],
                            maxInstructionDefs: fields[9],
                            maxStackElements: fields[10],
                            maxSizeOfInstructions: fields[11],
                            maxComponentElements: fields[12],
                            maxComponentDepth: fields[13],
                        },
                    ),
                },
            )
        } else {
            None
        }
    }

    /// Reads a maxp table at the reader's position.
    ///
    /// The read fails where the buffer ends before the end of the table, and
    /// where the version is neither 0.5 nor 1.0.
    pub fn read(reader: &mut Reader) -> (res: Result<maxp, Error>)
        ensures
            final(reader).bytes() == old(reader).bytes(),
            match res {
                Ok(t) => parsed_maxp(old(reader).bytes(), old(reader).pos()) == Some(
                    (t, final(reader).pos()),
                ),
                Err(e) => e == Error::MalformedTable && parsed_maxp(
                    old(reader).bytes(),
                    old(reader).pos(),
                ) is None,
            },
    {
        proof {
            use_type_invariant(&*reader);
        }
        let version = match reader.read_u32() {
            Ok(v) => v,
            Err(e) => {
                return Err(e);
            },
        };
        let count = match maxp::field_count(version) {
            Some(n) => n,
            None => {
                return Err(Error::MalformedTable);
            },
        };
        let fields = match reader.read_u16_array(count) {
            Ok(v) => v,
            Err(e) => {
                return Err(e);
            },
        };
        match maxp::from_fields(version, fields.as_slice()) {
            Some(table) => Ok(table),
            None => Err(Error::MalformedTable),
        }
    }

    /// Decodes a maxp table.
    pub fn from_bytes(bytes: &[u8]) -> (res: Result<maxp, Error>)
        ensures
            match res {
                Ok(t) => parsed_maxp(bytes@, 0) matches Some((found, _)) && found == t,
                Err(e) => e == Error::MalformedTable && parsed_maxp(bytes@, 0) is None,
            },
    {
        let mut reader = Reader::new(bytes);
        maxp::read(&mut reader)
    }

    /// The fields of the table behind its version, in the order in which
    /// they are stored.
    pub fn fields(&self) -> (fields: Vec<u16>)
        ensures
            fields@ == variant_fields(self.table),
    {
        let fields: Vec<u16> = match self.table {
            MaxpVariant::Maxp05(s) => vec![s.numGlyphs],
            MaxpVariant::Maxp10(s) => vec![
                s.numGlyphs,
                s.maxPoints,
                s.maxContours,
                s.maxCompositePoints,
                s.maxCompositeContours,
                s.maxZones,
                s.maxTwilightPoints,
                s.maxStorage,
                s.maxFunctionDefs,
                s.maxInstructionDefs,
                s.maxStackElements,
                s.maxSizeOfInstructions,
                s.maxComponentElements,
                s.maxComponentDepth,
            ],
        };
        fields
    }

    /// The bytes of the table: the version, then the fields.
    pub fn to_bytes(&self) -> (out: Vec<u8>)
        ensures
            out@ == maxp_bytes(*self),
    {
        let mut out: Vec<u8> = Vec::new();
        put_u32(&mut out, self.version);
        let fields = self.fields();
        put_u16_array(&mut out, fields.as_slice());
        out
    }
}

} // verus!
