//! Logical types, fields, and the schema descriptor.
//!
//! A schema descriptor is the plain-value counterpart of the C-ABI schema
//! struct that crosses the runtime boundary: a format string naming the
//! field's logical type, the field's name, a nullability flag, and a release
//! state standing for the release callback. The format strings follow the
//! C data interface convention for columnar arrays ("b" boolean, "i" 32-bit
//! integer, "U" large string, "tdD" date, and so on), and printing and
//! parsing them round-trips exactly.

use crate::error::PluginError;
use vstd::prelude::*;

verus! {

/// Resolution of a timestamp-like type.
#[derive(Debug, Clone, Copy, PartialEq, Eq, Structural)]
pub enum TimeUnit {
    Milliseconds,
    Microseconds,
    Nanoseconds,
}

/// The logical types the host engine can represent across the boundary.
#[derive(Debug, Clone, Copy, PartialEq, Eq, Structural)]
pub enum DataType {
    Boolean,
    Int8,
    Int16,
    Int32,
    Int64,
    UInt8,
    UInt16,
    UInt32,
    UInt64,
    /// Days since the epoch, 32-bit.
    Date,
    /// Nanoseconds since midnight, 64-bit.
    Time,
    Duration(TimeUnit),
    Datetime(TimeUnit),
    Utf8,
    Binary,
}

/// A named, typed column.
#[derive(Debug, PartialEq, Eq)]
pub struct Field {
    pub name: String,
    pub dtype: DataType,
}

/// Whether a descriptor's release callback is still armed.
///
/// A descriptor is live while its release state is `Armed`; releasing it, or
/// importing it (which takes ownership of its buffers), consumes the
/// descriptor value, so a second release of the same descriptor is not
/// expressible.
#[derive(Debug, Clone, Copy, PartialEq, Eq, Structural)]
pub enum ReleaseState {
    Armed,
    Released,
}

/// The format string of a logical type, as bytes.
pub open spec fn spec_format_of(dt: DataType) -> Seq<u8> {
    match dt {
        DataType::Boolean => seq![0x62u8],  // b
        DataType::Int8 => seq![0x63u8],  // c
        DataType::Int16 => seq![0x73u8],  // s
        DataType::Int32 => seq![0x69u8],  // i
        DataType::Int64 => seq![0x6cu8],  // l
        DataType::UInt8 => seq![0x43u8],  // C
        DataType::UInt16 => seq![0x53u8],  // S
        DataType::UInt32 => seq![0x49u8],  // I
        DataType::UInt64 => seq![0x4cu8],  // L
        DataType::Date => seq![0x74u8, 0x64u8, 0x44u8],  // tdD
        DataType::Time => seq![0x74u8, 0x74u8, 0x6eu8],  // ttn
        DataType::Duration(TimeUnit::Milliseconds) => seq![0x74u8, 0x44u8, 0x6du8],  // tDm
        DataType::Duration(TimeUnit::Microseconds) => seq![0x74u8, 0x44u8, 0x75u8],  // tDu
        DataType::Duration(TimeUnit::Nanoseconds) => seq![0x74u8, 0x44u8, 0x6eu8],  // tDn
        DataType::Datetime(TimeUnit::Milliseconds) => seq![0x74u8, 0x73u8, 0x6du8, 0x3au8],  // tsm:
        DataType::Datetime(TimeUnit::Microseconds) => seq![0x74u8, 0x73u8, 0x75u8, 0x3au8],  // tsu:
        DataType::Datetime(TimeUnit::Nanoseconds) => seq![0x74u8, 0x73u8, 0x6eu8, 0x3au8],  // tsn:
        DataType::Utf8 => seq![0x55u8],  // U
        DataType::Binary => seq![0x5au8],  // Z
    }
}

/// Prints the format string of a logical type.
pub fn format_of(dt: &DataType) -> (out: Vec<u8>)
    ensures
        out@ == spec_format_of(*dt),
{
    let mut out: Vec<u8> = Vec::new();
    match dt {
        DataType::Boolean => out.push(0x62u8),
        DataType::Int8 => out.push(0x63u8),
        DataType::Int16 => out.push(0x73u8),
        DataType::Int32 => out.push(0x69u8),
        DataType::Int64 => out.push(0x6cu8),
        DataType::UInt8 => out.push(0x43u8),
        DataType::UInt16 => out.push(0x53u8),
        DataType::UInt32 => out.push(0x49u8),
        DataType::UInt64 => out.push(0x4cu8),
        DataType::Date => {
            out.push(0x74u8);
            out.push(0x64u8);
            out.push(0x44u8);
        },
        DataType::Time => {
            out.push(0x74u8);
            out.push(0x74u8);
            out.push(0x6eu8);
        },
        DataType::Duration(tu) => {
            out.push(0x74u8);
            out.push(0x44u8);
            out.push(match tu {
                TimeUnit::Milliseconds => 0x6du8,
                TimeUnit::Microseconds => 0x75u8,
                TimeUnit::Nanoseconds => 0x6eu8,
            });
        },
        DataType::Datetime(tu) => {
            out.push(0x74u8);
            out.push(0x73u8);
            out.push(match tu {
                TimeUnit::Milliseconds => 0x6du8,
                TimeUnit::Microseconds => 0x75u8,
                TimeUnit::Nanoseconds => 0x6eu8,
            });
            out.push(0x3au8);
        },
        DataType::Utf8 => out.push(0x55u8),
        DataType::Binary => out.push(0x5au8),
    }
    proof {
        assert(out@ =~= spec_format_of(*dt));
    }
    out
}

/// Parses a format string back into the logical type it names.
///
/// Parsing is exact: it succeeds on precisely the strings `spec_format_of`
/// produces, and printing and parsing round-trip.
pub fn parse_format(f: &Vec<u8>) -> (r: Option<DataType>)
    ensures
        r matches Some(dt) ==> f@ == spec_format_of(dt),
        forall|dt: DataType| f@ == spec_format_of(dt) ==> r == Some(dt),
{
    let r = if f.len() == 1 {
        match f[0] {
            0x62u8 => Some(DataType::Boolean),
            0x63u8 => Some(DataType::Int8),
            0x73u8 => Some(DataType::Int16),
            0x69u8 => Some(DataType::Int32),
            0x6cu8 => Some(DataType::Int64),
            0x43u8 => Some(DataType::UInt8),
            0x53u8 => Some(DataType::UInt16),
            0x49u8 => Some(DataType::UInt32),
            0x4cu8 => Some(DataType::UInt64),
            0x55u8 => Some(DataType::Utf8),
            0x5au8 => Some(DataType::Binary),
            _ => None,
        }
    } else if f.len() == 3 && f[0] == 0x74u8 {
        if f[1] == 0x64u8 && f[2] == 0x44u8 {
            Some(DataType::Date)
        } else if f[1] == 0x74u8 && f[2] == 0x6eu8 {
            Some(DataType::Time)
        } else if f[1] == 0x44u8 {
            match f[2] {
                0x6du8 => Some(DataType::Duration(TimeUnit::Milliseconds)),
                0x75u8 => Some(DataType::Duration(TimeUnit::Microseconds)),
                0x6eu8 => Some(DataType::Duration(TimeUnit::Nanoseconds)),
                _ => None,
            }
        } else {
            None
        }
    } else if f.len() == 4 && f[0] == 0x74u8 && f[1] == 0x73u8 && f[3] == 0x3au8 {
        match f[2] {
            0x6du8 => Some(DataType::Datetime(TimeUnit::Milliseconds)),
            0x75u8 => Some(DataType::Datetime(TimeUnit::Microseconds)),
            0x6eu8 => Some(DataType::Datetime(TimeUnit::Nanoseconds)),
            _ => None,
        }
    } else {
        None
    };
    proof {
        if let Some(dt) = r {
            assert(f@ =~= spec_format_of(dt));
        }
        assert forall|dt: DataType| f@ == spec_format_of(dt) implies r == Some(dt) by {
            assert(f@.len() == spec_format_of(dt).len());
            assert(f@[0] == spec_format_of(dt)[0]);
            if f@.len() >= 3 {
                assert(f@[1] == spec_format_of(dt)[1]);
                assert(f@[2] == spec_format_of(dt)[2]);
            }
        }
    }
    r
}


/// The plain-value counterpart of the C-ABI schema struct: one field's
/// logical type as a format string, its name, and its nullability, together
/// with the state of its release callback.
#[derive(Debug)]
pub struct SchemaDescriptor {
    pub format: Vec<u8>,
    pub name: String,
    pub nullable: bool,
    pub release: ReleaseState,
}

impl SchemaDescriptor {
    /// A live descriptor still owns its resources: its release callback is
    /// armed and must fire exactly once.
    pub open spec fn is_live(&self) -> bool {
        self.release is Armed
    }

    /// The designated no-data sentinel: no format, no name, release callback
    /// cleared. Entry points hand it back in place of a result when a call
    /// fails.
    pub fn empty() -> (sd: SchemaDescriptor)
        ensures
            !sd.is_live(),
            sd.format@.len() == 0,
    {
        SchemaDescriptor {
            format: Vec::new(),
            name: String::new(),
            nullable: false,
            release: ReleaseState::Released,
        }
    }
}

/// Exports a field as a schema descriptor. The descriptor comes out live;
/// the importer, or a release, must consume it exactly once.
pub fn export_field(field: &Field) -> (sd: SchemaDescriptor)
    ensures
        sd.is_live(),
        sd.format@ == spec_format_of(field.dtype),
        sd.name@ == field.name@,
        sd.nullable,
{
    SchemaDescriptor {
        format: format_of(&field.dtype),
        name: field.name.clone(),
        nullable: true,
        release: ReleaseState::Armed,
    }
}

/// Imports a schema descriptor back into a field, taking ownership of it.
///
/// Fails with a format error when the descriptor is no longer live (its
/// resources were already released) or when its format string names no type
/// the host engine can represent; consuming the descriptor stands for firing
/// its release callback exactly once on success.
pub fn import_field(sd: SchemaDescriptor) -> (r: Result<Field, PluginError>)
    ensures
        match r {
            Ok(f) => sd.is_live() && sd.format@ == spec_format_of(f.dtype) && f.name@ == sd.name@,
            Err(e) => (e matches PluginError::Format(_)) && (sd.is_live() ==> (forall|
                dt: DataType,
            |
                sd.format@ != spec_format_of(dt))),
        },
        sd.is_live() && (exists|dt: DataType| sd.format@ == spec_format_of(dt)) <==> r is Ok,
        forall|dt: DataType|
            sd.is_live() && sd.format@ == spec_format_of(dt) ==> (r matches Ok(f) && f.dtype
                == dt),
{
    match sd.release {
        ReleaseState::Released => Err(
            PluginError::Format("schema descriptor was already released".to_owned()),
        ),
        ReleaseState::Armed => {
            match parse_format(&sd.format) {
                Some(dt) => Ok(Field { name: sd.name, dtype: dt }),
                None => Err(
                    PluginError::Format("unsupported type in schema descriptor".to_owned()),
                ),
            }
        },
    }
}

} // verus!
