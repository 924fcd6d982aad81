//! Array cells, validity bitmaps, and the array descriptor.
//!
//! A chunk of a column is a sequence of optional cells; `None` is a null.
//! The array descriptor is the plain-value counterpart of the C-ABI array
//! struct: a length, an offset into its buffers, a null count, the buffers
//! themselves (validity bit-packed, values laid out per kind), and a release
//! state standing for the release callback.
//!
//! `spec_decode_chunk` is the meaning of a descriptor: the cell sequence it
//! describes, or nothing when its fields are inconsistent. The exporter
//! produces descriptors that decode to exactly the cells it was given, and
//! the importer accepts exactly the descriptors that decode, so a chunk
//! round-trips across the boundary unchanged.

use crate::error::PluginError;
use crate::schema::DataType;
use crate::schema::ReleaseState;
use vstd::prelude::*;

verus! {

/// One non-null value of a column.
#[derive(Debug, Clone, PartialEq, Eq)]
pub enum Cell {
    /// Value of a signed integer-backed type: the integers, date (days),
    /// time (nanoseconds), duration and datetime (ticks of their unit).
    Int(i64),
    /// Value of an unsigned integer type.
    UInt(u64),
    /// Value of the boolean type.
    Bool(bool),
    /// Value of the string or binary type, as bytes.
    Bytes(Vec<u8>),
}

/// The mathematical value of a cell.
pub enum CellView {
    Int(int),
    Bool(bool),
    Bytes(Seq<u8>),
}

impl Cell {
    /// The mathematical value of this cell. Signed and unsigned integers
    /// share one arm: the logical type fixes which machine layout carries
    /// the number.
    pub open spec fn dview(self) -> CellView {
        match self {
            Cell::Int(v) => CellView::Int(v as int),
            Cell::UInt(v) => CellView::Int(v as int),
            Cell::Bool(b) => CellView::Bool(b),
            Cell::Bytes(b) => CellView::Bytes(b@),
        }
    }
}

/// The mathematical value of an optional cell.
pub open spec fn opt_cell_view(c: Option<Cell>) -> Option<CellView> {
    match c {
        Some(cell) => Some(cell.dview()),
        None => None,
    }
}

/// The mathematical value of a chunk: its cells, nulls kept in place.
pub open spec fn col_view(cells: Seq<Option<Cell>>) -> Seq<Option<CellView>> {
    Seq::new(cells.len(), |i: int| opt_cell_view(cells[i]))
}

/// The smallest value a cell of the type may carry.
pub open spec fn spec_min_of(dt: DataType) -> int {
    match dt {
        DataType::Int8 => -0x80,
        DataType::Int16 => -0x8000,
        DataType::Int32 => -0x8000_0000,
        DataType::Date => -0x8000_0000,
        _ => i64::MIN as int,
    }
}

/// The largest value a cell of the type may carry.
pub open spec fn spec_max_of(dt: DataType) -> int {
    match dt {
        DataType::Int8 => 0x7f,
        DataType::Int16 => 0x7fff,
        DataType::Int32 => 0x7fff_ffff,
        DataType::Date => 0x7fff_ffff,
        DataType::UInt8 => 0xff,
        DataType::UInt16 => 0xffff,
        DataType::UInt32 => 0xffff_ffff,
        DataType::UInt64 => u64::MAX as int,
        _ => i64::MAX as int,
    }
}

/// The cell carries a value the logical type can hold.
pub open spec fn cell_fits(dt: DataType, c: Cell) -> bool {
    match dt {
        DataType::Boolean => c is Bool,
        DataType::Utf8 => c is Bytes,
        DataType::Binary => c is Bytes,
        DataType::UInt8 => c matches Cell::UInt(v) && v <= spec_max_of(dt),
        DataType::UInt16 => c matches Cell::UInt(v) && v <= spec_max_of(dt),
        DataType::UInt32 => c matches Cell::UInt(v) && v <= spec_max_of(dt),
        DataType::UInt64 => c matches Cell::UInt(v) && v <= spec_max_of(dt),
        _ => c matches Cell::Int(v) && spec_min_of(dt) <= v <= spec_max_of(dt),
    }
}

/// Every present cell of the chunk fits the logical type.
pub open spec fn chunk_fits(dt: DataType, cells: Seq<Option<Cell>>) -> bool {
    forall|i: int|
        0 <= i < cells.len() ==> match #[trigger] cells[i] {
            Some(c) => cell_fits(dt, c),
            None => true,
        }
}

// ---------------------------------------------------------------------------
// Validity bitmaps
// ---------------------------------------------------------------------------

/// Bit `i` of a bit-packed buffer, least significant bit first.
pub open spec fn spec_bit(bits: Seq<u8>, i: int) -> bool {
    (bits[i / 8] >> ((i % 8) as u8)) & 1 == 1
}

/// Reads bit `i` of a bit-packed buffer.
pub fn get_bit(bits: &Vec<u8>, i: usize) -> (b: bool)
    requires
        i / 8 < bits@.len(),
    ensures
        b == spec_bit(bits@, i as int),
{
    (bits[i / 8] >> ((i % 8) as u8)) & 1 == 1
}

/// Packs a sequence of booleans into a bitmap, least significant bit first;
/// the trailing bits of the last byte are left clear.
#[verifier::loop_isolation(false)]
pub fn pack_bits(vals: &Vec<bool>) -> (bits: Vec<u8>)
    ensures
        bits@.len() == (vals@.len() + 7) / 8,
        forall|i: int| 0 <= i < vals@.len() ==> spec_bit(bits@, i) == vals@[i],
{
    let n = vals.len();
    let mut bits: Vec<u8> = Vec::new();
    let mut i: usize = 0;
    while i < n
        invariant
            i <= n,
            bits@.len() == (i + 7) / 8,
            forall|j: int| 0 <= j < i ==> spec_bit(bits@, j) == vals@[j],
            forall|j: int| i <= j < bits@.len() * 8 ==> !spec_bit(bits@, j),
        decreases n - i,
    {
        if i % 8 == 0 {
            bits.push(0u8);
            proof {
                assert(forall|t: u8| t < 8 ==> ((0u8 >> t) & 1) == 0) by (bit_vector);
                assert forall|j: int| i <= j < bits@.len() * 8 implies !spec_bit(bits@, j) by {
                    assert(j / 8 == bits@.len() - 1);
                    assert(bits@[j / 8] == 0u8);
                }
            }
        }
        let ghost before = bits@;
        if vals[i] {
            let idx = i / 8;
            let s = (i % 8) as u8;
            let b0 = bits[idx];
            bits[idx] = b0 | (1u8 << s);
            proof {
                assert(forall|b: u8, s: u8, t: u8|
                    s < 8 && t < 8 && s != t ==> (((b | (1u8 << s)) >> t) & 1) == ((b >> t) & 1))
                    by (bit_vector);
                assert(forall|b: u8, s: u8| s < 8 ==> (((b | (1u8 << s)) >> s) & 1) == 1)
                    by (bit_vector);
                assert forall|j: int| 0 <= j < i + 1 implies spec_bit(bits@, j) == vals@.take(
                    i as int + 1,
                )[j] by {
                    if j < i {
                        if j / 8 == idx {
                            assert(j % 8 != i % 8);
                            assert(spec_bit(bits@, j) == spec_bit(before, j));
                        } else {
                            assert(bits@[j / 8] == before[j / 8]);
                        }
                    } else {
                        assert(j == i && j / 8 == idx && (j % 8) as u8 == s);
                    }
                }
                assert forall|j: int| i + 1 <= j < bits@.len() * 8 implies !spec_bit(bits@, j) by {
                    if j / 8 == idx {
                        assert(j % 8 != i % 8);
                        assert(spec_bit(bits@, j) == spec_bit(before, j));
                    } else {
                        assert(bits@[j / 8] == before[j / 8]);
                    }
                }
            }
        }
        i = i + 1;
    }
    bits
}

// ---------------------------------------------------------------------------
// The array descriptor
// ---------------------------------------------------------------------------

/// The buffers of an array descriptor, laid out by the kind of the logical
/// type. Validity is a bit-packed bitmap (bit set: value present), or absent
/// when every slot is valid.
#[derive(Debug)]
pub enum BufferSet {
    /// One 64-bit signed slot per value: the integers, date, time, duration,
    /// datetime.
    PrimSigned { validity: Option<Vec<u8>>, values: Vec<i64> },
    /// One 64-bit unsigned slot per value.
    PrimUnsigned { validity: Option<Vec<u8>>, values: Vec<u64> },
    /// Bit-packed boolean values.
    Packed { validity: Option<Vec<u8>>, bits: Vec<u8> },
    /// Variable-sized byte strings: value `i` is `data[offsets[i]..offsets[i + 1]]`.
    VarBinary { validity: Option<Vec<u8>>, offsets: Vec<usize>, data: Vec<u8> },
}

/// The plain-value counterpart of the C-ABI array struct.
#[derive(Debug)]
pub struct ArrayDescriptor {
    /// Number of values in the window, non-negative in any live descriptor.
    pub length: i64,
    /// Number of nulls in the window, or -1 when not computed.
    pub null_count: i64,
    /// Position of the window in the buffers, non-negative.
    pub offset: i64,
    pub buffers: BufferSet,
    pub release: ReleaseState,
}

/// The validity bitmap of a buffer set.
pub open spec fn spec_validity_of(b: BufferSet) -> Option<Seq<u8>> {
    match b {
        BufferSet::PrimSigned { validity, .. } => match validity {
            Some(v) => Some(v@),
            None => None,
        },
        BufferSet::PrimUnsigned { validity, .. } => match validity {
            Some(v) => Some(v@),
            None => None,
        },
        BufferSet::Packed { validity, .. } => match validity {
            Some(v) => Some(v@),
            None => None,
        },
        BufferSet::VarBinary { validity, .. } => match validity {
            Some(v) => Some(v@),
            None => None,
        },
    }
}

/// Slot `i` of the window is marked valid.
pub open spec fn spec_slot_valid(d: ArrayDescriptor, i: int) -> bool {
    match spec_validity_of(d.buffers) {
        Some(v) => spec_bit(v, d.offset + i),
        None => true,
    }
}

/// The buffer kind the logical type needs.
pub open spec fn spec_kind_matches(dt: DataType, b: BufferSet) -> bool {
    match dt {
        DataType::Boolean => b is Packed,
        DataType::Utf8 => b is VarBinary,
        DataType::Binary => b is VarBinary,
        DataType::UInt8 => b is PrimUnsigned,
        DataType::UInt16 => b is PrimUnsigned,
        DataType::UInt32 => b is PrimUnsigned,
        DataType::UInt64 => b is PrimUnsigned,
        _ => b is PrimSigned,
    }
}

/// Length, offset, validity and buffers of the descriptor are consistent
/// for a window of `length` values of the type starting at `offset`.
pub open spec fn spec_valid_window(d: ArrayDescriptor, dt: DataType) -> bool {
    &&& 0 <= d.length
    &&& 0 <= d.offset
    &&& d.offset + d.length <= usize::MAX  // machine limit: the window must be addressable
    &&& spec_kind_matches(dt, d.buffers)
    &&& (match spec_validity_of(d.buffers) {
        Some(v) => (d.offset + d.length + 7) / 8 <= v.len(),
        None => true,
    })
    &&& (match d.buffers {
        BufferSet::PrimSigned { values, .. } => d.offset + d.length <= values@.len() && (forall|
            i: int,
        |
            d.offset <= i < d.offset + d.length ==> spec_min_of(dt) <= #[trigger] values@[i]
                <= spec_max_of(dt)),
        BufferSet::PrimUnsigned { values, .. } => d.offset + d.length <= values@.len() && (forall|
            i: int,
        |
            d.offset <= i < d.offset + d.length ==> #[trigger] values@[i] <= spec_max_of(dt)),
        BufferSet::Packed { bits, .. } => d.offset + d.length <= bits@.len() * 8,
        BufferSet::VarBinary { offsets, data, .. } => d.offset + d.length + 1 <= offsets@.len()
            && (forall|i: int|
            d.offset <= i < d.offset + d.length ==> #[trigger] offsets@[i] <= offsets@[i + 1]
                <= data@.len()),
    })
}

/// The value of slot `i` of the window, for a descriptor whose window is
/// consistent.
pub open spec fn spec_cell_at(d: ArrayDescriptor, dt: DataType, i: int) -> Option<CellView> {
    if !spec_slot_valid(d, i) {
        None
    } else {
        Some(
            match d.buffers {
                BufferSet::PrimSigned { values, .. } => CellView::Int(values@[d.offset + i] as int),
                BufferSet::PrimUnsigned { values, .. } => CellView::Int(
                    values@[d.offset + i] as int,
                ),
                BufferSet::Packed { bits, .. } => CellView::Bool(spec_bit(bits@, d.offset + i)),
                BufferSet::VarBinary { offsets, data, .. } => CellView::Bytes(
                    data@.subrange(offsets@[d.offset + i] as int, offsets@[d.offset + i + 1] as int),
                ),
            },
        )
    }
}

/// The meaning of an array descriptor for a logical type: the cell sequence
/// it describes, or nothing when it was already released or its fields are
/// inconsistent.
pub open spec fn spec_decode_chunk(d: ArrayDescriptor, dt: DataType) -> Option<
    Seq<Option<CellView>>,
> {
    if d.release is Armed && spec_valid_window(d, dt) {
        Some(Seq::new(d.length as nat, |i: int| spec_cell_at(d, dt, i)))
    } else {
        None
    }
}

impl ArrayDescriptor {
    /// A live descriptor still owns its buffers: its release callback is
    /// armed and must fire exactly once.
    pub open spec fn is_live(&self) -> bool {
        self.release is Armed
    }

    /// The designated no-data sentinel: zero length, no buffers to speak of,
    /// release callback cleared. Entry points hand it back in place of a
    /// result when a call fails, and it decodes to nothing.
    pub fn empty() -> (d: ArrayDescriptor)
        ensures
            !d.is_live(),
            d.length == 0,
            forall|dt: DataType| spec_decode_chunk(d, dt) is None,
    {
        ArrayDescriptor {
            length: 0,
            null_count: 0,
            offset: 0,
            buffers: BufferSet::PrimSigned { validity: None, values: Vec::new() },
            release: ReleaseState::Released,
        }
    }
}

// ---------------------------------------------------------------------------
// Exporting a chunk
// ---------------------------------------------------------------------------

/// The number of nulls in a chunk.
pub open spec fn spec_null_count(cells: Seq<Option<Cell>>) -> int
    decreases cells,
{
    if cells.len() == 0 {
        0
    } else {
        spec_null_count(cells.drop_first()) + (if cells[0] is None {
            1int
        } else {
            0int
        })
    }
}

proof fn lemma_null_count_take_step(cells: Seq<Option<Cell>>, k: int)
    requires
        0 <= k < cells.len(),
    ensures
        spec_null_count(cells.take(k + 1)) == spec_null_count(cells.take(k)) + (if cells[k]
            is None {
            1int
        } else {
            0int
        }),
    decreases k,
{
    if k == 0 {
        assert(cells.take(1).drop_first() =~= Seq::<Option<Cell>>::empty());
        assert(cells.take(1)[0] == cells[0]);
        assert(cells.take(0) =~= Seq::<Option<Cell>>::empty());
    } else {
        lemma_null_count_take_step(cells.drop_first(), k - 1);
        assert(cells.take(k + 1).drop_first() =~= cells.drop_first().take(k));
        assert(cells.take(k).drop_first() =~= cells.drop_first().take(k - 1));
        assert(cells.take(k + 1)[0] == cells[0]);
        assert(cells.take(k)[0] == cells[0]);
        assert(cells.drop_first()[k - 1] == cells[k]);
    }
}


/// Checks a signed slot against the range of the logical type.
fn in_range_signed(dt: &DataType, v: i64) -> (r: bool)
    ensures
        r <==> spec_min_of(*dt) <= v <= spec_max_of(*dt),
{
    match dt {
        DataType::Int8 => -0x80 <= v && v <= 0x7f,
        DataType::Int16 => -0x8000 <= v && v <= 0x7fff,
        DataType::Int32 => -0x8000_0000 <= v && v <= 0x7fff_ffff,
        DataType::Date => -0x8000_0000 <= v && v <= 0x7fff_ffff,
        DataType::UInt8 => v <= 0xff,
        DataType::UInt16 => v <= 0xffff,
        DataType::UInt32 => v <= 0xffff_ffff,
        _ => true,
    }
}

/// Checks an unsigned slot against the range of the logical type.
fn in_range_unsigned(dt: &DataType, v: u64) -> (r: bool)
    ensures
        r <==> v <= spec_max_of(*dt),
{
    match dt {
        DataType::UInt8 => v <= 0xff,
        DataType::UInt16 => v <= 0xffff,
        DataType::UInt32 => v <= 0xffff_ffff,
        DataType::UInt64 => true,
        DataType::Int8 => v <= 0x7f,
        DataType::Int16 => v <= 0x7fff,
        DataType::Int32 => v <= 0x7fff_ffff,
        DataType::Date => v <= 0x7fff_ffff,
        _ => v <= 0x7fff_ffff_ffff_ffff,
    }
}

/// Exports one chunk as a live array descriptor whose window decodes to
/// exactly the given cells: nothing is copied out of order, nulls stay in
/// place, and the validity bitmap is always written.
#[verifier::loop_isolation(false)]
#[verifier::rlimit(60)]
pub fn export_chunk(dt: &DataType, cells: &Vec<Option<Cell>>) -> (d: ArrayDescriptor)
    requires
        chunk_fits(*dt, cells@),
        cells@.len() <= i64::MAX,
    ensures
        d.is_live(),
        d.offset == 0,
        d.length == cells@.len(),
        d.null_count == spec_null_count(cells@),
        spec_decode_chunk(d, *dt) == Some(col_view(cells@)),
{
    let n = cells.len();
    let mut flags: Vec<bool> = Vec::new();
    let mut nulls: usize = 0;
    let mut i: usize = 0;
    while i < n
        invariant
            i <= n,
            nulls <= i,
            nulls == spec_null_count(cells@.take(i as int)),
            flags@.len() == i,
            forall|j: int| 0 <= j < i ==> #[trigger] flags@[j] == (cells@[j] is Some),
        decreases n - i,
    {
        if cells[i].is_some() {
            flags.push(true);
        } else {
            flags.push(false);
            nulls = nulls + 1;
        }
        i = i + 1;
        proof {
            lemma_null_count_take_step(cells@, i - 1);
        }
    }
    proof {
        assert(cells@.take(n as int) =~= cells@);
    }
    let validity = pack_bits(&flags);
    let buffers: BufferSet = match dt {
        DataType::Boolean => {
            let mut bvals: Vec<bool> = Vec::new();
            let mut i: usize = 0;
            while i < n
                invariant
                    i <= n,
                    bvals@.len() == i,
                    forall|j: int|
                        0 <= j < i ==> #[trigger] bvals@[j] == (cells@[j] matches Some(Cell::Bool(b))
                            && b),
                decreases n - i,
            {
                let b = match &cells[i] {
                    Some(Cell::Bool(b)) => *b,
                    _ => false,
                };
                bvals.push(b);
                i = i + 1;
            }
            let bits = pack_bits(&bvals);
            BufferSet::Packed { validity: Some(validity), bits }
        },
        DataType::Utf8 | DataType::Binary => {
            let mut offsets: Vec<usize> = Vec::new();
            let mut data: Vec<u8> = Vec::new();
            offsets.push(0);
            let mut i: usize = 0;
            while i < n
                invariant
                    i <= n,
                    offsets@.len() == i + 1,
                    offsets@[i as int] == data@.len(),
                    forall|j: int| 0 <= j <= i ==> #[trigger] offsets@[j] <= data@.len(),
                    forall|j: int| 0 <= j < i ==> #[trigger] offsets@[j] <= offsets@[j + 1],
                    forall|j: int|
                        0 <= j < i ==> data@.subrange(
                            #[trigger] offsets@[j] as int,
                            offsets@[j + 1] as int,
                        ) == (match cells@[j] {
                            Some(Cell::Bytes(b)) => b@,
                            _ => Seq::<u8>::empty(),
                        }),
                decreases n - i,
            {
                let ghost data_before = data@;
                match &cells[i] {
                    Some(Cell::Bytes(b)) => {
                        let m = b.len();
                        let mut t: usize = 0;
                        while t < m
                            invariant
                                t <= m,
                                m == b@.len(),
                                data@ == data_before + b@.take(t as int),
                            decreases m - t,
                        {
                            data.push(b[t]);
                            t = t + 1;
                            proof {
                                assert(b@.take(t as int) =~= b@.take(t - 1).push(b@[t - 1]));
                                assert(data@ =~= data_before + b@.take(t as int));
                            }
                        }
                        proof {
                            assert(b@.take(m as int) =~= b@);
                        }
                    },
                    _ => {},
                }
                offsets.push(data.len());
                i = i + 1;
                proof {
                    assert forall|j: int|
                        0 <= j < i implies data@.subrange(
                        #[trigger] offsets@[j] as int,
                        offsets@[j + 1] as int,
                    ) == (match cells@[j] {
                        Some(Cell::Bytes(b)) => b@,
                        _ => Seq::<u8>::empty(),
                    }) by {
                        if j < i - 1 {
                            assert(data@.subrange(offsets@[j] as int, offsets@[j + 1] as int)
                                =~= data_before.subrange(offsets@[j] as int, offsets@[j + 1] as int));
                        } else {
                            match cells@[j] {
                                Some(Cell::Bytes(b)) => {
                                    assert(data@.subrange(
                                        offsets@[j] as int,
                                        offsets@[j + 1] as int,
                                    ) =~= b@);
                                },
                                _ => {
                                    assert(data@.subrange(
                                        offsets@[j] as int,
                                        offsets@[j + 1] as int,
                                    ) =~= Seq::<u8>::empty());
                                },
                            }
                        }
                    }
                }
            }
            BufferSet::VarBinary { validity: Some(validity), offsets, data }
        },
        DataType::UInt8 | DataType::UInt16 | DataType::UInt32 | DataType::UInt64 => {
            let mut values: Vec<u64> = Vec::new();
            let mut i: usize = 0;
            while i < n
                invariant
                    i <= n,
                    values@.len() == i,
                    forall|j: int|
                        0 <= j < i ==> #[trigger] values@[j] == (match cells@[j] {
                            Some(Cell::UInt(v)) => v,
                            _ => 0u64,
                        }),
                decreases n - i,
            {
                let v = match &cells[i] {
                    Some(Cell::UInt(v)) => *v,
                    _ => 0u64,
                };
                values.push(v);
                i = i + 1;
            }
            BufferSet::PrimUnsigned { validity: Some(validity), values }
        },
        _ => {
            let mut values: Vec<i64> = Vec::new();
            let mut i: usize = 0;
            while i < n
                invariant
                    i <= n,
                    values@.len() == i,
                    forall|j: int|
                        0 <= j < i ==> #[trigger] values@[j] == (match cells@[j] {
                            Some(Cell::Int(v)) => v,
                            _ => 0i64,
                        }),
                decreases n - i,
            {
                let v = match &cells[i] {
                    Some(Cell::Int(v)) => *v,
                    _ => 0i64,
                };
                values.push(v);
                i = i + 1;
            }
            BufferSet::PrimSigned { validity: Some(validity), values }
        },
    };
    let d = ArrayDescriptor {
        length: n as i64,
        null_count: nulls as i64,
        offset: 0,
        buffers,
        release: ReleaseState::Armed,
    };
    proof {
        assert(spec_valid_window(d, *dt));
        assert(Seq::new(d.length as nat, |i: int| spec_cell_at(d, *dt, i)) =~= col_view(cells@));
    }
    d
}

// ---------------------------------------------------------------------------
// Importing a chunk
// ---------------------------------------------------------------------------

/// Checks every buffer, offset and length field of a descriptor against the
/// logical type, before anything is read through them: length and offset
/// non-negative, buffer kind matching the type, the validity bitmap and the
/// value buffers covering the whole window, every slot in range, and the
/// byte-string offsets monotone and within the data buffer.
#[verifier::loop_isolation(false)]
#[verifier::rlimit(100)]
#[verifier::spinoff_prover]
fn check_window(dt: &DataType, d: &ArrayDescriptor) -> (ok: bool)
    ensures
        ok <==> spec_valid_window(*d, *dt),
{
    if d.length < 0 || d.offset < 0 {
        return false;
    }
    let off = d.offset as u64;
    let len = d.length as u64;
    if off + len > usize::MAX as u64 {
        return false;
    }
    match &d.buffers {
        BufferSet::PrimSigned { validity, values } => {
            let kind_ok = match dt {
                DataType::Boolean => false,
                DataType::Utf8 => false,
                DataType::Binary => false,
                DataType::UInt8 => false,
                DataType::UInt16 => false,
                DataType::UInt32 => false,
                DataType::UInt64 => false,
                _ => true,
            };
            if !kind_ok {
                return false;
            }
            if let Some(v) = validity {
                let s = off + len;
                let ceil = s / 8 + (if s % 8 > 0 {
                    1u64
                } else {
                    0u64
                });
                proof {
                    assert(ceil == (off + len + 7) as int / 8) by (nonlinear_arith)
                        requires
                            s == off + len,
                            ceil == s / 8 + (if s % 8 > 0 {
                                1u64
                            } else {
                                0u64
                            }),
                    ;
                }
                if ceil > v.len() as u64 {
                    return false;
                }
            }
            if off + len > values.len() as u64 {
                return false;
            }
            let o = d.offset as usize;
            let l = d.length as usize;
            let mut j: usize = 0;
            while j < l
                invariant
                    j <= l,
                    o == d.offset as int,
                    l == d.length as int,
                    o + l <= values@.len(),
                    d.buffers matches BufferSet::PrimSigned { values: vs, .. } && vs == values,
                    forall|t: int|
                        o <= t < o + j ==> spec_min_of(*dt) <= #[trigger] values@[t] <= spec_max_of(
                            *dt,
                        ),
                decreases l - j,
            {
                if !in_range_signed(dt, values[o + j]) {
                    return false;
                }
                j = j + 1;
            }
            true
        },
        BufferSet::PrimUnsigned { validity, values } => {
            let kind_ok = match dt {
                DataType::UInt8 => true,
                DataType::UInt16 => true,
                DataType::UInt32 => true,
                DataType::UInt64 => true,
                _ => false,
            };
            if !kind_ok {
                return false;
            }
            if let Some(v) = validity {
                let s = off + len;
                let ceil = s / 8 + (if s % 8 > 0 {
                    1u64
                } else {
                    0u64
                });
                proof {
                    assert(ceil == (off + len + 7) as int / 8) by (nonlinear_arith)
                        requires
                            s == off + len,
                            ceil == s / 8 + (if s % 8 > 0 {
                                1u64
                            } else {
                                0u64
                            }),
                    ;
                }
                if ceil > v.len() as u64 {
                    return false;
                }
            }
            if off + len > values.len() as u64 {
                return false;
            }
            let o = d.offset as usize;
            let l = d.length as usize;
            let mut j: usize = 0;
            while j < l
                invariant
                    j <= l,
                    o == d.offset as int,
                    l == d.length as int,
                    o + l <= values@.len(),
                    d.buffers matches BufferSet::PrimUnsigned { values: vs, .. } && vs == values,
                    forall|t: int| o <= t < o + j ==> #[trigger] values@[t] <= spec_max_of(*dt),
                decreases l - j,
            {
                if !in_range_unsigned(dt, values[o + j]) {
                    return false;
                }
                j = j + 1;
            }
            true
        },
        BufferSet::Packed { validity, bits } => {
            let kind_ok = match dt {
                DataType::Boolean => true,
                _ => false,
            };
            if !kind_ok {
                return false;
            }
            if let Some(v) = validity {
                let s = off + len;
                let ceil = s / 8 + (if s % 8 > 0 {
                    1u64
                } else {
                    0u64
                });
                proof {
                    assert(ceil == (off + len + 7) as int / 8) by (nonlinear_arith)
                        requires
                            s == off + len,
                            ceil == s / 8 + (if s % 8 > 0 {
                                1u64
                            } else {
                                0u64
                            }),
                    ;
                }
                if ceil > v.len() as u64 {
                    return false;
                }
            }
            let s = off + len;
            let ceil = s / 8 + (if s % 8 > 0 {
                1u64
            } else {
                0u64
            });
            proof {
                assert((ceil <= bits@.len()) <==> (s <= bits@.len() * 8)) by (nonlinear_arith)
                    requires
                        ceil == s / 8 + (if s % 8 > 0 {
                            1u64
                        } else {
                            0u64
                        }),
                        bits@.len() >= 0,
                ;
            }
            if ceil > bits.len() as u64 {
                return false;
            }
            true
        },
        BufferSet::VarBinary { validity, offsets, data } => {
            let kind_ok = match dt {
                DataType::Utf8 => true,
                DataType::Binary => true,
                _ => false,
            };
            if !kind_ok {
                return false;
            }
            if let Some(v) = validity {
                let s = off + len;
                let ceil = s / 8 + (if s % 8 > 0 {
                    1u64
                } else {
                    0u64
                });
                proof {
                    assert(ceil == (off + len + 7) as int / 8) by (nonlinear_arith)
                        requires
                            s == off + len,
                            ceil == s / 8 + (if s % 8 > 0 {
                                1u64
                            } else {
                                0u64
                            }),
                    ;
                }
                if ceil > v.len() as u64 {
                    return false;
                }
            }
            if off + len + 1 > offsets.len() as u64 {
                return false;
            }
            let o = d.offset as usize;
            let l = d.length as usize;
            let mut j: usize = 0;
            while j < l
                invariant
                    j <= l,
                    o == d.offset as int,
                    l == d.length as int,
                    o + l + 1 <= offsets@.len(),
                    d.buffers matches BufferSet::VarBinary { offsets: os, data: dd, .. } && os
                        == offsets && dd == data,
                    forall|t: int|
                        o <= t < o + j ==> #[trigger] offsets@[t] <= offsets@[t + 1] <= data@.len(),
                decreases l - j,
            {
                if !(offsets[o + j] <= offsets[o + j + 1] && offsets[o + j + 1] <= data.len()) {
                    return false;
                }
                j = j + 1;
            }
            true
        },
    }
}

/// Reads the cells of a descriptor whose window has been checked.
#[verifier::loop_isolation(false)]
#[verifier::rlimit(60)]
fn build_cells(dt: &DataType, d: &ArrayDescriptor) -> (cells: Vec<Option<Cell>>)
    requires
        spec_valid_window(*d, *dt),
    ensures
        cells@.len() == d.length,
        chunk_fits(*dt, cells@),
        col_view(cells@) == Seq::new(d.length as nat, |i: int| spec_cell_at(*d, *dt, i)),
{
    proof {
        assert(0 <= d.offset && d.offset + d.length <= usize::MAX);
    }
    let o = d.offset as usize;
    let l = d.length as usize;
    let mut cells: Vec<Option<Cell>> = Vec::new();
    let mut j: usize = 0;
    while j < l
        invariant
            j <= l,
            o == d.offset as int,
            l == d.length as int,
            cells@.len() == j,
            chunk_fits(*dt, cells@),
            forall|t: int|
                0 <= t < j ==> opt_cell_view(#[trigger] cells@[t]) == spec_cell_at(*d, *dt, t),
        decreases l - j,
    {
        let valid = match &d.buffers {
            BufferSet::PrimSigned { validity, .. } => match validity {
                Some(v) => get_bit(v, o + j),
                None => true,
            },
            BufferSet::PrimUnsigned { validity, .. } => match validity {
                Some(v) => get_bit(v, o + j),
                None => true,
            },
            BufferSet::Packed { validity, .. } => match validity {
                Some(v) => get_bit(v, o + j),
                None => true,
            },
            BufferSet::VarBinary { validity, .. } => match validity {
                Some(v) => get_bit(v, o + j),
                None => true,
            },
        };
        if !valid {
            cells.push(None);
        } else {
            let c: Cell = match &d.buffers {
                BufferSet::PrimSigned { values, .. } => Cell::Int(values[o + j]),
                BufferSet::PrimUnsigned { values, .. } => Cell::UInt(values[o + j]),
                BufferSet::Packed { bits, .. } => Cell::Bool(get_bit(bits, o + j)),
                BufferSet::VarBinary { offsets, data, .. } => {
                    let a = offsets[o + j];
                    let b = offsets[o + j + 1];
                    let mut bytes: Vec<u8> = Vec::new();
                    let mut t: usize = a;
                    while t < b
                        invariant
                            a <= t <= b,
                            b <= data@.len(),
                            d.buffers matches BufferSet::VarBinary { offsets: os, data: dd, .. }
                                && os == offsets && dd == data,
                            bytes@ =~= data@.subrange(a as int, t as int),
                        decreases b - t,
                    {
                        bytes.push(data[t]);
                        t = t + 1;
                        proof {
                            assert(data@.subrange(a as int, t as int) =~= data@.subrange(
                                a as int,
                                t - 1,
                            ).push(data@[t - 1]));
                        }
                    }
                    Cell::Bytes(bytes)
                },
            };
            proof {
                match *dt {
                    DataType::Boolean => {},
                    DataType::Utf8 => {},
                    DataType::Binary => {},
                    _ => {
                        assert(cell_fits(*dt, c));
                    },
                }
            }
            cells.push(Some(c));
        }
        j = j + 1;
    }
    proof {
        assert(col_view(cells@) =~= Seq::new(d.length as nat, |i: int| spec_cell_at(*d, *dt, i)));
    }
    cells
}

/// Imports an array descriptor into the cells of one chunk, taking ownership
/// of its buffers.
///
/// Succeeds exactly when the descriptor is still live and all of its fields
/// are consistent for the logical type; the cells then are exactly what the
/// descriptor describes, nulls in place. Consuming the descriptor stands for
/// firing its release callback exactly once on success. On failure nothing
/// was read through the buffers, and the error says which field was
/// inconsistent in kind.
pub fn import_chunk(dt: &DataType, d: ArrayDescriptor) -> (r: Result<
    Vec<Option<Cell>>,
    PluginError,
>)
    ensures
        match r {
            Ok(cells) => spec_decode_chunk(d, *dt) == Some(col_view(cells@)) && chunk_fits(
                *dt,
                cells@,
            ) && cells@.len() == d.length,
            Err(e) => e matches PluginError::Buffer(_) && spec_decode_chunk(d, *dt) is None,
        },
        r is Ok <==> spec_decode_chunk(d, *dt) is Some,
{
    match d.release {
        ReleaseState::Released => Err(
            PluginError::Buffer("array descriptor was already released".to_owned()),
        ),
        ReleaseState::Armed => {
            if check_window(dt, &d) {
                Ok(build_cells(dt, &d))
            } else {
                Err(
                    PluginError::Buffer(
                        "inconsistent buffer, offset or length in array descriptor".to_owned(),
                    ),
                )
            }
        },
    }
}

} // verus!
