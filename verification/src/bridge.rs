//! The foreign array bridge: exporting and importing whole columns.
//!
//! A native series is a named, typed, chunked column. Exporting it hands the
//! caller one schema descriptor and one array descriptor per chunk, in chunk
//! order; importing the same descriptors hands ownership back as a native
//! series with the same name, type, chunk boundaries and cells. Chunks are
//! never merged or split, and the two directions round-trip exactly: the
//! exporter's descriptors decode to precisely the cells it was given, and
//! the importer accepts precisely the descriptors that decode.
//!
//! Ownership moves with the values: a descriptor is consumed either by the
//! importer (which stands for firing its release callback exactly once) or
//! by dropping it, and a released descriptor cannot cross either function
//! again. Export reads the series through a shared borrow, so the original
//! handle stays valid and independently destructible.

use crate::array::ArrayDescriptor;
use crate::array::Cell;
use crate::array::CellView;
use crate::array::chunk_fits;
use crate::array::col_view;
use crate::array::export_chunk;
use crate::array::import_chunk;
use crate::array::spec_decode_chunk;
use crate::error::PluginError;
use crate::schema::DataType;
use crate::schema::Field;
use crate::schema::SchemaDescriptor;
use crate::schema::export_field;
use crate::schema::import_field;
use crate::schema::spec_format_of;
use vstd::prelude::*;

verus! {

/// An owned, chunked, typed column of the host engine.
#[derive(Debug)]
pub struct NativeSeries {
    pub name: String,
    pub dtype: DataType,
    pub chunks: Vec<Vec<Option<Cell>>>,
}

impl NativeSeries {
    /// Every present cell of every chunk fits the column's logical type.
    pub open spec fn wf(&self) -> bool {
        forall|i: int|
            0 <= i < self.chunks@.len() ==> chunk_fits(self.dtype, (#[trigger] self.chunks@[i])@)
    }

    /// The mathematical value of the column: its chunks, each a sequence of
    /// optional cell values.
    pub open spec fn chunks_view(&self) -> Seq<Seq<Option<CellView>>> {
        Seq::new(self.chunks@.len(), |i: int| col_view(self.chunks@[i]@))
    }
}

/// What crosses the boundary for one series: a schema descriptor and one
/// array descriptor per chunk, in chunk order.
#[derive(Debug)]
pub struct SeriesExport {
    pub schema: SchemaDescriptor,
    pub chunks: Vec<ArrayDescriptor>,
}

/// A series export that an importer accepts: its schema descriptor is live
/// and names a representable type, and every chunk descriptor decodes under
/// that type.
pub open spec fn spec_importable(e: SeriesExport) -> bool {
    &&& e.schema.is_live()
    &&& exists|dt: DataType| #![trigger spec_format_of(dt)]
        e.schema.format@ == spec_format_of(dt) && (forall|i: int|
            0 <= i < e.chunks@.len() ==> spec_decode_chunk(#[trigger] e.chunks@[i], dt) is Some)
}

/// Exports a series as a schema descriptor plus one live array descriptor
/// per chunk, preserving chunk order and boundaries. The series itself is
/// only read: the caller's handle stays valid, and the descriptors carry
/// their own copies of the buffers.
#[verifier::loop_isolation(false)]
pub fn export_series(s: &NativeSeries) -> (e: SeriesExport)
    requires
        s.wf(),
        forall|i: int| 0 <= i < s.chunks@.len() ==> (#[trigger] s.chunks@[i])@.len() <= i64::MAX,
    ensures
        e.schema.is_live(),
        e.schema.format@ == spec_format_of(s.dtype),
        e.schema.name@ == s.name@,
        e.chunks@.len() == s.chunks@.len(),
        forall|i: int| 0 <= i < e.chunks@.len() ==> (#[trigger] e.chunks@[i]).is_live(),
        forall|i: int|
            0 <= i < e.chunks@.len() ==> spec_decode_chunk(#[trigger] e.chunks@[i], s.dtype)
                == Some(col_view(s.chunks@[i]@)),
{
    let field = Field { name: s.name.clone(), dtype: s.dtype };
    let schema = export_field(&field);
    let n = s.chunks.len();
    let mut chunks: Vec<ArrayDescriptor> = Vec::new();
    let mut i: usize = 0;
    while i < n
        invariant
            i <= n,
            chunks@.len() == i,
            forall|j: int| 0 <= j < i ==> (#[trigger] chunks@[j]).is_live(),
            forall|j: int|
                0 <= j < i ==> spec_decode_chunk(#[trigger] chunks@[j], s.dtype) == Some(
                    col_view(s.chunks@[j]@),
                ),
        decreases n - i,
    {
        let d = export_chunk(&s.dtype, &s.chunks[i]);
        chunks.push(d);
        i = i + 1;
    }
    SeriesExport { schema, chunks }
}

/// Imports a series export back into an owned native series, taking
/// ownership of every descriptor in it.
///
/// Succeeds exactly when the export is importable: the schema descriptor is
/// live and names a type the host engine can represent, and every chunk
/// descriptor is live and consistent under that type. The resulting series
/// then carries the exported name, type, chunk boundaries and cells
/// unchanged. A failure is a format error (schema side) or a buffer error
/// (array side), and consuming the export stands for the release discipline:
/// each descriptor's release fires at most once, here or in the caller's
/// drop.
#[verifier::loop_isolation(false)]
pub fn import_series(e: SeriesExport) -> (r: Result<NativeSeries, PluginError>)
    ensures
        match r {
            Ok(s) => {
                &&& s.wf()
                &&& e.schema.is_live()
                &&& e.schema.format@ == spec_format_of(s.dtype)
                &&& s.name@ == e.schema.name@
                &&& s.chunks@.len() == e.chunks@.len()
                &&& forall|i: int|
                    0 <= i < e.chunks@.len() ==> spec_decode_chunk(
                        #[trigger] e.chunks@[i],
                        s.dtype,
                    ) == Some(col_view(s.chunks@[i]@))
            },
            Err(er) => (er matches PluginError::Format(_)) || (er
                matches PluginError::Buffer(_)),
        },
        r is Ok <==> spec_importable(e),
{
    let SeriesExport { schema, chunks } = e;
    let ghost gchunks = chunks@;
    let field = match import_field(schema) {
        Ok(f) => f,
        Err(er) => {
            proof {
                assert(!spec_importable(e));
            }
            return Err(er);
        },
    };
    let dt = field.dtype;
    let mut rest = chunks;
    let mut cols: Vec<Vec<Option<Cell>>> = Vec::new();
    let n = rest.len();
    let mut i: usize = 0;
    while i < n
        invariant
            i <= n,
            n == gchunks.len(),
            rest@ =~= gchunks.skip(i as int),
            cols@.len() == i,
            forall|j: int| 0 <= j < i ==> chunk_fits(dt, (#[trigger] cols@[j])@),
            forall|j: int|
                0 <= j < i ==> spec_decode_chunk(#[trigger] gchunks[j], dt) == Some(
                    col_view(cols@[j]@),
                ),
        decreases n - i,
    {
        let d = rest.remove(0);
        proof {
            assert(d == gchunks[i as int]);
            assert(rest@ =~= gchunks.skip(i as int + 1));
        }
        match import_chunk(&dt, d) {
            Ok(cells) => {
                cols.push(cells);
            },
            Err(er) => {
                proof {
                    assert(spec_decode_chunk(gchunks[i as int], dt) is None);
                    assert forall|dt2: DataType| #![trigger spec_format_of(dt2)]
                        !(e.schema.format@ == spec_format_of(dt2) && (forall|t: int|
                            0 <= t < e.chunks@.len() ==> spec_decode_chunk(
                                #[trigger] e.chunks@[t],
                                dt2,
                            ) is Some)) by {
                        if e.schema.format@ == spec_format_of(dt2) {
                            assert(dt2 == dt);
                        }
                    }
                }
                return Err(er);
            },
        }
        i = i + 1;
    }
    let s = NativeSeries { name: field.name, dtype: dt, chunks: cols };
    proof {
        assert(spec_importable(e)) by {
            assert(e.schema.format@ == spec_format_of(dt));
            assert(forall|t: int|
                0 <= t < e.chunks@.len() ==> spec_decode_chunk(#[trigger] e.chunks@[t], dt)
                    is Some);
        }
    }
    Ok(s)
}

/// Imports a whole buffer of series exports, the positional inputs of one
/// compute call, stopping at the first failure.
///
/// Succeeds exactly when every export in the buffer is importable; the
/// result then lines up with the buffer, series by series. On failure the
/// error of the first offending export is reported, and the series imported
/// before it are dropped with their ownership already transferred, so
/// nothing leaks and nothing is released twice.
#[verifier::loop_isolation(false)]
pub fn import_series_buffer(inputs: Vec<SeriesExport>) -> (r: Result<
    Vec<NativeSeries>,
    PluginError,
>)
    ensures
        match r {
            Ok(series) => {
                &&& series@.len() == inputs@.len()
                &&& forall|i: int| 0 <= i < series@.len() ==> (#[trigger] series@[i]).wf()
                &&& forall|i: int|
                    0 <= i < series@.len() ==> (#[trigger] inputs@[i]).schema.format@
                        == spec_format_of(series@[i].dtype) && series@[i].name@
                        == inputs@[i].schema.name@ && series@[i].chunks@.len()
                        == inputs@[i].chunks@.len() && (forall|j: int|
                        0 <= j < inputs@[i].chunks@.len() ==> spec_decode_chunk(
                            #[trigger] inputs@[i].chunks@[j],
                            series@[i].dtype,
                        ) == Some(col_view(series@[i].chunks@[j]@)))
            },
            Err(er) => (er matches PluginError::Format(_)) || (er
                matches PluginError::Buffer(_)),
        },
        r is Ok <==> (forall|i: int|
            0 <= i < inputs@.len() ==> spec_importable(#[trigger] inputs@[i])),
{
    let ghost ginputs = inputs@;
    let mut rest = inputs;
    let mut series: Vec<NativeSeries> = Vec::new();
    let n = rest.len();
    let mut i: usize = 0;
    while i < n
        invariant
            i <= n,
            n == ginputs.len(),
            rest@ =~= ginputs.skip(i as int),
            series@.len() == i,
            forall|j: int| 0 <= j < i ==> (#[trigger] series@[j]).wf(),
            forall|j: int| 0 <= j < i ==> spec_importable(#[trigger] ginputs[j]),
            forall|j: int|
                0 <= j < i ==> (#[trigger] ginputs[j]).schema.format@ == spec_format_of(
                    series@[j].dtype,
                ) && series@[j].name@ == ginputs[j].schema.name@ && series@[j].chunks@.len()
                    == ginputs[j].chunks@.len() && (forall|t: int|
                    0 <= t < ginputs[j].chunks@.len() ==> spec_decode_chunk(
                        #[trigger] ginputs[j].chunks@[t],
                        series@[j].dtype,
                    ) == Some(col_view(series@[j].chunks@[t]@))),
        decreases n - i,
    {
        let one = rest.remove(0);
        proof {
            assert(one == ginputs[i as int]);
            assert(rest@ =~= ginputs.skip(i as int + 1));
        }
        match import_series(one) {
            Ok(s) => {
                series.push(s);
            },
            Err(er) => {
                return Err(er);
            },
        }
        i = i + 1;
    }
    Ok(series)
}

} // verus!
