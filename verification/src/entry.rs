//! The entry points a plugin exposes to the host.
//!
//! A plugin author writes an ordinary compute function and, optionally, an
//! output-type-resolution function. The functions here are the boundary
//! trampolines wrapped around them: import every input descriptor (stopping
//! at the first failure), decode the keyword-argument blob, run the user's
//! function, and export the result — or, on any failure, record the reason
//! in the per-thread error slot and hand back the designated empty sentinel
//! instead of a result. The caller recognizes the sentinel and reads the
//! slot for the message; no error ever crosses the boundary as anything but
//! a recorded string plus a sentinel.
//!
//! A verified compute function cannot panic, so the verified trampolines
//! never see a panic. Foreign or unverified compute functions run outside
//! the library behind a host-side unwind guard; `conclude_compute` is the
//! tail of that boundary, taking whichever outcome the guard observed —
//! success, a typed failure, or a panic — and producing the same
//! sentinel-and-slot discipline, so a panic leaves the slot holding the
//! panic sentinel and the caller's next call starts clean.

use crate::array::col_view;
use crate::array::spec_decode_chunk;
use crate::bridge::NativeSeries;
use crate::bridge::SeriesExport;
use crate::bridge::import_series_buffer;
use crate::bridge::export_series;
use crate::bridge::spec_importable;
use crate::error::ErrorSlot;
use crate::error::PluginError;
use crate::error::spec_rendered;
use crate::kwargs::KwargsValue;
use crate::kwargs::KwargsView;
use crate::kwargs::decode_kwargs;
use crate::kwargs::spec_encode;
use crate::schema::DataType;
use crate::schema::Field;
use crate::schema::SchemaDescriptor;
use crate::schema::export_field;
use crate::schema::import_field;
use crate::schema::spec_format_of;
use vstd::prelude::*;

verus! {

/// The plugin function's series results that the boundary can export: every
/// chunk well-formed and of exportable length.
pub open spec fn spec_exportable(s: NativeSeries) -> bool {
    &&& s.wf()
    &&& forall|i: int| 0 <= i < s.chunks@.len() ==> (#[trigger] s.chunks@[i])@.len() <= i64::MAX
}

/// The imported inputs line up with the input descriptors, series by series
/// and chunk by chunk.
pub open spec fn spec_imported_match(inputs: Seq<SeriesExport>, series: Seq<NativeSeries>) -> bool {
    &&& series.len() == inputs.len()
    &&& forall|i: int| 0 <= i < series.len() ==> (#[trigger] series[i]).wf()
    &&& forall|i: int|
        0 <= i < series.len() ==> (#[trigger] inputs[i]).schema.format@ == spec_format_of(
            series[i].dtype,
        ) && series[i].name@ == inputs[i].schema.name@ && series[i].chunks@.len()
            == inputs[i].chunks@.len() && (forall|j: int|
            0 <= j < inputs[i].chunks@.len() ==> spec_decode_chunk(
                #[trigger] inputs[i].chunks@[j],
                series[i].dtype,
            ) == Some(col_view(series[i].chunks@[j]@)))
}

/// Every input descriptor pair of the call can be imported.
pub open spec fn spec_inputs_importable(inputs: Seq<SeriesExport>) -> bool {
    forall|i: int| 0 <= i < inputs.len() ==> spec_importable(#[trigger] inputs[i])
}

/// The kwargs blob is acceptable: absent, or exactly one encoded value.
pub open spec fn spec_kwargs_ok(blob: Seq<u8>) -> bool {
    blob.len() == 0 || (exists|dv: KwargsView| #![trigger spec_encode(dv)]
        dv.wf() && blob == spec_encode(dv))
}

/// The decoded kwargs value matches the blob: none when the blob was empty,
/// otherwise the one value the blob encodes.
pub open spec fn spec_kwargs_match(blob: Seq<u8>, kw: Option<KwargsValue>) -> bool {
    if blob.len() == 0 {
        kw is None
    } else {
        kw matches Some(v) && blob == spec_encode(v.dview())
    }
}

/// What the compute entry writes for the user function's result: on success
/// a live export carrying exactly the result series, on failure the empty
/// sentinel with the rendered error in the slot.
pub open spec fn spec_result_written(
    out: SeriesExport,
    slot: ErrorSlot,
    ret: Result<NativeSeries, PluginError>,
) -> bool {
    match ret {
        Ok(s) => {
            &&& out.schema.is_live()
            &&& out.schema.format@ == spec_format_of(s.dtype)
            &&& out.schema.name@ == s.name@
            &&& out.chunks@.len() == s.chunks@.len()
            &&& forall|i: int|
                0 <= i < out.chunks@.len() ==> spec_decode_chunk(
                    #[trigger] out.chunks@[i],
                    s.dtype,
                ) == Some(col_view(s.chunks@[i]@))
        },
        Err(e) => !out.schema.is_live() && slot.spec_last() == Some(spec_rendered(&e)),
    }
}

impl SeriesExport {
    /// The designated empty sentinel written in place of a result when a
    /// call fails: a released schema descriptor and no chunks.
    pub fn empty_sentinel() -> (e: SeriesExport)
        ensures
            !e.schema.is_live(),
            e.chunks@.len() == 0,
            !spec_importable(e),
    {
        SeriesExport { schema: SchemaDescriptor::empty(), chunks: Vec::new() }
    }
}

/// The compute entry point for a verified compute function that takes
/// keyword arguments.
///
/// Imports every input, decodes the kwargs blob, runs the function, and
/// exports its result; on any failure, records the reason and returns the
/// empty sentinel. The function is handed the imported inputs exactly as
/// the descriptors describe them, and what comes back crosses the boundary
/// unchanged.
#[verifier::loop_isolation(false)]
pub fn run_compute_entry<F: Fn(Vec<NativeSeries>, Option<KwargsValue>) -> Result<
    NativeSeries,
    PluginError,
>>(inputs: Vec<SeriesExport>, kwargs_blob: &Vec<u8>, f: &F, slot: &mut ErrorSlot) -> (out:
    SeriesExport)
    requires
        forall|args: (Vec<NativeSeries>, Option<KwargsValue>)| #[trigger] call_requires(*f, args),
        forall|args: (Vec<NativeSeries>, Option<KwargsValue>), ret: Result<
            NativeSeries,
            PluginError,
        >| #[trigger] call_ensures(*f, args, ret) ==> (ret matches Ok(s) ==> spec_exportable(s)),
    ensures
        !spec_inputs_importable(inputs@) ==> !out.schema.is_live() && final(slot).is_set()
            && !final(slot).holds_panic(),
        spec_inputs_importable(inputs@) && !spec_kwargs_ok(kwargs_blob@) ==> !out.schema.is_live()
            && final(slot).is_set() && !final(slot).holds_panic(),
        spec_inputs_importable(inputs@) && spec_kwargs_ok(kwargs_blob@) ==> (exists|
            series: Vec<NativeSeries>,
            kw: Option<KwargsValue>,
            ret: Result<NativeSeries, PluginError>,
        |
            spec_imported_match(inputs@, series@) && spec_kwargs_match(kwargs_blob@, kw)
                && #[trigger] call_ensures(*f, (series, kw), ret) && spec_result_written(
                out,
                *final(slot),
                ret,
            )),
{
    let ghost ginputs = inputs@;
    let series = match import_series_buffer(inputs) {
        Ok(s) => s,
        Err(e) => {
            slot.record(&e);
            return SeriesExport::empty_sentinel();
        },
    };
    let kw = match decode_kwargs(kwargs_blob) {
        Ok(k) => k,
        Err(e) => {
            slot.record(&e);
            return SeriesExport::empty_sentinel();
        },
    };
    let ghost gseries = series;
    let ghost gkw = kw;
    let ret = f(series, kw);
    match ret {
        Ok(s) => {
            let out = export_series(&s);
            proof {
                assert(spec_imported_match(ginputs, gseries@));
                assert(call_ensures(*f, (gseries, gkw), Ok::<NativeSeries, PluginError>(s)));
                assert(spec_result_written(out, *slot, Ok::<NativeSeries, PluginError>(s)));
            }
            out
        },
        Err(e) => {
            slot.record(&e);
            let out = SeriesExport::empty_sentinel();
            proof {
                assert(spec_imported_match(ginputs, gseries@));
                assert(call_ensures(*f, (gseries, gkw), Err::<NativeSeries, PluginError>(e)));
                assert(spec_result_written(out, *slot, Err::<NativeSeries, PluginError>(e)));
            }
            out
        },
    }
}

/// The compute entry point for a verified compute function that declares no
/// keyword arguments: the blob is not decoded at all, as with a function
/// that declares none.
#[verifier::loop_isolation(false)]
pub fn run_compute_entry_plain<F: Fn(Vec<NativeSeries>) -> Result<NativeSeries, PluginError>>(
    inputs: Vec<SeriesExport>,
    f: &F,
    slot: &mut ErrorSlot,
) -> (out: SeriesExport)
    requires
        forall|args: (Vec<NativeSeries>,)| #[trigger] call_requires(*f, args),
        forall|args: (Vec<NativeSeries>,), ret: Result<NativeSeries, PluginError>|
            #[trigger] call_ensures(*f, args, ret) ==> (ret matches Ok(s) ==> spec_exportable(s)),
    ensures
        !spec_inputs_importable(inputs@) ==> !out.schema.is_live() && final(slot).is_set()
            && !final(slot).holds_panic(),
        spec_inputs_importable(inputs@) ==> (exists|
            series: Vec<NativeSeries>,
            ret: Result<NativeSeries, PluginError>,
        |
            spec_imported_match(inputs@, series@) && #[trigger] call_ensures(*f, (series,), ret)
                && spec_result_written(out, *final(slot), ret)),
{
    let ghost ginputs = inputs@;
    let series = match import_series_buffer(inputs) {
        Ok(s) => s,
        Err(e) => {
            slot.record(&e);
            return SeriesExport::empty_sentinel();
        },
    };
    let ghost gseries = series;
    let ret = f(series);
    match ret {
        Ok(s) => {
            let out = export_series(&s);
            proof {
                assert(call_ensures(*f, (gseries,), Ok::<NativeSeries, PluginError>(s)));
                assert(spec_result_written(out, *slot, Ok::<NativeSeries, PluginError>(s)));
            }
            out
        },
        Err(e) => {
            slot.record(&e);
            let out = SeriesExport::empty_sentinel();
            proof {
                assert(call_ensures(*f, (gseries,), Err::<NativeSeries, PluginError>(e)));
                assert(spec_result_written(out, *slot, Err::<NativeSeries, PluginError>(e)));
            }
            out
        },
    }
}

/// What a host-side unwind guard observed of one run of an unverified
/// compute function.
pub enum ComputeOutcome {
    /// The function returned a series.
    Success(NativeSeries),
    /// The function reported a typed failure.
    Failure(PluginError),
    /// The function panicked; the guard caught the unwind at the boundary.
    Panicked,
}

/// The tail of the failure boundary around an unverified compute function:
/// turns whatever the unwind guard observed into the sentinel-and-slot
/// discipline of the boundary. A panic never crosses: it becomes the panic
/// sentinel in the slot and the empty sentinel in place of the result, and
/// the slot stays usable for subsequent calls.
pub fn conclude_compute(outcome: ComputeOutcome, slot: &mut ErrorSlot) -> (out: SeriesExport)
    requires
        outcome matches ComputeOutcome::Success(s) ==> spec_exportable(s),
    ensures
        match outcome {
            ComputeOutcome::Success(s) => spec_result_written(
                out,
                *final(slot),
                Ok::<NativeSeries, PluginError>(s),
            ),
            ComputeOutcome::Failure(e) => spec_result_written(
                out,
                *final(slot),
                Err::<NativeSeries, PluginError>(e),
            ) && !final(slot).holds_panic(),
            ComputeOutcome::Panicked => !out.schema.is_live() && final(slot).holds_panic(),
        },
{
    match outcome {
        ComputeOutcome::Success(s) => export_series(&s),
        ComputeOutcome::Failure(e) => {
            slot.record(&e);
            SeriesExport::empty_sentinel()
        },
        ComputeOutcome::Panicked => {
            slot.record_panic();
            SeriesExport::empty_sentinel()
        },
    }
}

// ---------------------------------------------------------------------------
// The type-resolution entry
// ---------------------------------------------------------------------------

/// The imported fields line up with the input schema descriptors.
pub open spec fn spec_fields_match(inputs: Seq<SchemaDescriptor>, fields: Seq<Field>) -> bool {
    &&& fields.len() == inputs.len()
    &&& forall|i: int|
        0 <= i < fields.len() ==> (#[trigger] inputs[i]).format@ == spec_format_of(
            fields[i].dtype,
        ) && fields[i].name@ == inputs[i].name@
}

/// Every input schema descriptor is live and names a representable type.
pub open spec fn spec_fields_importable(inputs: Seq<SchemaDescriptor>) -> bool {
    forall|i: int|
        0 <= i < inputs.len() ==> (#[trigger] inputs[i]).is_live() && (exists|dt: DataType|
            #![trigger spec_format_of(dt)]
            inputs[i].format@ == spec_format_of(dt))
}

/// What the type-resolution entry writes for the resolver's result.
pub open spec fn spec_field_written(
    out: SchemaDescriptor,
    slot: ErrorSlot,
    ret: Result<Field, PluginError>,
) -> bool {
    match ret {
        Ok(fld) => out.is_live() && out.format@ == spec_format_of(fld.dtype) && out.name@
            == fld.name@,
        Err(e) => !out.is_live() && slot.spec_last() == Some(spec_rendered(&e)),
    }
}

/// Imports the input field descriptors of one type-resolution call, taking
/// ownership and stopping at the first failure.
#[verifier::loop_isolation(false)]
pub fn import_fields(inputs: Vec<SchemaDescriptor>) -> (r: Result<Vec<Field>, PluginError>)
    ensures
        match r {
            Ok(fields) => spec_fields_match(inputs@, fields@),
            Err(e) => e matches PluginError::Format(_),
        },
        r is Ok <==> spec_fields_importable(inputs@),
{
    let ghost ginputs = inputs@;
    let mut rest = inputs;
    let mut fields: Vec<Field> = Vec::new();
    let n = rest.len();
    let mut i: usize = 0;
    while i < n
        invariant
            i <= n,
            n == ginputs.len(),
            rest@ =~= ginputs.skip(i as int),
            fields@.len() == i,
            forall|j: int|
                0 <= j < i ==> (#[trigger] ginputs[j]).is_live() && ginputs[j].format@
                    == spec_format_of(fields@[j].dtype) && fields@[j].name@ == ginputs[j].name@,
        decreases n - i,
    {
        let sd = rest.remove(0);
        proof {
            assert(sd == ginputs[i as int]);
            assert(rest@ =~= ginputs.skip(i as int + 1));
        }
        match import_field(sd) {
            Ok(fld) => {
                fields.push(fld);
            },
            Err(e) => {
                return Err(e);
            },
        }
        i = i + 1;
    }
    Ok(fields)
}

/// The type-resolution entry point for a user resolver function: imports the
/// input fields, runs the resolver, and exports the resolved field — or
/// records the failure and hands back the empty sentinel.
#[verifier::loop_isolation(false)]
pub fn run_field_entry<F: Fn(Vec<Field>) -> Result<Field, PluginError>>(
    inputs: Vec<SchemaDescriptor>,
    f: &F,
    slot: &mut ErrorSlot,
) -> (out: SchemaDescriptor)
    requires
        forall|args: (Vec<Field>,)| #[trigger] call_requires(*f, args),
    ensures
        !spec_fields_importable(inputs@) ==> !out.is_live() && final(slot).is_set()
            && !final(slot).holds_panic(),
        spec_fields_importable(inputs@) ==> (exists|
            fields: Vec<Field>,
            ret: Result<Field, PluginError>,
        |
            spec_fields_match(inputs@, fields@) && #[trigger] call_ensures(*f, (fields,), ret)
                && spec_field_written(out, *final(slot), ret)),
{
    let ghost ginputs = inputs@;
    let fields = match import_fields(inputs) {
        Ok(fs) => fs,
        Err(e) => {
            slot.record(&e);
            return SchemaDescriptor::empty();
        },
    };
    let ghost gfields = fields;
    let ret = f(fields);
    match ret {
        Ok(fld) => {
            let out = export_field(&fld);
            proof {
                assert(call_ensures(*f, (gfields,), Ok::<Field, PluginError>(fld)));
                assert(spec_field_written(out, *slot, Ok::<Field, PluginError>(fld)));
            }
            out
        },
        Err(e) => {
            slot.record(&e);
            let out = SchemaDescriptor::empty();
            proof {
                assert(call_ensures(*f, (gfields,), Err::<Field, PluginError>(e)));
                assert(spec_field_written(out, *slot, Err::<Field, PluginError>(e)));
            }
            out
        },
    }
}

/// The type-resolution entry point for a plugin declared with a fixed output
/// type: the output field keeps the first input's name and takes the fixed
/// type, matching a resolver that maps the first field to the declared type.
#[verifier::loop_isolation(false)]
pub fn run_field_entry_fixed(inputs: Vec<SchemaDescriptor>, dtype: DataType, slot: &mut ErrorSlot)
    -> (out: SchemaDescriptor)
    ensures
        !spec_fields_importable(inputs@) || inputs@.len() == 0 ==> !out.is_live()
            && final(slot).is_set() && !final(slot).holds_panic(),
        spec_fields_importable(inputs@) && inputs@.len() > 0 ==> out.is_live() && out.format@
            == spec_format_of(dtype) && out.name@ == inputs@[0].name@,
{
    let ghost ginputs = inputs@;
    let mut fields = match import_fields(inputs) {
        Ok(fs) => fs,
        Err(e) => {
            slot.record(&e);
            return SchemaDescriptor::empty();
        },
    };
    if fields.len() == 0 {
        let e = PluginError::Format("no input fields to resolve an output type from".to_owned());
        slot.record(&e);
        return SchemaDescriptor::empty();
    }
    let first = fields.remove(0);
    let fld = Field { name: first.name, dtype };
    export_field(&fld)
}

} // verus!
