use plugin_bridge::array::Cell;
use plugin_bridge::bridge::{export_series, import_series, NativeSeries};
use plugin_bridge::entry::{
    conclude_compute, run_compute_entry, run_field_entry, run_field_entry_fixed, ComputeOutcome,
};
use plugin_bridge::error::{ErrorSlot, PluginError};
use plugin_bridge::exprs::pig_latinnify;
use plugin_bridge::kwargs::{encode_kwargs, KwargsValue};
use plugin_bridge::schema::{export_field, DataType, Field};

fn utf8_series(name: &str, cells: Vec<Option<&str>>) -> NativeSeries {
    NativeSeries {
        name: name.to_string(),
        dtype: DataType::Utf8,
        chunks: vec![cells
            .into_iter()
            .map(|c| c.map(|s| Cell::Bytes(s.as_bytes().to_vec())))
            .collect()],
    }
}

fn capitalize_kwargs(value: bool) -> Vec<u8> {
    encode_kwargs(&KwargsValue::Dict(vec![(
        b"capitalize".to_vec(),
        KwargsValue::Bool(value),
    )]))
}

#[test]
fn pig_latin_scenario_three_strings() {
    // "uppercase-first, append suffix AY" with capitalize off: move the
    // first byte to the end and append "ay"; nulls map to nulls.
    let input = utf8_series("words", vec![Some("apple"), Some(""), Some("Zoo"), None]);
    let exported = export_series(&input);
    let blob = capitalize_kwargs(false);
    let mut slot = ErrorSlot::new();
    let out = run_compute_entry(vec![exported], &blob, &pig_latinnify, &mut slot);
    let series = import_series(out).expect("the entry must hand back a live result");
    assert_eq!(series.name, "words");
    assert_eq!(series.dtype, DataType::Utf8);
    assert_eq!(
        series.chunks,
        vec![vec![
            Some(Cell::Bytes(b"ppleaay".to_vec())),
            Some(Cell::Bytes(b"".to_vec())),
            Some(Cell::Bytes(b"ooZay".to_vec())),
            None,
        ]]
    );
    assert!(slot.last_message().is_none());
}

#[test]
fn pig_latin_capitalize_branch() {
    let input = utf8_series("words", vec![Some("apple")]);
    let exported = export_series(&input);
    let blob = capitalize_kwargs(true);
    let mut slot = ErrorSlot::new();
    let out = run_compute_entry(vec![exported], &blob, &pig_latinnify, &mut slot);
    let series = import_series(out).unwrap();
    assert_eq!(series.chunks, vec![vec![Some(Cell::Bytes(b"PPLEAY".to_vec()))]]);
}

#[test]
fn missing_kwargs_field_reports_its_name() {
    let input = utf8_series("words", vec![Some("apple")]);
    let exported = export_series(&input);
    let blob = encode_kwargs(&KwargsValue::Dict(vec![(
        b"other".to_vec(),
        KwargsValue::Bool(true),
    )]));
    let mut slot = ErrorSlot::new();
    let out = run_compute_entry(vec![exported], &blob, &pig_latinnify, &mut slot);
    assert!(import_series(out).is_err(), "a failed call hands back the sentinel");
    let msg = slot.last_message().expect("the slot holds the reason");
    assert!(msg.contains("capitalize"), "unexpected message: {}", msg);
}

#[test]
fn mistyped_kwargs_field_reports_its_name() {
    let input = utf8_series("words", vec![Some("apple")]);
    let exported = export_series(&input);
    let blob = encode_kwargs(&KwargsValue::Dict(vec![(
        b"capitalize".to_vec(),
        KwargsValue::Int(1),
    )]));
    let mut slot = ErrorSlot::new();
    let out = run_compute_entry(vec![exported], &blob, &pig_latinnify, &mut slot);
    assert!(import_series(out).is_err());
    let msg = slot.last_message().unwrap();
    assert!(msg.starts_with("kwargs error:"), "unexpected message: {}", msg);
    assert!(msg.contains("capitalize"));
}

#[test]
fn empty_kwargs_with_required_kwargs_is_a_kwargs_error() {
    // An empty blob decodes to "no kwargs supplied"; a plugin that requires
    // kwargs then reports the missing argument, not a decode failure.
    let input = utf8_series("words", vec![Some("apple")]);
    let exported = export_series(&input);
    let blob: Vec<u8> = Vec::new();
    let mut slot = ErrorSlot::new();
    let out = run_compute_entry(vec![exported], &blob, &pig_latinnify, &mut slot);
    assert!(import_series(out).is_err());
    assert!(slot.last_message().unwrap().starts_with("kwargs error:"));
}

#[test]
fn malformed_kwargs_blob_is_contained() {
    let input = utf8_series("words", vec![Some("apple")]);
    let exported = export_series(&input);
    let blob = vec![9u8, 9u8];
    let mut slot = ErrorSlot::new();
    let out = run_compute_entry(vec![exported], &blob, &pig_latinnify, &mut slot);
    assert!(import_series(out).is_err());
    assert!(slot.last_message().unwrap().starts_with("kwargs error:"));
}

#[test]
fn panic_containment_sets_sentinel_and_panic_message() {
    let mut slot = ErrorSlot::new();
    let out = conclude_compute(ComputeOutcome::Panicked, &mut slot);
    assert!(import_series(out).is_err(), "a panicking call hands back the sentinel");
    assert_eq!(slot.last_message().unwrap().as_str(), "PANIC");

    // The slot is not corrupted: a subsequent successful call still works
    // and a subsequent failure overwrites the message.
    let ok = conclude_compute(
        ComputeOutcome::Success(utf8_series("later", vec![Some("fine")])),
        &mut slot,
    );
    let series = import_series(ok).unwrap();
    assert_eq!(series.name, "later");
    let _ = conclude_compute(
        ComputeOutcome::Failure(PluginError::Compute("boom".to_string())),
        &mut slot,
    );
    assert_eq!(slot.last_message().unwrap().as_str(), "compute error: boom");
}

#[test]
fn typed_failure_renders_with_its_kind() {
    let mut slot = ErrorSlot::new();
    let out = conclude_compute(
        ComputeOutcome::Failure(PluginError::Compute("division by zero".to_string())),
        &mut slot,
    );
    assert!(import_series(out).is_err());
    assert_eq!(slot.last_message().unwrap().as_str(), "compute error: division by zero");
}

#[test]
fn field_entry_fixed_keeps_the_input_string_type() {
    // Output type resolution for the pig-latin expression: the input's
    // string type comes back unchanged, under the input's name.
    let field = Field { name: "words".to_string(), dtype: DataType::Utf8 };
    let sd = export_field(&field);
    let mut slot = ErrorSlot::new();
    let out = run_field_entry_fixed(vec![sd], DataType::Utf8, &mut slot);
    let resolved = plugin_bridge::schema::import_field(out).unwrap();
    assert_eq!(resolved.name, "words");
    assert_eq!(resolved.dtype, DataType::Utf8);
}

#[test]
fn field_entry_runs_a_resolver() {
    fn resolver(fields: Vec<Field>) -> Result<Field, PluginError> {
        match fields.into_iter().next() {
            Some(f) => Ok(f),
            None => Err(PluginError::Compute("no fields".to_string())),
        }
    }
    let field = Field { name: "x".to_string(), dtype: DataType::Int64 };
    let sd = export_field(&field);
    let mut slot = ErrorSlot::new();
    let out = run_field_entry(vec![sd], &resolver, &mut slot);
    let resolved = plugin_bridge::schema::import_field(out).unwrap();
    assert_eq!(resolved.name, "x");
    assert_eq!(resolved.dtype, DataType::Int64);

    let mut slot2 = ErrorSlot::new();
    let out2 = run_field_entry(vec![], &resolver, &mut slot2);
    assert!(plugin_bridge::schema::import_field(out2).is_err());
    assert_eq!(slot2.last_message().unwrap().as_str(), "compute error: no fields");
}

#[test]
fn bad_input_descriptor_yields_sentinel_and_message() {
    let bad = plugin_bridge::bridge::SeriesExport {
        schema: plugin_bridge::schema::SchemaDescriptor {
            format: b"??".to_vec(),
            name: "x".to_string(),
            nullable: true,
            release: plugin_bridge::schema::ReleaseState::Armed,
        },
        chunks: vec![],
    };
    let blob = capitalize_kwargs(false);
    let mut slot = ErrorSlot::new();
    let out = run_compute_entry(vec![bad], &blob, &pig_latinnify, &mut slot);
    assert!(import_series(out).is_err(), "a failed call hands back the sentinel");
    assert!(slot.last_message().unwrap().starts_with("format error:"));
}
