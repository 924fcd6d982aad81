use plugin_bridge::array::{import_chunk, ArrayDescriptor, BufferSet, Cell};
use plugin_bridge::bridge::{export_series, import_series, NativeSeries, SeriesExport};
use plugin_bridge::error::PluginError;
use plugin_bridge::schema::{
    format_of, import_field, parse_format, DataType, ReleaseState, SchemaDescriptor, TimeUnit,
};

fn utf8_series(name: &str, chunks: Vec<Vec<Option<&str>>>) -> NativeSeries {
    NativeSeries {
        name: name.to_string(),
        dtype: DataType::Utf8,
        chunks: chunks
            .into_iter()
            .map(|chunk| {
                chunk
                    .into_iter()
                    .map(|c| c.map(|s| Cell::Bytes(s.as_bytes().to_vec())))
                    .collect()
            })
            .collect(),
    }
}

fn assert_round_trip(s: NativeSeries) {
    let name = s.name.clone();
    let dtype = s.dtype;
    let chunks = s.chunks.clone();
    let e = export_series(&s);
    let back = import_series(e).expect("importing an export must succeed");
    assert_eq!(back.name, name);
    assert_eq!(back.dtype, dtype);
    assert_eq!(back.chunks, chunks);
}

#[test]
fn round_trip_zero_chunks() {
    assert_round_trip(utf8_series("empty", vec![]));
}

#[test]
fn round_trip_one_chunk_with_nulls() {
    assert_round_trip(utf8_series("words", vec![vec![Some("apple"), None, Some("Zoo")]]));
}

#[test]
fn round_trip_many_chunks_keeps_boundaries() {
    let s = utf8_series(
        "chunked",
        vec![vec![Some("a")], vec![None, Some("bb")], vec![], vec![Some("ccc"), None]],
    );
    let e = export_series(&s);
    assert_eq!(e.chunks.len(), 4);
    let back = import_series(e).unwrap();
    assert_eq!(back.chunks.len(), 4);
    assert_eq!(back.chunks, s.chunks);
}

#[test]
fn round_trip_primitive_types() {
    let cases: Vec<NativeSeries> = vec![
        NativeSeries {
            name: "ints".to_string(),
            dtype: DataType::Int64,
            chunks: vec![vec![Some(Cell::Int(-5)), None, Some(Cell::Int(i64::MAX))]],
        },
        NativeSeries {
            name: "small".to_string(),
            dtype: DataType::Int8,
            chunks: vec![vec![Some(Cell::Int(-128)), Some(Cell::Int(127))]],
        },
        NativeSeries {
            name: "counts".to_string(),
            dtype: DataType::UInt32,
            chunks: vec![vec![Some(Cell::UInt(0)), Some(Cell::UInt(4_294_967_295))]],
        },
        NativeSeries {
            name: "flags".to_string(),
            dtype: DataType::Boolean,
            chunks: vec![vec![Some(Cell::Bool(true)), None, Some(Cell::Bool(false))]],
        },
        NativeSeries {
            name: "days".to_string(),
            dtype: DataType::Date,
            chunks: vec![vec![Some(Cell::Int(19000)), None]],
        },
        NativeSeries {
            name: "stamps".to_string(),
            dtype: DataType::Datetime(TimeUnit::Microseconds),
            chunks: vec![vec![Some(Cell::Int(1_700_000_000_000_000))]],
        },
        NativeSeries {
            name: "raw".to_string(),
            dtype: DataType::Binary,
            chunks: vec![vec![Some(Cell::Bytes(vec![0, 255, 7])), None]],
        },
    ];
    for s in cases {
        assert_round_trip(s);
    }
}

#[test]
fn export_leaves_the_original_usable() {
    // Ownership: the exported descriptors carry their own buffers, so the
    // original handle stays valid and independently destructible.
    let s = utf8_series("owned", vec![vec![Some("keep"), None]]);
    let e = export_series(&s);
    assert_eq!(s.chunks[0][0], Some(Cell::Bytes(b"keep".to_vec())));
    drop(s);
    let back = import_series(e).unwrap();
    assert_eq!(back.chunks[0][0], Some(Cell::Bytes(b"keep".to_vec())));
}

#[test]
fn import_rejects_negative_length() {
    let d = ArrayDescriptor {
        length: -1,
        null_count: 0,
        offset: 0,
        buffers: BufferSet::PrimSigned { validity: None, values: Vec::new() },
        release: ReleaseState::Armed,
    };
    match import_chunk(&DataType::Int64, d) {
        Err(PluginError::Buffer(_)) => {}
        other => panic!("expected a buffer error, got {:?}", other),
    }
}

#[test]
fn import_rejects_window_past_buffer_end() {
    let d = ArrayDescriptor {
        length: 3,
        null_count: 0,
        offset: 1,
        buffers: BufferSet::PrimSigned { validity: None, values: vec![1, 2, 3] },
        release: ReleaseState::Armed,
    };
    assert!(import_chunk(&DataType::Int64, d).is_err());
}

#[test]
fn import_rejects_released_descriptor() {
    let d = ArrayDescriptor {
        length: 0,
        null_count: 0,
        offset: 0,
        buffers: BufferSet::PrimSigned { validity: None, values: Vec::new() },
        release: ReleaseState::Released,
    };
    assert!(import_chunk(&DataType::Int64, d).is_err());
}

#[test]
fn import_rejects_inconsistent_offsets() {
    let d = ArrayDescriptor {
        length: 2,
        null_count: 0,
        offset: 0,
        buffers: BufferSet::VarBinary {
            validity: None,
            offsets: vec![0, 5, 3],
            data: vec![1, 2, 3, 4, 5],
        },
        release: ReleaseState::Armed,
    };
    assert!(import_chunk(&DataType::Utf8, d).is_err());
}

#[test]
fn import_honors_a_window_offset() {
    let d = ArrayDescriptor {
        length: 2,
        null_count: 0,
        offset: 1,
        buffers: BufferSet::PrimSigned { validity: None, values: vec![10, 20, 30, 40] },
        release: ReleaseState::Armed,
    };
    let cells = import_chunk(&DataType::Int64, d).unwrap();
    assert_eq!(cells, vec![Some(Cell::Int(20)), Some(Cell::Int(30))]);
}

#[test]
fn import_rejects_out_of_range_values() {
    let d = ArrayDescriptor {
        length: 1,
        null_count: 0,
        offset: 0,
        buffers: BufferSet::PrimSigned { validity: None, values: vec![300] },
        release: ReleaseState::Armed,
    };
    assert!(import_chunk(&DataType::Int8, d).is_err());
}

#[test]
fn import_series_rejects_unknown_format() {
    let e = SeriesExport {
        schema: SchemaDescriptor {
            format: b"??".to_vec(),
            name: "x".to_string(),
            nullable: true,
            release: ReleaseState::Armed,
        },
        chunks: vec![],
    };
    match import_series(e) {
        Err(PluginError::Format(_)) => {}
        other => panic!("expected a format error, got {:?}", other),
    }
}

#[test]
fn format_strings_round_trip() {
    let types = vec![
        DataType::Boolean,
        DataType::Int8,
        DataType::Int16,
        DataType::Int32,
        DataType::Int64,
        DataType::UInt8,
        DataType::UInt16,
        DataType::UInt32,
        DataType::UInt64,
        DataType::Date,
        DataType::Time,
        DataType::Duration(TimeUnit::Milliseconds),
        DataType::Duration(TimeUnit::Microseconds),
        DataType::Duration(TimeUnit::Nanoseconds),
        DataType::Datetime(TimeUnit::Milliseconds),
        DataType::Datetime(TimeUnit::Microseconds),
        DataType::Datetime(TimeUnit::Nanoseconds),
        DataType::Utf8,
        DataType::Binary,
    ];
    for dt in types {
        let f = format_of(&dt);
        assert_eq!(parse_format(&f), Some(dt));
    }
    assert_eq!(parse_format(&b"x".to_vec()), None);
    assert_eq!(parse_format(&b"".to_vec()), None);
}

#[test]
fn released_schema_descriptor_is_refused() {
    let sd = SchemaDescriptor {
        format: b"l".to_vec(),
        name: "x".to_string(),
        nullable: true,
        release: ReleaseState::Released,
    };
    assert!(import_field(sd).is_err());
}

#[test]
fn round_trip_long_boolean_column_crosses_byte_boundaries() {
    let cells: Vec<Option<Cell>> = (0..21)
        .map(|i| {
            if i % 5 == 0 {
                None
            } else {
                Some(Cell::Bool(i % 3 == 0))
            }
        })
        .collect();
    let s = NativeSeries {
        name: "bits".to_string(),
        dtype: DataType::Boolean,
        chunks: vec![cells],
    };
    assert_round_trip(s);
}

#[test]
fn round_trip_u64_extremes() {
    let s = NativeSeries {
        name: "big".to_string(),
        dtype: DataType::UInt64,
        chunks: vec![vec![Some(Cell::UInt(0)), Some(Cell::UInt(u64::MAX)), None]],
    };
    assert_round_trip(s);
}

#[test]
fn export_counts_nulls() {
    let cells = vec![Some(Cell::Int(1)), None, None, Some(Cell::Int(2)), None];
    let d = plugin_bridge::array::export_chunk(&DataType::Int64, &cells);
    assert_eq!(d.null_count, 3);
    assert_eq!(d.length, 5);
    assert_eq!(d.offset, 0);
}
