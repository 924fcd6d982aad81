//! Example compute functions written against the model.
//!
//! The pig-latin expression is the worked example of the whole pipeline: a
//! compute function over one string column with one strongly-typed keyword
//! argument. Its rule, per byte string: an empty value stays empty; with
//! `capitalize` off, the first byte moves to the end and "ay" is appended;
//! with `capitalize` on, the remaining bytes are uppercased (ASCII) and
//! "AY" is appended. A null value maps to a null value, and the output
//! column keeps the input's name and string type.

use crate::array::Cell;
use crate::array::CellView;
use crate::array::col_view;
use crate::bridge::NativeSeries;
use crate::entry::spec_exportable;
use crate::error::PluginError;
use crate::kwargs::KwargsValue;
use crate::kwargs::KwargsView;
use crate::kwargs::dict_get;
use crate::kwargs::spec_lookup;
use crate::schema::DataType;
use vstd::prelude::*;

verus! {

/// ASCII uppercase of one byte.
pub open spec fn spec_upper_byte(b: u8) -> u8 {
    if 0x61 <= b <= 0x7a {
        (b - 0x20) as u8
    } else {
        b
    }
}

/// The pig-latin rule on one byte string.
pub open spec fn spec_pig_latin(s: Seq<u8>, capitalize: bool) -> Seq<u8> {
    if s.len() == 0 {
        s
    } else if capitalize {
        Seq::new((s.len() - 1) as nat, |i: int| spec_upper_byte(s[i + 1])) + seq![0x41u8, 0x59u8]
    } else {
        s.drop_first() + seq![s[0]] + seq![0x61u8, 0x79u8]
    }
}

/// The pig-latin rule on one optional cell: null maps to null.
pub open spec fn spec_pig_latin_cell(c: Option<CellView>, capitalize: bool) -> Option<CellView> {
    match c {
        Some(CellView::Bytes(s)) => Some(CellView::Bytes(spec_pig_latin(s, capitalize))),
        _ => None,
    }
}

/// Applies the pig-latin rule to one byte string.
#[verifier::loop_isolation(false)]
pub fn pig_latin_bytes(b: &Vec<u8>, capitalize: bool) -> (out: Vec<u8>)
    ensures
        out@ == spec_pig_latin(b@, capitalize),
{
    let mut out: Vec<u8> = Vec::new();
    let n = b.len();
    if n == 0 {
        proof {
            assert(out@ =~= spec_pig_latin(b@, capitalize));
        }
        return out;
    }
    if capitalize {
        let mut k: usize = 1;
        while k < n
            invariant
                1 <= k <= n,
                out@ =~= Seq::new((k - 1) as nat, |i: int| spec_upper_byte(b@[i + 1])),
            decreases n - k,
        {
            let c = b[k];
            let u = if 0x61 <= c && c <= 0x7a {
                c - 0x20
            } else {
                c
            };
            out.push(u);
            k = k + 1;
            proof {
                assert(out@ =~= Seq::new((k - 1) as nat, |i: int| spec_upper_byte(b@[i + 1])));
            }
        }
        out.push(0x41u8);
        out.push(0x59u8);
        proof {
            assert(out@ =~= spec_pig_latin(b@, capitalize));
        }
    } else {
        let mut k: usize = 1;
        while k < n
            invariant
                1 <= k <= n,
                out@ =~= b@.subrange(1, k as int),
            decreases n - k,
        {
            out.push(b[k]);
            k = k + 1;
            proof {
                assert(out@ =~= b@.subrange(1, k as int));
            }
        }
        out.push(b[0]);
        out.push(0x61u8);
        out.push(0x79u8);
        proof {
            assert(b@.subrange(1, n as int) =~= b@.drop_first());
            assert(out@ =~= spec_pig_latin(b@, capitalize));
        }
    }
    out
}

/// The key under which the capitalize switch rides in the kwargs
/// dictionary: the bytes of "capitalize".
pub open spec fn spec_capitalize_key() -> Seq<u8> {
    seq![0x63u8, 0x61u8, 0x70u8, 0x69u8, 0x74u8, 0x61u8, 0x6cu8, 0x69u8, 0x7au8, 0x65u8]
}

fn capitalize_key() -> (out: Vec<u8>)
    ensures
        out@ == spec_capitalize_key(),
{
    let mut out: Vec<u8> = Vec::new();
    out.push(0x63u8);
    out.push(0x61u8);
    out.push(0x70u8);
    out.push(0x69u8);
    out.push(0x74u8);
    out.push(0x61u8);
    out.push(0x6cu8);
    out.push(0x69u8);
    out.push(0x7au8);
    out.push(0x65u8);
    proof {
        assert(out@ =~= spec_capitalize_key());
    }
    out
}

/// The strongly-typed keyword arguments of the pig-latin expression.
#[derive(Debug, PartialEq, Eq)]
pub struct PigLatinKwargs {
    pub capitalize: bool,
}

/// The capitalize switch the kwargs carry: present exactly when the kwargs
/// are a dictionary holding a boolean under the "capitalize" key.
pub open spec fn spec_typed_kwargs(kw: Option<KwargsValue>) -> Option<bool> {
    match kw {
        Some(v) => match v.dview() {
            KwargsView::Dict(es) => match spec_lookup(es, spec_capitalize_key()) {
                Some(KwargsView::Bool(b)) => Some(b),
                _ => None,
            },
            _ => None,
        },
        None => None,
    }
}

/// Decodes the pig-latin kwargs from the schema-less bag, validating field
/// presence and type; a failure names the offending field.
pub fn parse_pig_latin_kwargs(kw: &Option<KwargsValue>) -> (r: Result<PigLatinKwargs, PluginError>)
    ensures
        r matches Ok(k) ==> spec_typed_kwargs(*kw) == Some(k.capitalize),
        r is Ok <==> spec_typed_kwargs(*kw) is Some,
        r matches Err(e) ==> e matches PluginError::Kwargs(_),
{
    match kw {
        None => Err(PluginError::Kwargs("missing kwargs: capitalize is required".to_owned())),
        Some(KwargsValue::Dict(entries)) => {
            let key = capitalize_key();
            match dict_get(entries, key.as_slice()) {
                Some(KwargsValue::Bool(b)) => Ok(PigLatinKwargs { capitalize: *b }),
                Some(_) => Err(PluginError::Kwargs("mistyped field: capitalize".to_owned())),
                None => Err(PluginError::Kwargs("missing field: capitalize".to_owned())),
            }
        },
        Some(_) => Err(PluginError::Kwargs("kwargs must be a dictionary".to_owned())),
    }
}

/// The inputs on which the pig-latin expression owes a result: at least one
/// column, the first a well-formed string column of exportable chunks, and
/// the capitalize switch present in the kwargs.
pub open spec fn spec_pig_inputs_ok(inputs: Seq<NativeSeries>, kw: Option<KwargsValue>) -> bool {
    &&& inputs.len() >= 1
    &&& inputs[0].dtype == DataType::Utf8
    &&& inputs[0].wf()
    &&& forall|i: int| 0 <= i < inputs[0].chunks@.len() ==> (#[trigger] inputs[0].chunks@[i])@.len()
        <= i64::MAX
    &&& spec_typed_kwargs(kw) is Some
}

/// The cell is a byte-string cell or a null.
pub open spec fn opt_is_bytes_or_none(c: Option<Cell>) -> bool {
    match c {
        Some(cell) => cell is Bytes,
        None => true,
    }
}

/// The pig-latin compute function: one string column in, one string column
/// out, cell by cell under the pig-latin rule, nulls kept in place, the
/// input's name and chunking kept.
#[verifier::loop_isolation(false)]
#[verifier::rlimit(60)]
pub fn pig_latinnify(inputs: Vec<NativeSeries>, kwargs: Option<KwargsValue>) -> (r: Result<
    NativeSeries,
    PluginError,
>)
    ensures
        r is Ok <==> spec_pig_inputs_ok(inputs@, kwargs),
        r matches Ok(out) ==> {
            &&& out.dtype == DataType::Utf8
            &&& out.name@ == inputs@[0].name@
            &&& spec_exportable(out)
            &&& out.chunks@.len() == inputs@[0].chunks@.len()
            &&& exists|cap: bool|
                spec_typed_kwargs(kwargs) == Some(cap) && (forall|i: int|
                    0 <= i < out.chunks@.len() ==> col_view((#[trigger] out.chunks@[i])@)
                        == Seq::new(
                        inputs@[0].chunks@[i]@.len(),
                        |j: int| spec_pig_latin_cell(col_view(inputs@[0].chunks@[i]@)[j], cap),
                    ))
        },
{
    let parsed = match parse_pig_latin_kwargs(&kwargs) {
        Ok(k) => k,
        Err(e) => {
            return Err(e);
        },
    };
    let cap = parsed.capitalize;
    if inputs.len() == 0 {
        return Err(PluginError::Compute("expected one input column".to_owned()));
    }
    let first = &inputs[0];
    let is_utf8 = match first.dtype {
        DataType::Utf8 => true,
        _ => false,
    };
    if !is_utf8 {
        return Err(PluginError::Compute("expected a string column".to_owned()));
    }
    let n = first.chunks.len();
    let mut out_chunks: Vec<Vec<Option<Cell>>> = Vec::new();
    let mut i: usize = 0;
    while i < n
        invariant
            i <= n,
            n == first.chunks@.len(),
            first == inputs@[0],
            out_chunks@.len() == i,
            forall|t: int|
                0 <= t < i ==> (#[trigger] first.chunks@[t])@.len() <= i64::MAX && crate::array::chunk_fits(
                    DataType::Utf8,
                    first.chunks@[t]@,
                ),
            forall|t: int|
                0 <= t < i ==> col_view((#[trigger] out_chunks@[t])@) == Seq::new(
                    first.chunks@[t]@.len(),
                    |j: int| spec_pig_latin_cell(col_view(first.chunks@[t]@)[j], cap),
                ) && crate::array::chunk_fits(DataType::Utf8, out_chunks@[t]@) && out_chunks@[t]@.len()
                    == first.chunks@[t]@.len(),
        decreases n - i,
    {
        let chunk = &first.chunks[i];
        let m = chunk.len();
        if m as u64 > 0x7fff_ffff_ffff_ffffu64 {
            return Err(PluginError::Compute("chunk too long to export".to_owned()));
        }
        let mut out_chunk: Vec<Option<Cell>> = Vec::new();
        let mut j: usize = 0;
        while j < m
            invariant
                j <= m,
                m == chunk@.len(),
                chunk == first.chunks@[i as int],
                out_chunk@.len() == j,
                forall|t: int|
                    0 <= t < j ==> (#[trigger] chunk@[t] matches Some(c) ==> c is Bytes),
                forall|t: int|
                    0 <= t < j ==> opt_is_bytes_or_none(#[trigger] out_chunk@[t])
                        && crate::array::opt_cell_view(out_chunk@[t]) == spec_pig_latin_cell(
                        crate::array::opt_cell_view(chunk@[t]),
                        cap,
                    ),
            decreases m - j,
        {
            match &chunk[j] {
                None => {
                    out_chunk.push(None);
                },
                Some(Cell::Bytes(b)) => {
                    let mapped = pig_latin_bytes(b, cap);
                    out_chunk.push(Some(Cell::Bytes(mapped)));
                },
                Some(_) => {
                    return Err(PluginError::Compute("expected string data".to_owned()));
                },
            }
            j = j + 1;
        }
        out_chunks.push(out_chunk);
        i = i + 1;
        proof {
            let t = i - 1;
            assert(col_view(out_chunks@[t]@) =~= Seq::new(
                first.chunks@[t]@.len(),
                |j: int| spec_pig_latin_cell(col_view(first.chunks@[t]@)[j], cap),
            ));
        }
    }
    let out = NativeSeries { name: first.name.clone(), dtype: DataType::Utf8, chunks: out_chunks };
    proof {
        assert(spec_pig_inputs_ok(inputs@, kwargs));
        assert(spec_exportable(out));
    }
    Ok(out)
}

} // verus!
