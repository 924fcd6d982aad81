//! Self-describing byte codec for the keyword-argument bag.
//!
//! A computation request may carry an arbitrary, schema-less bag of keyword
//! arguments. The host side encodes the bag into one opaque byte buffer; the
//! plugin side decodes the buffer back. The encoding is self-describing: a
//! one-byte tag picks the shape of every value, and lengths ride in front of
//! variable-sized payloads as 8-byte little-endian words, so nested
//! dictionaries, lists, scalars and binary blobs all round-trip exactly.
//!
//! An empty buffer is not an error: it means "no kwargs supplied", so a
//! plugin with optional kwargs can take either path.
//!
//! The round-trip law is carried by the contracts: `encode_kwargs` produces
//! exactly `spec_encode` of the value's mathematical shape, and
//! `decode_kwargs` returns, for every buffer that is such an encoding, the
//! one value of that shape.

use crate::error::PluginError;
use vstd::prelude::*;

verus! {

/// One value of the schema-less keyword-argument bag.
///
/// Text rides as its UTF-8 bytes in `Bytes`; a dictionary keeps its entries
/// in insertion order, keyed by byte strings.
#[derive(Debug, PartialEq, Eq)]
pub enum KwargsValue {
    Null,
    Bool(bool),
    Int(i64),
    Bytes(Vec<u8>),
    List(Vec<KwargsValue>),
    Dict(Vec<(Vec<u8>, KwargsValue)>),
}

/// The mathematical shape of a kwargs value: what the codec preserves.
pub enum KwargsView {
    Null,
    Bool(bool),
    Int(int),
    Bytes(Seq<u8>),
    List(Seq<KwargsView>),
    Dict(Seq<(Seq<u8>, KwargsView)>),
}

impl KwargsView {
    /// A shape the wire form can carry faithfully: every integer fits in a
    /// signed 64-bit word.
    pub open spec fn wf(self) -> bool
        decreases self,
    {
        match self {
            KwargsView::Null => true,
            KwargsView::Bool(_) => true,
            KwargsView::Int(i) => i64::MIN <= i <= i64::MAX,
            KwargsView::Bytes(_) => true,
            KwargsView::List(vs) => wf_all_items(vs),
            KwargsView::Dict(es) => wf_all_entries(es),
        }
    }
}

/// Every shape in the sequence is well-formed.
pub open spec fn wf_all_items(vs: Seq<KwargsView>) -> bool
    decreases vs,
{
    vs.len() == 0 || (vs[0].wf() && wf_all_items(vs.drop_first()))
}

/// Every entry's value shape is well-formed.
pub open spec fn wf_all_entries(es: Seq<(Seq<u8>, KwargsView)>) -> bool
    decreases es,
{
    es.len() == 0 || (es[0].1.wf() && wf_all_entries(es.drop_first()))
}

pub proof fn lemma_wf_all_items_index(vs: Seq<KwargsView>, i: int)
    requires
        wf_all_items(vs),
        0 <= i < vs.len(),
    ensures
        vs[i].wf(),
    decreases vs,
{
    if i > 0 {
        assert(vs.drop_first()[i - 1] == vs[i]);
        lemma_wf_all_items_index(vs.drop_first(), i - 1);
    }
}

pub proof fn lemma_wf_all_entries_index(es: Seq<(Seq<u8>, KwargsView)>, i: int)
    requires
        wf_all_entries(es),
        0 <= i < es.len(),
    ensures
        es[i].1.wf(),
    decreases es,
{
    if i > 0 {
        assert(es.drop_first()[i - 1] == es[i]);
        lemma_wf_all_entries_index(es.drop_first(), i - 1);
    }
}

impl KwargsValue {
    /// The mathematical shape of this value.
    pub open spec fn dview(self) -> KwargsView
        decreases self,
    {
        match self {
            KwargsValue::Null => KwargsView::Null,
            KwargsValue::Bool(b) => KwargsView::Bool(b),
            KwargsValue::Int(i) => KwargsView::Int(i as int),
            KwargsValue::Bytes(b) => KwargsView::Bytes(b@),
            KwargsValue::List(items) => KwargsView::List(dview_items(items@)),
            KwargsValue::Dict(entries) => KwargsView::Dict(dview_entries(entries@)),
        }
    }
}

/// The shapes of a sequence of values.
pub open spec fn dview_items(s: Seq<KwargsValue>) -> Seq<KwargsView>
    decreases s,
{
    if s.len() == 0 {
        Seq::empty()
    } else {
        seq![s[0].dview()] + dview_items(s.drop_first())
    }
}

/// The shapes of a sequence of dictionary entries.
pub open spec fn dview_entries(s: Seq<(Vec<u8>, KwargsValue)>) -> Seq<(Seq<u8>, KwargsView)>
    decreases s,
{
    if s.len() == 0 {
        Seq::empty()
    } else {
        seq![(s[0].0@, s[0].1.dview())] + dview_entries(s.drop_first())
    }
}

pub proof fn lemma_dview_items(s: Seq<KwargsValue>)
    ensures
        dview_items(s).len() == s.len(),
        forall|i: int| 0 <= i < s.len() ==> #[trigger] dview_items(s)[i] == s[i].dview(),
    decreases s,
{
    if s.len() > 0 {
        lemma_dview_items(s.drop_first());
        assert forall|i: int| 0 <= i < s.len() implies #[trigger] dview_items(s)[i]
            == s[i].dview() by {
            if i > 0 {
                assert(dview_items(s)[i] == dview_items(s.drop_first())[i - 1]);
                assert(s.drop_first()[i - 1] == s[i]);
            }
        }
    }
}

pub proof fn lemma_dview_entries(s: Seq<(Vec<u8>, KwargsValue)>)
    ensures
        dview_entries(s).len() == s.len(),
        forall|i: int|
            0 <= i < s.len() ==> #[trigger] dview_entries(s)[i] == (s[i].0@, s[i].1.dview()),
    decreases s,
{
    if s.len() > 0 {
        lemma_dview_entries(s.drop_first());
        assert forall|i: int| 0 <= i < s.len() implies #[trigger] dview_entries(s)[i] == (
            s[i].0@,
            s[i].1.dview(),
        ) by {
            if i > 0 {
                assert(dview_entries(s)[i] == dview_entries(s.drop_first())[i - 1]);
                assert(s.drop_first()[i - 1] == s[i]);
            }
        }
    }
}

/// Every value the library can hold has a well-formed shape.
pub proof fn lemma_dview_wf(v: KwargsValue)
    ensures
        v.dview().wf(),
    decreases v,
{
    match v {
        KwargsValue::List(items) => {
            lemma_dview_wf_items(items@);
        },
        KwargsValue::Dict(entries) => {
            lemma_dview_wf_entries(entries@);
        },
        _ => {},
    }
}

proof fn lemma_dview_wf_items(s: Seq<KwargsValue>)
    ensures
        wf_all_items(dview_items(s)),
    decreases s,
{
    if s.len() > 0 {
        lemma_dview_wf(s[0]);
        lemma_dview_wf_items(s.drop_first());
        assert(dview_items(s)[0] == s[0].dview());
        assert(dview_items(s).drop_first() =~= dview_items(s.drop_first()));
    }
}

proof fn lemma_dview_wf_entries(s: Seq<(Vec<u8>, KwargsValue)>)
    ensures
        wf_all_entries(dview_entries(s)),
    decreases s,
{
    if s.len() > 0 {
        lemma_dview_wf(s[0].1);
        lemma_dview_wf_entries(s.drop_first());
        assert(dview_entries(s)[0] == (s[0].0@, s[0].1.dview()));
        assert(dview_entries(s).drop_first() =~= dview_entries(s.drop_first()));
    }
}

// ---------------------------------------------------------------------------
// Little-endian length words
// ---------------------------------------------------------------------------

/// 256 to the power `n`: the number of values `n` bytes can carry.
pub open spec fn pow256(n: nat) -> nat
    decreases n,
{
    if n == 0 {
        1
    } else {
        256 * pow256((n - 1) as nat)
    }
}

/// The `n` little-endian base-256 digits of `x`.
pub open spec fn spec_le_bytes(x: nat, n: nat) -> Seq<u8>
    decreases n,
{
    if n == 0 {
        Seq::empty()
    } else {
        seq![(x % 256) as u8] + spec_le_bytes(x / 256, (n - 1) as nat)
    }
}

/// The number a little-endian base-256 digit string denotes.
pub open spec fn spec_from_le(s: Seq<u8>) -> nat
    decreases s.len(),
{
    if s.len() == 0 {
        0
    } else {
        (s[0] + 256 * spec_from_le(s.drop_first())) as nat
    }
}

pub proof fn lemma_le_bytes_len(x: nat, n: nat)
    ensures
        spec_le_bytes(x, n).len() == n,
    decreases n,
{
    if n > 0 {
        lemma_le_bytes_len(x / 256, (n - 1) as nat);
    }
}

/// Reading the digits of `x` back gives `x`, as long as `x` fits in `n` bytes.
pub proof fn lemma_le_round_trip(x: nat, n: nat)
    requires
        x < pow256(n),
    ensures
        spec_from_le(spec_le_bytes(x, n)) == x,
    decreases n,
{
    if n > 0 {
        assert(x / 256 < pow256((n - 1) as nat)) by (nonlinear_arith)
            requires
                x < 256 * pow256((n - 1) as nat),
        ;
        lemma_le_round_trip(x / 256, (n - 1) as nat);
        lemma_le_bytes_len(x / 256, (n - 1) as nat);
        let s = spec_le_bytes(x, n);
        assert(s.drop_first() =~= spec_le_bytes(x / 256, (n - 1) as nat));
    }
}

/// Writing the number a digit string denotes gives the digit string back.
pub proof fn lemma_le_from_le(s: Seq<u8>)
    ensures
        spec_le_bytes(spec_from_le(s), s.len()) == s,
    decreases s.len(),
{
    if s.len() > 0 {
        let x = spec_from_le(s);
        let rest = spec_from_le(s.drop_first());
        assert((s[0] + 256 * rest) % 256 == s[0] && (s[0] + 256 * rest) / 256 == rest)
            by (nonlinear_arith)
            requires
                0 <= s[0] < 256,
                rest >= 0,
        ;
        lemma_le_from_le(s.drop_first());
        assert(spec_le_bytes(x, s.len()) =~= s);
    }
}

/// A value read from `n` digits always fits in `n` bytes.
pub proof fn lemma_from_le_bound(s: Seq<u8>)
    ensures
        spec_from_le(s) < pow256(s.len()),
    decreases s.len(),
{
    if s.len() > 0 {
        lemma_from_le_bound(s.drop_first());
        assert(s[0] + 256 * spec_from_le(s.drop_first()) < 256 * pow256((s.len() - 1) as nat))
            by (nonlinear_arith)
            requires
                s[0] < 256,
                spec_from_le(s.drop_first()) < pow256((s.len() - 1) as nat),
        ;
    }
}

/// The values of `pow256` that 64-bit words need.
pub proof fn lemma_pow256_words()
    ensures
        pow256(7) == 0x100_0000_0000_0000,
        pow256(8) == 0x1_0000_0000_0000_0000,
{
    reveal_with_fuel(pow256, 9);
}

/// Larger digit strings carry at least as many values.
proof fn lemma_pow256_le(m: nat, n: nat)
    requires
        m <= n,
    ensures
        pow256(m) <= pow256(n),
    decreases n,
{
    if m < n && n > 0 {
        lemma_pow256_le(m, (n - 1) as nat);
        assert(pow256((n - 1) as nat) <= 256 * pow256((n - 1) as nat)) by (nonlinear_arith)
            requires
                pow256((n - 1) as nat) >= 0,
        ;
    }
}

/// Appends the 8 little-endian bytes of `x` to `out`.
fn push_le8(out: &mut Vec<u8>, x: u64)
    ensures
        final(out)@ == old(out)@ + spec_le_bytes(x as nat, 8),
{
    let ghost start = out@;
    let mut v: u64 = x;
    let mut k: usize = 0;
    while k < 8
        invariant
            k <= 8,
            out@.len() == start.len() + k,
            start + spec_le_bytes(x as nat, 8) =~= out@ + spec_le_bytes(v as nat, (8 - k) as nat),
        decreases 8 - k,
    {
        proof {
            lemma_le_bytes_len((v / 256) as nat, (8 - k - 1) as nat);
        }
        out.push((v % 256) as u8);
        v = v / 256;
        k = k + 1;
    }
    proof {
        lemma_le_bytes_len(x as nat, 8);
        assert(out@ =~= start + spec_le_bytes(x as nat, 8));
    }
}

/// Reads the 8-byte little-endian word stored at `pos`.
fn read_le8(buf: &Vec<u8>, pos: usize) -> (x: u64)
    requires
        pos + 8 <= buf@.len(),
    ensures
        x as nat == spec_from_le(buf@.subrange(pos as int, pos + 8)),
{
    let n = buf.len();
    let mut v: u64 = 0;
    let mut k: usize = 8;
    while k > 0
        invariant
            k <= 8,
            pos + 8 <= n,
            n == buf@.len(),
            v as nat == spec_from_le(buf@.subrange(pos + k, pos + 8)),
        decreases k,
    {
        let ghost before = buf@.subrange(pos + k, pos + 8);
        proof {
            lemma_from_le_bound(before);
            assert(pow256(before.len()) <= pow256(7)) by {
                lemma_pow256_le(before.len(), 7);
            }
            lemma_pow256_words();
        }
        k = k - 1;
        let b = buf[pos + k];
        proof {
            let after = buf@.subrange(pos + k, pos + 8);
            assert(after =~= seq![buf@[pos + k]] + before);
            assert(after.drop_first() =~= before);
        }
        v = v * 256 + b as u64;
    }
    proof {
        assert(buf@.subrange(pos as int, pos + 8) =~= buf@.subrange(pos + 0, pos + 8));
    }
    v
}

/// Copies `n` bytes out of `buf`, starting at `pos`.
fn read_bytes(buf: &Vec<u8>, pos: usize, n: usize) -> (out: Vec<u8>)
    requires
        pos + n <= buf@.len(),
    ensures
        out@ == buf@.subrange(pos as int, pos + n),
{
    let m = buf.len();
    let mut out: Vec<u8> = Vec::new();
    let mut k: usize = 0;
    while k < n
        invariant
            k <= n,
            pos + n <= m,
            m == buf@.len(),
            out@ =~= buf@.subrange(pos as int, pos + k),
        decreases n - k,
    {
        out.push(buf[pos + k]);
        k = k + 1;
        proof {
            assert(buf@.subrange(pos as int, pos + k) =~= buf@.subrange(pos as int, pos + k - 1)
                .push(buf@[pos + k - 1]));
        }
    }
    out
}

// ---------------------------------------------------------------------------
// The wire form
// ---------------------------------------------------------------------------

/// The byte string a shape encodes to: a one-byte tag, then the payload.
///
/// Tags: 0 null, 1 false, 2 true, 3 non-negative integer, 7 negative
/// integer (stored as `-1 - i`), 4 byte string, 5 list, 6 dictionary.
pub open spec fn spec_encode(v: KwargsView) -> Seq<u8>
    decreases v,
{
    match v {
        KwargsView::Null => seq![0u8],
        KwargsView::Bool(b) => if b {
            seq![2u8]
        } else {
            seq![1u8]
        },
        KwargsView::Int(i) => if i >= 0 {
            seq![3u8] + spec_le_bytes(i as nat, 8)
        } else {
            seq![7u8] + spec_le_bytes((-1 - i) as nat, 8)
        },
        KwargsView::Bytes(b) => seq![4u8] + spec_le_bytes(b.len(), 8) + b,
        KwargsView::List(items) => seq![5u8] + spec_le_bytes(items.len(), 8) + spec_encode_items(
            items,
        ),
        KwargsView::Dict(entries) => seq![6u8] + spec_le_bytes(entries.len(), 8)
            + spec_encode_entries(entries),
    }
}

/// The concatenated encodings of the items of a list.
pub open spec fn spec_encode_items(items: Seq<KwargsView>) -> Seq<u8>
    decreases items,
{
    if items.len() == 0 {
        Seq::empty()
    } else {
        spec_encode(items[0]) + spec_encode_items(items.drop_first())
    }
}

/// The concatenated encodings of the entries of a dictionary: each key as a
/// length-prefixed byte string, then the value.
pub open spec fn spec_encode_entries(entries: Seq<(Seq<u8>, KwargsView)>) -> Seq<u8>
    decreases entries,
{
    if entries.len() == 0 {
        Seq::empty()
    } else {
        spec_le_bytes(entries[0].0.len(), 8) + entries[0].0 + spec_encode(entries[0].1)
            + spec_encode_entries(entries.drop_first())
    }
}

/// The byte string `s` sits at position `p` of `buf`.
pub open spec fn starts_with_at(buf: Seq<u8>, p: int, s: Seq<u8>) -> bool {
    0 <= p && p + s.len() <= buf.len() && buf.subrange(p, p + s.len()) == s
}

/// The first byte of an encoding names the shape of the whole value, and
/// fixes the layout that follows it.
pub proof fn lemma_encode_shape(v: KwargsView)
    ensures
        spec_encode(v).len() >= 1,
        match v {
            KwargsView::Null => spec_encode(v) == seq![0u8],
            KwargsView::Bool(b) => spec_encode(v) == if b {
                seq![2u8]
            } else {
                seq![1u8]
            },
            KwargsView::Int(i) => spec_encode(v).len() == 9 && (if i >= 0 {
                spec_encode(v)[0] == 3 && spec_encode(v).subrange(1, 9) == spec_le_bytes(
                    i as nat,
                    8,
                )
            } else {
                spec_encode(v)[0] == 7 && spec_encode(v).subrange(1, 9) == spec_le_bytes(
                    (-1 - i) as nat,
                    8,
                )
            }),
            KwargsView::Bytes(b) => spec_encode(v)[0] == 4 && spec_encode(v).len() == 9 + b.len()
                && spec_encode(v).subrange(1, 9) == spec_le_bytes(b.len(), 8) && spec_encode(
                v,
            ).subrange(9, spec_encode(v).len() as int) == b,
            KwargsView::List(items) => spec_encode(v)[0] == 5 && spec_encode(v).len() == 9
                + spec_encode_items(items).len() && spec_encode(v).subrange(1, 9) == spec_le_bytes(
                items.len(),
                8,
            ) && spec_encode(v).subrange(9, spec_encode(v).len() as int) == spec_encode_items(
                items,
            ),
            KwargsView::Dict(entries) => spec_encode(v)[0] == 6 && spec_encode(v).len() == 9
                + spec_encode_entries(entries).len() && spec_encode(v).subrange(1, 9)
                == spec_le_bytes(entries.len(), 8) && spec_encode(v).subrange(
                9,
                spec_encode(v).len() as int,
            ) == spec_encode_entries(entries),
        },
{
    match v {
        KwargsView::Null => {},
        KwargsView::Bool(_) => {},
        KwargsView::Int(i) => {
            if i >= 0 {
                lemma_le_bytes_len(i as nat, 8);
                assert(spec_encode(v).subrange(1, 9) =~= spec_le_bytes(i as nat, 8));
            } else {
                lemma_le_bytes_len((-1 - i) as nat, 8);
                assert(spec_encode(v).subrange(1, 9) =~= spec_le_bytes((-1 - i) as nat, 8));
            }
        },
        KwargsView::Bytes(b) => {
            lemma_le_bytes_len(b.len(), 8);
            assert(spec_encode(v).subrange(1, 9) =~= spec_le_bytes(b.len(), 8));
            assert(spec_encode(v).subrange(9, spec_encode(v).len() as int) =~= b);
        },
        KwargsView::List(items) => {
            lemma_le_bytes_len(items.len(), 8);
            assert(spec_encode(v).subrange(1, 9) =~= spec_le_bytes(items.len(), 8));
            assert(spec_encode(v).subrange(9, spec_encode(v).len() as int) =~= spec_encode_items(
                items,
            ));
        },
        KwargsView::Dict(entries) => {
            lemma_le_bytes_len(entries.len(), 8);
            assert(spec_encode(v).subrange(1, 9) =~= spec_le_bytes(entries.len(), 8));
            assert(spec_encode(v).subrange(9, spec_encode(v).len() as int) =~= spec_encode_entries(
                entries,
            ));
        },
    }
}

/// Appending one item to a list appends its encoding.
proof fn lemma_encode_items_push(items: Seq<KwargsView>, x: KwargsView)
    ensures
        spec_encode_items(items.push(x)) == spec_encode_items(items) + spec_encode(x),
    decreases items,
{
    let p = items.push(x);
    if items.len() == 0 {
        assert(p[0] == x);
        assert(p.drop_first() =~= Seq::<KwargsView>::empty());
        assert(spec_encode_items(p) == spec_encode(x) + spec_encode_items(
            Seq::<KwargsView>::empty(),
        ));
        assert(spec_encode_items(p) =~= spec_encode_items(items) + spec_encode(x));
    } else {
        lemma_encode_items_push(items.drop_first(), x);
        assert(p[0] == items[0]);
        assert(p.drop_first() =~= items.drop_first().push(x));
        assert(spec_encode_items(p) == spec_encode(items[0]) + spec_encode_items(
            items.drop_first().push(x),
        ));
        assert(spec_encode_items(items) == spec_encode(items[0]) + spec_encode_items(
            items.drop_first(),
        ));
        assert(spec_encode_items(p) =~= spec_encode_items(items) + spec_encode(x));
    }
}

/// Appending one entry to a dictionary appends its encoding.
proof fn lemma_encode_entries_push(entries: Seq<(Seq<u8>, KwargsView)>, e: (Seq<u8>, KwargsView))
    ensures
        spec_encode_entries(entries.push(e)) == spec_encode_entries(entries) + spec_le_bytes(
            e.0.len(),
            8,
        ) + e.0 + spec_encode(e.1),
    decreases entries,
{
    let p = entries.push(e);
    if entries.len() == 0 {
        assert(p[0] == e);
        assert(p.drop_first() =~= Seq::<(Seq<u8>, KwargsView)>::empty());
        assert(spec_encode_entries(p) == spec_le_bytes(e.0.len(), 8) + e.0 + spec_encode(e.1)
            + spec_encode_entries(Seq::<(Seq<u8>, KwargsView)>::empty()));
        assert(spec_encode_entries(p) =~= spec_encode_entries(entries) + spec_le_bytes(
            e.0.len(),
            8,
        ) + e.0 + spec_encode(e.1));
    } else {
        lemma_encode_entries_push(entries.drop_first(), e);
        assert(p[0] == entries[0]);
        assert(p.drop_first() =~= entries.drop_first().push(e));
        assert(spec_encode_entries(p) == spec_le_bytes(entries[0].0.len(), 8) + entries[0].0
            + spec_encode(entries[0].1) + spec_encode_entries(entries.drop_first().push(e)));
        assert(spec_encode_entries(entries) == spec_le_bytes(entries[0].0.len(), 8) + entries[0].0
            + spec_encode(entries[0].1) + spec_encode_entries(entries.drop_first()));
        assert(spec_encode_entries(p) =~= spec_encode_entries(entries) + spec_le_bytes(
            e.0.len(),
            8,
        ) + e.0 + spec_encode(e.1));
    }
}

/// The tail of a list encoding starts with the encoding of the next item.
proof fn lemma_encode_items_skip(items: Seq<KwargsView>, k: int)
    requires
        0 <= k < items.len(),
    ensures
        spec_encode_items(items.skip(k)) == spec_encode(items[k]) + spec_encode_items(
            items.skip(k + 1),
        ),
{
    assert(items.skip(k).len() > 0);
    assert(items.skip(k)[0] == items[k]);
    assert(items.skip(k).drop_first() =~= items.skip(k + 1));
}

/// The tail of a dictionary encoding starts with the encoding of the next
/// entry.
proof fn lemma_encode_entries_skip(entries: Seq<(Seq<u8>, KwargsView)>, k: int)
    requires
        0 <= k < entries.len(),
    ensures
        spec_encode_entries(entries.skip(k)) == spec_le_bytes(entries[k].0.len(), 8)
            + entries[k].0 + spec_encode(entries[k].1) + spec_encode_entries(entries.skip(k + 1)),
{
    assert(entries.skip(k).len() > 0);
    assert(entries.skip(k)[0] == entries[k]);
    assert(entries.skip(k).drop_first() =~= entries.skip(k + 1));
}

/// Encoding a concatenation of lists concatenates the encodings.
proof fn lemma_encode_items_concat(a: Seq<KwargsView>, b: Seq<KwargsView>)
    ensures
        spec_encode_items(a + b) == spec_encode_items(a) + spec_encode_items(b),
    decreases a,
{
    if a.len() == 0 {
        assert(a + b =~= b);
        assert(spec_encode_items(a + b) =~= spec_encode_items(a) + spec_encode_items(b));
    } else {
        lemma_encode_items_concat(a.drop_first(), b);
        assert((a + b)[0] == a[0]);
        assert((a + b).drop_first() =~= a.drop_first() + b);
        assert(spec_encode_items(a + b) == spec_encode(a[0]) + spec_encode_items(
            a.drop_first() + b,
        ));
        assert(spec_encode_items(a) == spec_encode(a[0]) + spec_encode_items(a.drop_first()));
        assert(spec_encode_items(a + b) =~= spec_encode_items(a) + spec_encode_items(b));
    }
}

/// Encoding a concatenation of dictionaries concatenates the encodings.
proof fn lemma_encode_entries_concat(a: Seq<(Seq<u8>, KwargsView)>, b: Seq<(Seq<u8>, KwargsView)>)
    ensures
        spec_encode_entries(a + b) == spec_encode_entries(a) + spec_encode_entries(b),
    decreases a,
{
    if a.len() == 0 {
        assert(a + b =~= b);
        assert(spec_encode_entries(a + b) =~= spec_encode_entries(a) + spec_encode_entries(b));
    } else {
        lemma_encode_entries_concat(a.drop_first(), b);
        assert((a + b)[0] == a[0]);
        assert((a + b).drop_first() =~= a.drop_first() + b);
        assert(spec_encode_entries(a + b) == spec_le_bytes(a[0].0.len(), 8) + a[0].0 + spec_encode(
            a[0].1,
        ) + spec_encode_entries(a.drop_first() + b));
        assert(spec_encode_entries(a) == spec_le_bytes(a[0].0.len(), 8) + a[0].0 + spec_encode(
            a[0].1,
        ) + spec_encode_entries(a.drop_first()));
        assert(spec_encode_entries(a + b) =~= spec_encode_entries(a) + spec_encode_entries(b));
    }
}

/// Every encoded item takes at least one byte.
proof fn lemma_encode_items_min_len(items: Seq<KwargsView>)
    ensures
        spec_encode_items(items).len() >= items.len(),
    decreases items,
{
    if items.len() > 0 {
        lemma_encode_shape(items[0]);
        lemma_encode_items_min_len(items.drop_first());
    }
}

/// Every encoded entry takes at least one byte.
proof fn lemma_encode_entries_min_len(entries: Seq<(Seq<u8>, KwargsView)>)
    ensures
        spec_encode_entries(entries).len() >= entries.len(),
    decreases entries,
{
    if entries.len() > 0 {
        lemma_encode_entries_min_len(entries.drop_first());
    }
}

// ---------------------------------------------------------------------------
// Encoder
// ---------------------------------------------------------------------------

/// Appends the encoding of `v` to `out`.
#[verifier::loop_isolation(false)]
#[verifier::rlimit(60)]
fn encode_into(v: &KwargsValue, out: &mut Vec<u8>)
    ensures
        final(out)@ == old(out)@ + spec_encode(v.dview()),
    decreases *v,
{
    let ghost start = out@;
    match v {
        KwargsValue::Null => {
            out.push(0u8);
            proof {
                assert(out@ =~= start + spec_encode(v.dview()));
            }
        },
        KwargsValue::Bool(b) => {
            out.push(if *b {
                2u8
            } else {
                1u8
            });
            proof {
                assert(out@ =~= start + spec_encode(v.dview()));
            }
        },
        KwargsValue::Int(i) => {
            if *i >= 0 {
                out.push(3u8);
                push_le8(out, *i as u64);
            } else {
                out.push(7u8);
                let m: i64 = -1 - *i;
                push_le8(out, m as u64);
            }
            proof {
                assert(out@ =~= start + spec_encode(v.dview()));
            }
        },
        KwargsValue::Bytes(b) => {
            out.push(4u8);
            push_le8(out, b.len() as u64);
            let mut k: usize = 0;
            while k < b.len()
                invariant
                    k <= b@.len(),
                    out@ =~= start + seq![4u8] + spec_le_bytes(b@.len(), 8) + b@.take(k as int),
                decreases b@.len() - k,
            {
                out.push(b[k]);
                k = k + 1;
                proof {
                    assert(b@.take(k as int) =~= b@.take(k - 1).push(b@[k - 1]));
                }
            }
            proof {
                assert(b@.take(b@.len() as int) =~= b@);
                assert(out@ =~= start + spec_encode(v.dview()));
            }
        },
        KwargsValue::List(items) => {
            out.push(5u8);
            push_le8(out, items.len() as u64);
            proof {
                lemma_dview_items(items@);
            }
            let mut k: usize = 0;
            while k < items.len()
                invariant
                    k <= items@.len(),
                    out@ =~= start + seq![5u8] + spec_le_bytes(items@.len(), 8)
                        + spec_encode_items(dview_items(items@).take(k as int)),
                decreases items@.len() - k,
            {
                encode_into(&items[k], out);
                k = k + 1;
                proof {
                    assert(dview_items(items@).take(k as int) =~= dview_items(items@).take(
                        k - 1,
                    ).push(items@[k - 1].dview()));
                    lemma_encode_items_push(
                        dview_items(items@).take(k - 1),
                        items@[k - 1].dview(),
                    );
                }
            }
            proof {
                assert(dview_items(items@).take(items@.len() as int) =~= dview_items(items@));
                assert(out@ =~= start + spec_encode(v.dview()));
            }
        },
        KwargsValue::Dict(entries) => {
            out.push(6u8);
            push_le8(out, entries.len() as u64);
            proof {
                lemma_dview_entries(entries@);
            }
            let mut k: usize = 0;
            while k < entries.len()
                invariant
                    k <= entries@.len(),
                    out@ =~= start + seq![6u8] + spec_le_bytes(entries@.len(), 8)
                        + spec_encode_entries(dview_entries(entries@).take(k as int)),
                decreases entries@.len() - k,
            {
                let entry = &entries[k];
                push_le8(out, entry.0.len() as u64);
                let mut j: usize = 0;
                let ghost mid = out@;
                while j < entry.0.len()
                    invariant
                        j <= entry.0@.len(),
                        out@ =~= mid + entry.0@.take(j as int),
                    decreases entry.0@.len() - j,
                {
                    out.push(entry.0[j]);
                    j = j + 1;
                    proof {
                        assert(entry.0@.take(j as int) =~= entry.0@.take(j - 1).push(
                            entry.0@[j - 1],
                        ));
                    }
                }
                proof {
                    assert(entry.0@.take(entry.0@.len() as int) =~= entry.0@);
                }
                encode_into(&entry.1, out);
                k = k + 1;
                proof {
                    assert(dview_entries(entries@).take(k as int) =~= dview_entries(entries@).take(
                        k - 1,
                    ).push((entries@[k - 1].0@, entries@[k - 1].1.dview())));
                    lemma_encode_entries_push(
                        dview_entries(entries@).take(k - 1),
                        (entries@[k - 1].0@, entries@[k - 1].1.dview()),
                    );
                    assert(out@ =~= start + seq![6u8] + spec_le_bytes(entries@.len(), 8)
                        + spec_encode_entries(dview_entries(entries@).take(k as int)));
                }
            }
            proof {
                assert(dview_entries(entries@).take(entries@.len() as int) =~= dview_entries(
                    entries@,
                ));
                assert(out@ =~= start + spec_encode(v.dview()));
            }
        },
    }
}

// ---------------------------------------------------------------------------
// Decoder
// ---------------------------------------------------------------------------

/// Decodes the one value whose encoding sits at `pos`, returning it together
/// with the position just past it.
///
/// The contract carries the round-trip law: the decoder is sound (whatever
/// it returns re-encodes to exactly the bytes it consumed) and complete (for
/// every well-formed shape whose encoding sits at `pos`, it returns the value
/// of that shape).
#[verifier::loop_isolation(false)]
#[verifier::rlimit(60)]
fn decode_at(buf: &Vec<u8>, pos: usize) -> (r: Option<(KwargsValue, usize)>)
    requires
        pos <= buf@.len(),
    ensures
        r matches Some(p) ==> pos < p.1 <= buf@.len() && buf@.subrange(pos as int, p.1 as int)
            == spec_encode(p.0.dview()),
        forall|dv: KwargsView| #![trigger spec_encode(dv)]
            dv.wf() && starts_with_at(buf@, pos as int, spec_encode(dv)) ==> (r matches Some(p)
                && p.0.dview() == dv && p.1 == pos + spec_encode(dv).len()),
    decreases buf@.len() - pos, 1int,
{
    let len = buf.len();
    let ghost gp = pos as int;
    if len - pos < 1 {
        proof {
            assert forall|dv: KwargsView| #![trigger spec_encode(dv)]
                dv.wf() && starts_with_at(buf@, gp, spec_encode(dv)) implies false by {
                lemma_encode_shape(dv);
            }
        }
        return None;
    }
    let tag = buf[pos];
    if tag == 0 {
        proof {
            assert(buf@.subrange(gp, gp + 1) =~= seq![0u8]);
            assert forall|dv: KwargsView| #![trigger spec_encode(dv)]
                dv.wf() && starts_with_at(buf@, gp, spec_encode(dv)) implies (
            KwargsValue::Null.dview() == dv && 1 == spec_encode(dv).len()) by {
                lemma_encode_shape(dv);
                assert(spec_encode(dv)[0] == buf@[gp]);
            }
        }
        Some((KwargsValue::Null, pos + 1))
    } else if tag == 1 || tag == 2 {
        let w = KwargsValue::Bool(tag == 2);
        proof {
            assert(buf@.subrange(gp, gp + 1) =~= seq![tag]);
            assert forall|dv: KwargsView| #![trigger spec_encode(dv)]
                dv.wf() && starts_with_at(buf@, gp, spec_encode(dv)) implies (w.dview() == dv && 1
                == spec_encode(dv).len()) by {
                lemma_encode_shape(dv);
                assert(spec_encode(dv)[0] == buf@[gp]);
            }
        }
        Some((w, pos + 1))
    } else if tag == 3 || tag == 7 {
        if len - pos < 9 {
            proof {
                assert forall|dv: KwargsView| #![trigger spec_encode(dv)]
                    dv.wf() && starts_with_at(buf@, gp, spec_encode(dv)) implies false by {
                    lemma_encode_shape(dv);
                    assert(spec_encode(dv)[0] == buf@[gp]);
                }
            }
            return None;
        }
        let u = read_le8(buf, pos + 1);
        proof {
            lemma_le_from_le(buf@.subrange(gp + 1, gp + 9));
            lemma_pow256_words();
        }
        if u <= 0x7fff_ffff_ffff_ffffu64 {
            let w = if tag == 3 {
                KwargsValue::Int(u as i64)
            } else {
                KwargsValue::Int(-1 - (u as i64))
            };
            proof {
                assert(spec_le_bytes(u as nat, 8) == buf@.subrange(gp + 1, gp + 9));
                assert(buf@.subrange(gp, gp + 9) =~= seq![buf@[gp]] + buf@.subrange(gp + 1, gp + 9));
                assert(buf@.subrange(gp, gp + 9) == spec_encode(w.dview()));
                assert forall|dv: KwargsView| #![trigger spec_encode(dv)]
                    dv.wf() && starts_with_at(buf@, gp, spec_encode(dv)) implies (w.dview() == dv
                    && 9 == spec_encode(dv).len()) by {
                    lemma_encode_shape(dv);
                    assert(spec_encode(dv)[0] == buf@[gp]);
                    if let KwargsView::Int(i) = dv {
                        assert(buf@.subrange(gp + 1, gp + 9) =~= buf@.subrange(gp, gp + 9)
                            .subrange(1, 9));
                        if i >= 0 {
                            lemma_le_round_trip(i as nat, 8);
                        } else {
                            lemma_le_round_trip((-1 - i) as nat, 8);
                        }
                    }
                }
            }
            Some((w, pos + 9))
        } else {
            proof {
                assert forall|dv: KwargsView| #![trigger spec_encode(dv)]
                    dv.wf() && starts_with_at(buf@, gp, spec_encode(dv)) implies false by {
                    lemma_encode_shape(dv);
                    assert(spec_encode(dv)[0] == buf@[gp]);
                    if let KwargsView::Int(i) = dv {
                        assert(buf@.subrange(gp + 1, gp + 9) =~= buf@.subrange(gp, gp + 9)
                            .subrange(1, 9));
                        if i >= 0 {
                            lemma_le_round_trip(i as nat, 8);
                        } else {
                            lemma_le_round_trip((-1 - i) as nat, 8);
                        }
                    }
                }
            }
            None
        }
    } else if tag == 4 {
        if len - pos < 9 {
            proof {
                assert forall|dv: KwargsView| #![trigger spec_encode(dv)]
                    dv.wf() && starts_with_at(buf@, gp, spec_encode(dv)) implies false by {
                    lemma_encode_shape(dv);
                    assert(spec_encode(dv)[0] == buf@[gp]);
                }
            }
            return None;
        }
        let l = read_le8(buf, pos + 1);
        let rem = len - pos - 9;
        proof {
            lemma_le_from_le(buf@.subrange(gp + 1, gp + 9));
            lemma_pow256_words();
        }
        if l <= rem as u64 {
            let nb = l as usize;
            let data = read_bytes(buf, pos + 9, nb);
            let w = KwargsValue::Bytes(data);
            proof {
                assert(spec_le_bytes(nb as nat, 8) == buf@.subrange(gp + 1, gp + 9));
                assert(buf@.subrange(gp, gp + 9 + nb) =~= seq![buf@[gp]] + buf@.subrange(
                    gp + 1,
                    gp + 9,
                ) + buf@.subrange(gp + 9, gp + 9 + nb));
                assert(buf@.subrange(gp, gp + 9 + nb) == spec_encode(w.dview()));
                assert forall|dv: KwargsView| #![trigger spec_encode(dv)]
                    dv.wf() && starts_with_at(buf@, gp, spec_encode(dv)) implies (w.dview() == dv
                    && 9 + nb == spec_encode(dv).len()) by {
                    lemma_encode_shape(dv);
                    assert(spec_encode(dv)[0] == buf@[gp]);
                    if let KwargsView::Bytes(s) = dv {
                        let e = spec_encode(dv).len() as int;
                        assert(buf@.subrange(gp + 1, gp + 9) =~= buf@.subrange(gp, gp + e)
                            .subrange(1, 9));
                        lemma_le_round_trip(s.len(), 8);
                        assert(s.len() == l as nat);
                        assert(s =~= buf@.subrange(gp, gp + e).subrange(9, e));
                        assert(s =~= buf@.subrange(gp + 9, gp + 9 + nb));
                    }
                }
            }
            Some((w, pos + 9 + nb))
        } else {
            proof {
                assert forall|dv: KwargsView| #![trigger spec_encode(dv)]
                    dv.wf() && starts_with_at(buf@, gp, spec_encode(dv)) implies false by {
                    lemma_encode_shape(dv);
                    assert(spec_encode(dv)[0] == buf@[gp]);
                    if let KwargsView::Bytes(s) = dv {
                        let e = spec_encode(dv).len() as int;
                        assert(buf@.subrange(gp + 1, gp + 9) =~= buf@.subrange(gp, gp + e)
                            .subrange(1, 9));
                        lemma_le_round_trip(s.len(), 8);
                    }
                }
            }
            None
        }
    } else if tag == 5 {
        decode_list_at(buf, pos)
    } else if tag == 6 {
        decode_dict_at(buf, pos)
    } else {
        proof {
            assert forall|dv: KwargsView| #![trigger spec_encode(dv)]
                dv.wf() && starts_with_at(buf@, gp, spec_encode(dv)) implies false by {
                lemma_encode_shape(dv);
                assert(spec_encode(dv)[0] == buf@[gp]);
            }
        }
        None
    }
}

/// Decodes the list whose encoding sits at `pos`.
#[verifier::loop_isolation(false)]
#[verifier::rlimit(60)]
fn decode_list_at(buf: &Vec<u8>, pos: usize) -> (r: Option<(KwargsValue, usize)>)
    requires
        pos < buf@.len(),
        buf@[pos as int] == 5,
    ensures
        r matches Some(p) ==> pos < p.1 <= buf@.len() && buf@.subrange(pos as int, p.1 as int)
            == spec_encode(p.0.dview()),
        forall|dv: KwargsView| #![trigger spec_encode(dv)]
            dv.wf() && starts_with_at(buf@, pos as int, spec_encode(dv)) ==> (r matches Some(p)
                && p.0.dview() == dv && p.1 == pos + spec_encode(dv).len()),
    decreases buf@.len() - pos, 0int,
{
    let len = buf.len();
    let ghost gp = pos as int;
    if len - pos < 9 {
        proof {
            assert forall|dv: KwargsView| #![trigger spec_encode(dv)]
                dv.wf() && starts_with_at(buf@, gp, spec_encode(dv)) implies false by {
                lemma_encode_shape(dv);
                assert(spec_encode(dv)[0] == buf@[gp]);
            }
        }
        return None;
    }
    let count = read_le8(buf, pos + 1);
    proof {
        lemma_le_from_le(buf@.subrange(gp + 1, gp + 9));
        lemma_pow256_words();
        assert(buf@.len() < pow256(8));
    }
    let mut items: Vec<KwargsValue> = Vec::new();
    let mut cur: usize = pos + 9;
    let mut k: u64 = 0;
    while k < count
        invariant
            pos + 9 <= cur <= len,
            k <= count,
            items@.len() == k as int,
            buf@.subrange(gp + 9, cur as int) == spec_encode_items(dview_items(items@)),
            forall|vs: Seq<KwargsView>| #![trigger spec_encode_items(vs)]
                (vs.len() == count as int && wf_all_items(vs) && starts_with_at(
                    buf@,
                    gp + 9,
                    spec_encode_items(vs),
                )) ==> dview_items(items@) == vs.take(k as int),
        decreases count - k,
    {
        let ghost old_items = items@;
        let ghost gcur = cur as int;
        match decode_at(buf, cur) {
            Some((w, end)) => {
                items.push(w);
                proof {
                    lemma_dview_items(old_items);
                    lemma_dview_items(items@);
                    assert(dview_items(items@) =~= dview_items(old_items).push(w.dview()));
                    lemma_encode_items_push(dview_items(old_items), w.dview());
                    assert(buf@.subrange(gp + 9, end as int) =~= buf@.subrange(gp + 9, gcur)
                        + buf@.subrange(gcur, end as int));
                    assert forall|vs: Seq<KwargsView>| #![trigger spec_encode_items(vs)]
                        (vs.len() == count as int && wf_all_items(vs) && starts_with_at(
                            buf@,
                            gp + 9,
                            spec_encode_items(vs),
                        )) implies dview_items(items@) == vs.take(k as int + 1) by {
                        assert(dview_items(old_items) == vs.take(k as int));
                        assert(vs =~= vs.take(k as int) + vs.skip(k as int));
                        lemma_encode_items_concat(vs.take(k as int), vs.skip(k as int));
                        assert(spec_encode_items(vs.take(k as int)).len() == gcur - (gp + 9));
                        lemma_encode_items_skip(vs, k as int);
                        let enc_rest = spec_encode_items(vs.skip(k as int));
                        let off = gcur - (gp + 9);
                        let tot = spec_encode_items(vs).len() as int;
                        assert(buf@.subrange(gcur, gcur + enc_rest.len()) =~= buf@.subrange(
                            gp + 9,
                            gp + 9 + tot,
                        ).subrange(off, off + enc_rest.len()));
                        assert(spec_encode_items(vs).subrange(off, off + enc_rest.len())
                            =~= enc_rest);
                        assert(buf@.subrange(gcur, gcur + enc_rest.len()) == enc_rest);
                        lemma_encode_shape(vs[k as int]);
                        let vlen = spec_encode(vs[k as int]).len() as int;
                        assert(buf@.subrange(gcur, gcur + vlen) =~= buf@.subrange(
                            gcur,
                            gcur + enc_rest.len(),
                        ).subrange(0, vlen));
                        assert(buf@.subrange(gcur, gcur + vlen) == enc_rest.subrange(0, vlen));
                        assert(enc_rest.subrange(0, vlen) =~= spec_encode(vs[k as int]));
                        assert(starts_with_at(buf@, gcur, spec_encode(vs[k as int])));
                        lemma_wf_all_items_index(vs, k as int);
                        assert(vs[k as int].wf());
                        assert(w.dview() == vs[k as int]);
                        assert(dview_items(items@) =~= vs.take(k as int + 1));
                    }
                }
                cur = end;
                k = k + 1;
            },
            None => {
                proof {
                    assert forall|dv: KwargsView| #![trigger spec_encode(dv)]
                        dv.wf() && starts_with_at(buf@, gp, spec_encode(dv)) implies false by {
                        let vs = list_hypothesis_at_item(buf@, gp, dv, count as int, k as int,
                            gcur, dview_items(old_items));
                    }
                }
                return None;
            },
        }
    }
    let w = KwargsValue::List(items);
    proof {
        lemma_dview_items(items@);
        assert(spec_le_bytes(count as nat, 8) == buf@.subrange(gp + 1, gp + 9));
        assert(buf@.subrange(gp, cur as int) =~= seq![buf@[gp]] + buf@.subrange(gp + 1, gp + 9)
            + buf@.subrange(gp + 9, cur as int));
        assert(buf@.subrange(gp, cur as int) == spec_encode(w.dview()));
        assert forall|dv: KwargsView| #![trigger spec_encode(dv)]
            dv.wf() && starts_with_at(buf@, gp, spec_encode(dv)) implies (w.dview() == dv && cur
            == gp + spec_encode(dv).len()) by {
            lemma_encode_shape(dv);
            assert(spec_encode(dv)[0] == buf@[gp]);
            if let KwargsView::List(vs) = dv {
                let e = spec_encode(dv).len() as int;
                assert(buf@.subrange(gp + 1, gp + 9) =~= buf@.subrange(gp, gp + e).subrange(1, 9));
                lemma_encode_items_min_len(vs);
                lemma_le_round_trip(vs.len(), 8);
                assert(vs.len() == count as nat);
                assert(buf@.subrange(gp + 9, gp + e) =~= buf@.subrange(gp, gp + e).subrange(9, e));
                assert(starts_with_at(buf@, gp + 9, spec_encode_items(vs)));
                assert(wf_all_items(vs));
                assert(dview_items(items@) == vs.take(count as int));
                assert(vs.take(count as int) =~= vs);
                assert(w.dview() == dv);
            }
        }
    }
    Some((w, cur))
}

/// Decodes the dictionary whose encoding sits at `pos`.
#[verifier::loop_isolation(false)]
#[verifier::rlimit(100)]
fn decode_dict_at(buf: &Vec<u8>, pos: usize) -> (r: Option<(KwargsValue, usize)>)
    requires
        pos < buf@.len(),
        buf@[pos as int] == 6,
    ensures
        r matches Some(p) ==> pos < p.1 <= buf@.len() && buf@.subrange(pos as int, p.1 as int)
            == spec_encode(p.0.dview()),
        forall|dv: KwargsView| #![trigger spec_encode(dv)]
            dv.wf() && starts_with_at(buf@, pos as int, spec_encode(dv)) ==> (r matches Some(p)
                && p.0.dview() == dv && p.1 == pos + spec_encode(dv).len()),
    decreases buf@.len() - pos, 0int,
{
    let len = buf.len();
    let ghost gp = pos as int;
    if len - pos < 9 {
        proof {
            assert forall|dv: KwargsView| #![trigger spec_encode(dv)]
                dv.wf() && starts_with_at(buf@, gp, spec_encode(dv)) implies false by {
                lemma_encode_shape(dv);
                assert(spec_encode(dv)[0] == buf@[gp]);
            }
        }
        return None;
    }
    let count = read_le8(buf, pos + 1);
    proof {
        lemma_le_from_le(buf@.subrange(gp + 1, gp + 9));
        lemma_pow256_words();
        assert(buf@.len() < pow256(8));
    }
    let mut entries: Vec<(Vec<u8>, KwargsValue)> = Vec::new();
    let mut cur: usize = pos + 9;
    let mut k: u64 = 0;
    while k < count
        invariant
            pos + 9 <= cur <= len,
            k <= count,
            entries@.len() == k as int,
            buf@.subrange(gp + 9, cur as int) == spec_encode_entries(dview_entries(entries@)),
            forall|es: Seq<(Seq<u8>, KwargsView)>| #![trigger spec_encode_entries(es)]
                (es.len() == count as int && wf_all_entries(es) && starts_with_at(
                    buf@,
                    gp + 9,
                    spec_encode_entries(es),
                )) ==> dview_entries(entries@) == es.take(k as int),
        decreases count - k,
    {
        let ghost old_entries = entries@;
        let ghost gcur = cur as int;
        if len - cur < 8 {
            proof {
                assert forall|dv: KwargsView| #![trigger spec_encode(dv)]
                    dv.wf() && starts_with_at(buf@, gp, spec_encode(dv)) implies false by {
                    let es = dict_hypothesis_at_entry(buf@, gp, dv, count as int, k as int, gcur,
                        dview_entries(old_entries));
                }
            }
            return None;
        }
        let kl = read_le8(buf, cur);
        let remk = len - cur - 8;
        proof {
            lemma_le_from_le(buf@.subrange(gcur, gcur + 8));
        }
        if kl > remk as u64 {
            proof {
                assert forall|dv: KwargsView| #![trigger spec_encode(dv)]
                    dv.wf() && starts_with_at(buf@, gp, spec_encode(dv)) implies false by {
                    let es = dict_hypothesis_at_entry(buf@, gp, dv, count as int, k as int, gcur,
                        dview_entries(old_entries));
                    lemma_le_round_trip(es[k as int].0.len(), 8);
                    assert(kl as nat == es[k as int].0.len());
                }
            }
            return None;
        }
        let nk = kl as usize;
        let key = read_bytes(buf, cur + 8, nk);
        match decode_at(buf, cur + 8 + nk) {
            Some((w, end)) => {
                entries.push((key, w));
                proof {
                    lemma_dview_entries(old_entries);
                    lemma_dview_entries(entries@);
                    assert(dview_entries(entries@) =~= dview_entries(old_entries).push(
                        (key@, w.dview()),
                    ));
                    lemma_encode_entries_push(dview_entries(old_entries), (key@, w.dview()));
                    assert(spec_le_bytes(key@.len(), 8) == buf@.subrange(gcur, gcur + 8));
                    assert(buf@.subrange(gp + 9, end as int) =~= buf@.subrange(gp + 9, gcur)
                        + buf@.subrange(gcur, gcur + 8) + buf@.subrange(gcur + 8, gcur + 8 + nk)
                        + buf@.subrange(gcur + 8 + nk, end as int));
                    assert forall|es: Seq<(Seq<u8>, KwargsView)>|
                        #![trigger spec_encode_entries(es)]
                        (es.len() == count as int && wf_all_entries(es) && starts_with_at(
                            buf@,
                            gp + 9,
                            spec_encode_entries(es),
                        )) implies dview_entries(entries@) == es.take(k as int + 1) by {
                        let dv = KwargsView::Dict(es);
                        assert(starts_with_at(buf@, gp, spec_encode(dv))) by {
                            lemma_encode_shape(dv);
                            assert(buf@.subrange(gp, gp + spec_encode(dv).len()) =~= seq![
                                buf@[gp],
                            ] + buf@.subrange(gp + 1, gp + 9) + buf@.subrange(
                                gp + 9,
                                gp + 9 + spec_encode_entries(es).len(),
                            ));
                            lemma_le_round_trip(es.len(), 8);
                            lemma_le_from_le(buf@.subrange(gp + 1, gp + 9));
                            assert(spec_le_bytes(es.len(), 8) =~= buf@.subrange(gp + 1, gp + 9));
                        }
                        let es2 = dict_hypothesis_at_entry(buf@, gp, dv, count as int, k as int,
                            gcur, dview_entries(old_entries));
                        assert(es2 == es);
                        lemma_le_round_trip(es[k as int].0.len(), 8);
                        assert(kl as nat == es[k as int].0.len());
                        let klen = es[k as int].0.len() as int;
                        assert(key@ == es[k as int].0);
                        assert(w.dview() == es[k as int].1);
                        assert(dview_entries(entries@) =~= es.take(k as int + 1));
                    }
                }
                cur = end;
                k = k + 1;
            },
            None => {
                proof {
                    assert forall|dv: KwargsView| #![trigger spec_encode(dv)]
                        dv.wf() && starts_with_at(buf@, gp, spec_encode(dv)) implies false by {
                        let es = dict_hypothesis_at_entry(buf@, gp, dv, count as int, k as int,
                            gcur, dview_entries(old_entries));
                        lemma_le_round_trip(es[k as int].0.len(), 8);
                        assert(kl as nat == es[k as int].0.len());
                    }
                }
                return None;
            },
        }
    }
    let w = KwargsValue::Dict(entries);
    proof {
        lemma_dview_entries(entries@);
        assert(spec_le_bytes(count as nat, 8) == buf@.subrange(gp + 1, gp + 9));
        assert(buf@.subrange(gp, cur as int) =~= seq![buf@[gp]] + buf@.subrange(gp + 1, gp + 9)
            + buf@.subrange(gp + 9, cur as int));
        assert(buf@.subrange(gp, cur as int) == spec_encode(w.dview()));
        assert forall|dv: KwargsView| #![trigger spec_encode(dv)]
            dv.wf() && starts_with_at(buf@, gp, spec_encode(dv)) implies (w.dview() == dv && cur
            == gp + spec_encode(dv).len()) by {
            lemma_encode_shape(dv);
            assert(spec_encode(dv)[0] == buf@[gp]);
            if let KwargsView::Dict(es) = dv {
                let e = spec_encode(dv).len() as int;
                assert(buf@.subrange(gp + 1, gp + 9) =~= buf@.subrange(gp, gp + e).subrange(1, 9));
                lemma_encode_entries_min_len(es);
                lemma_le_round_trip(es.len(), 8);
                assert(es.len() == count as nat);
                assert(buf@.subrange(gp + 9, gp + e) =~= buf@.subrange(gp, gp + e).subrange(9, e));
                assert(starts_with_at(buf@, gp + 9, spec_encode_entries(es)));
                assert(wf_all_entries(es));
                assert(dview_entries(entries@) == es.take(count as int));
                assert(es.take(count as int) =~= es);
                assert(w.dview() == dv);
            }
        }
    }
    Some((w, cur))
}

/// In the middle of decoding a list, a candidate shape for the whole value
/// must be a list whose first `k` items are the ones already decoded;
/// returns that list's items, with the next item's encoding sitting at
/// `gcur`.
proof fn list_hypothesis_at_item(
    buf: Seq<u8>,
    gp: int,
    dv: KwargsView,
    count: int,
    k: int,
    gcur: int,
    done: Seq<KwargsView>,
) -> (vs: Seq<KwargsView>)
    requires
        dv.wf(),
        starts_with_at(buf, gp, spec_encode(dv)),
        buf.len() < pow256(8),
        buf[gp] == 5,
        0 <= k < count,
        spec_from_le(buf.subrange(gp + 1, gp + 9)) == count,
        count < pow256(8),
        gp + 9 <= gcur <= buf.len(),
        buf.subrange(gp + 9, gcur) == spec_encode_items(done),
        forall|vs2: Seq<KwargsView>| #![trigger spec_encode_items(vs2)]
            (vs2.len() == count && wf_all_items(vs2) && starts_with_at(
                buf,
                gp + 9,
                spec_encode_items(vs2),
            )) ==> done == vs2.take(k),
    ensures
        dv == KwargsView::List(vs),
        vs.len() == count,
        wf_all_items(vs),
        done == vs.take(k),
        vs[k].wf(),
        starts_with_at(buf, gcur, spec_encode(vs[k])),
        buf.subrange(gcur, gcur + spec_encode_items(vs.skip(k)).len()) == spec_encode_items(
            vs.skip(k),
        ),
{
    lemma_encode_shape(dv);
    assert(spec_encode(dv)[0] == buf[gp]);
    let vs = dv->List_0;
    let e = spec_encode(dv).len() as int;
    assert(buf.subrange(gp + 1, gp + 9) =~= buf.subrange(gp, gp + e).subrange(1, 9));
    lemma_encode_items_min_len(vs);
    lemma_le_round_trip(vs.len(), 8);
    assert(vs.len() == count);
    assert(buf.subrange(gp + 9, gp + e) =~= buf.subrange(gp, gp + e).subrange(9, e));
    assert(starts_with_at(buf, gp + 9, spec_encode_items(vs)));
    assert(wf_all_items(vs));
    lemma_wf_all_items_index(vs, k);
    assert(done == vs.take(k));
    assert(vs =~= vs.take(k) + vs.skip(k));
    lemma_encode_items_concat(vs.take(k), vs.skip(k));
    assert(spec_encode_items(vs.take(k)).len() == gcur - (gp + 9));
    let enc_rest = spec_encode_items(vs.skip(k));
    let off = gcur - (gp + 9);
    assert(buf.subrange(gcur, gcur + enc_rest.len()) =~= buf.subrange(gp + 9, gp + e).subrange(
        off,
        off + enc_rest.len(),
    ));
    assert(spec_encode_items(vs).subrange(off, off + enc_rest.len()) =~= enc_rest);
    assert(buf.subrange(gcur, gcur + enc_rest.len()) == enc_rest);
    lemma_encode_items_skip(vs, k);
    lemma_encode_shape(vs[k]);
    let vlen = spec_encode(vs[k]).len() as int;
    assert(buf.subrange(gcur, gcur + vlen) =~= buf.subrange(gcur, gcur + enc_rest.len()).subrange(
        0,
        vlen,
    ));
    assert(buf.subrange(gcur, gcur + vlen) == enc_rest.subrange(0, vlen));
    assert(enc_rest.subrange(0, vlen) =~= spec_encode(vs[k]));
    vs
}

/// In the middle of decoding a dictionary, a candidate shape for the whole
/// value must be a dictionary whose first `k` entries are the ones already
/// decoded; returns that dictionary's entries, whose `k`-th entry sits
/// encoded at `gcur`: its key length word, its key bytes, then its value.
proof fn dict_hypothesis_at_entry(
    buf: Seq<u8>,
    gp: int,
    dv: KwargsView,
    count: int,
    k: int,
    gcur: int,
    done: Seq<(Seq<u8>, KwargsView)>,
) -> (es: Seq<(Seq<u8>, KwargsView)>)
    requires
        dv.wf(),
        starts_with_at(buf, gp, spec_encode(dv)),
        buf.len() < pow256(8),
        buf[gp] == 6,
        0 <= k < count,
        spec_from_le(buf.subrange(gp + 1, gp + 9)) == count,
        count < pow256(8),
        gp + 9 <= gcur <= buf.len(),
        buf.subrange(gp + 9, gcur) == spec_encode_entries(done),
        forall|es2: Seq<(Seq<u8>, KwargsView)>| #![trigger spec_encode_entries(es2)]
            (es2.len() == count && wf_all_entries(es2) && starts_with_at(
                buf,
                gp + 9,
                spec_encode_entries(es2),
            )) ==> done == es2.take(k),
    ensures
        dv == KwargsView::Dict(es),
        es.len() == count,
        wf_all_entries(es),
        es[k].1.wf(),
        done == es.take(k),
        es[k].0.len() < pow256(8),
        gcur + 8 + es[k].0.len() + spec_encode(es[k].1).len() <= buf.len(),
        buf.subrange(gcur, gcur + 8) == spec_le_bytes(es[k].0.len(), 8),
        buf.subrange(gcur + 8, gcur + 8 + es[k].0.len()) == es[k].0,
        starts_with_at(buf, gcur + 8 + es[k].0.len(), spec_encode(es[k].1)),
{
    lemma_encode_shape(dv);
    assert(spec_encode(dv)[0] == buf[gp]);
    let es = dv->Dict_0;
    let e = spec_encode(dv).len() as int;
    assert(buf.subrange(gp + 1, gp + 9) =~= buf.subrange(gp, gp + e).subrange(1, 9));
    lemma_encode_entries_min_len(es);
    lemma_le_round_trip(es.len(), 8);
    assert(es.len() == count);
    assert(buf.subrange(gp + 9, gp + e) =~= buf.subrange(gp, gp + e).subrange(9, e));
    assert(starts_with_at(buf, gp + 9, spec_encode_entries(es)));
    assert(wf_all_entries(es));
    lemma_wf_all_entries_index(es, k);
    assert(done == es.take(k));
    assert(es =~= es.take(k) + es.skip(k));
    lemma_encode_entries_concat(es.take(k), es.skip(k));
    assert(spec_encode_entries(es.take(k)).len() == gcur - (gp + 9));
    let enc_rest = spec_encode_entries(es.skip(k));
    let off = gcur - (gp + 9);
    assert(buf.subrange(gcur, gcur + enc_rest.len()) =~= buf.subrange(gp + 9, gp + e).subrange(
        off,
        off + enc_rest.len(),
    ));
    assert(spec_encode_entries(es).subrange(off, off + enc_rest.len()) =~= enc_rest);
    assert(buf.subrange(gcur, gcur + enc_rest.len()) == enc_rest);
    lemma_encode_entries_skip(es, k);
    let klen = es[k].0.len() as int;
    lemma_le_bytes_len(es[k].0.len(), 8);
    lemma_encode_shape(es[k].1);
    let vlen = spec_encode(es[k].1).len() as int;
    assert(gcur + enc_rest.len() <= buf.len());
    assert(enc_rest.len() >= 8 + klen + vlen);
    assert(buf.subrange(gcur, gcur + 8) =~= buf.subrange(gcur, gcur + enc_rest.len()).subrange(
        0,
        8,
    ));
    assert(enc_rest.subrange(0, 8) =~= spec_le_bytes(es[k].0.len(), 8));
    assert(buf.subrange(gcur, gcur + 8) == spec_le_bytes(es[k].0.len(), 8));
    assert(buf.subrange(gcur + 8, gcur + 8 + klen) =~= buf.subrange(
        gcur,
        gcur + enc_rest.len(),
    ).subrange(8, 8 + klen));
    assert(enc_rest.subrange(8, 8 + klen) =~= es[k].0);
    assert(buf.subrange(gcur + 8, gcur + 8 + klen) == es[k].0);
    assert(buf.subrange(gcur + 8 + klen, gcur + 8 + klen + vlen) =~= buf.subrange(
        gcur,
        gcur + enc_rest.len(),
    ).subrange(8 + klen, 8 + klen + vlen));
    assert(enc_rest.subrange(8 + klen, 8 + klen + vlen) =~= spec_encode(es[k].1));
    assert(buf.subrange(gcur + 8 + klen, gcur + 8 + klen + vlen) == spec_encode(es[k].1));
    assert(starts_with_at(buf, gcur + 8 + klen, spec_encode(es[k].1)));
    es
}

/// Encodes a keyword-argument value into a fresh byte buffer.
///
/// The buffer is never empty, so it can never be mistaken for the "no kwargs
/// supplied" blob.
pub fn encode_kwargs(v: &KwargsValue) -> (out: Vec<u8>)
    ensures
        out@ == spec_encode(v.dview()),
        out@.len() >= 1,
{
    let mut out: Vec<u8> = Vec::new();
    encode_into(v, &mut out);
    proof {
        lemma_encode_shape(v.dview());
    }
    out
}


/// Decodes a keyword-argument buffer.
///
/// An empty buffer means "no kwargs supplied" and decodes to `Ok(None)`; a
/// buffer that is exactly the encoding of one value decodes to that value;
/// any other buffer is a kwargs error. Together with `encode_kwargs` this
/// carries the round-trip law: a buffer produced by `encode_kwargs` always
/// decodes back to a value of the same shape.
pub fn decode_kwargs(buf: &Vec<u8>) -> (r: Result<Option<KwargsValue>, PluginError>)
    ensures
        buf@.len() == 0 <==> r == Ok::<Option<KwargsValue>, PluginError>(None),
        (match r {
            Ok(Some(w)) => buf@ == spec_encode(w.dview()) && w.dview().wf(),
            _ => true,
        }),
        forall|dv: KwargsView| #![trigger spec_encode(dv)]
            dv.wf() && buf@ == spec_encode(dv) ==> (r matches Ok(q) && q matches Some(w)
                && w.dview() == dv),
        r is Err <==> (buf@.len() > 0 && !(exists|dv: KwargsView|
            #![trigger spec_encode(dv)]
            dv.wf() && buf@ == spec_encode(dv))),
{
    if buf.len() == 0 {
        proof {
            assert forall|dv: KwargsView| #![trigger spec_encode(dv)]
                !(dv.wf() && buf@ == spec_encode(dv)) by {
                lemma_encode_shape(dv);
            }
        }
        return Ok(None);
    }
    match decode_at(buf, 0) {
        Some((w, end)) => {
            if end == buf.len() {
                proof {
                    lemma_dview_wf(w);
                    assert(buf@ =~= buf@.subrange(0, buf@.len() as int));
                    assert forall|dv: KwargsView| #![trigger spec_encode(dv)]
                        dv.wf() && buf@ == spec_encode(dv) implies w.dview() == dv by {
                        assert(starts_with_at(buf@, 0, spec_encode(dv)));
                    }
                }
                Ok(Some(w))
            } else {
                proof {
                    assert forall|dv: KwargsView| #![trigger spec_encode(dv)]
                        !(dv.wf() && buf@ == spec_encode(dv)) by {
                        if dv.wf() && buf@ == spec_encode(dv) {
                            assert(buf@.subrange(0, spec_encode(dv).len() as int) =~= buf@);
                            assert(starts_with_at(buf@, 0, spec_encode(dv)));
                        }
                    }
                }
                Err(PluginError::Kwargs("trailing bytes after the encoded value".to_owned()))
            }
        },
        None => {
            proof {
                assert forall|dv: KwargsView| #![trigger spec_encode(dv)]
                    !(dv.wf() && buf@ == spec_encode(dv)) by {
                    if dv.wf() && buf@ == spec_encode(dv) {
                        assert(buf@.subrange(0, spec_encode(dv).len() as int) =~= buf@);
                        assert(starts_with_at(buf@, 0, spec_encode(dv)));
                    }
                }
            }
            Err(PluginError::Kwargs("malformed kwargs encoding".to_owned()))
        },
    }
}

// ---------------------------------------------------------------------------
// Dictionary lookup
// ---------------------------------------------------------------------------

/// The value stored under `key`: the first entry whose key matches.
pub open spec fn spec_lookup(es: Seq<(Seq<u8>, KwargsView)>, key: Seq<u8>) -> Option<KwargsView>
    decreases es,
{
    if es.len() == 0 {
        None
    } else if es[0].0 == key {
        Some(es[0].1)
    } else {
        spec_lookup(es.drop_first(), key)
    }
}

/// A lookup that has not matched among the first `i` entries continues in
/// the rest.
proof fn lemma_lookup_skip(es: Seq<(Seq<u8>, KwargsView)>, key: Seq<u8>, i: int)
    requires
        0 <= i <= es.len(),
        forall|j: int| 0 <= j < i ==> (#[trigger] es[j]).0 != key,
    ensures
        spec_lookup(es, key) == spec_lookup(es.skip(i), key),
    decreases i,
{
    if i == 0 {
        assert(es.skip(0) =~= es);
    } else {
        assert(es[0].0 != key);
        assert forall|j: int| 0 <= j < i - 1 implies (#[trigger] es.drop_first()[j]).0 != key by {
            assert(es.drop_first()[j] == es[j + 1]);
        }
        lemma_lookup_skip(es.drop_first(), key, i - 1);
        assert(es.drop_first().skip(i - 1) =~= es.skip(i));
    }
}

/// True when the two byte strings hold the same bytes.
fn bytes_eq(a: &Vec<u8>, b: &[u8]) -> (r: bool)
    ensures
        r <==> a@ == b@,
{
    if a.len() != b.len() {
        proof {
            assert(a@.len() != b@.len());
        }
        return false;
    }
    let n = a.len();
    let mut i: usize = 0;
    while i < n
        invariant
            i <= n,
            n == a@.len() == b@.len(),
            forall|j: int| 0 <= j < i ==> a@[j] == b@[j],
        decreases n - i,
    {
        if a[i] != b[i] {
            return false;
        }
        i = i + 1;
    }
    proof {
        assert(a@ =~= b@);
    }
    true
}

/// Finds the value stored under `key` in a dictionary's entry list: the
/// plugin-side accessor for one keyword argument.
#[verifier::loop_isolation(false)]
pub fn dict_get<'a>(entries: &'a Vec<(Vec<u8>, KwargsValue)>, key: &[u8]) -> (r: Option<
    &'a KwargsValue,
>)
    ensures
        match r {
            Some(v) => spec_lookup(dview_entries(entries@), key@) == Some(v.dview()),
            None => spec_lookup(dview_entries(entries@), key@) is None,
        },
{
    proof {
        lemma_dview_entries(entries@);
    }
    let ghost des = dview_entries(entries@);
    let n = entries.len();
    let mut i: usize = 0;
    while i < n
        invariant
            i <= n,
            n == entries@.len(),
            des == dview_entries(entries@),
            des.len() == n,
            forall|j: int| 0 <= j < i ==> (#[trigger] des[j]).0 != key@,
        decreases n - i,
    {
        if bytes_eq(&entries[i].0, key) {
            proof {
                lemma_lookup_skip(des, key@, i as int);
                assert(des.skip(i as int)[0] == des[i as int]);
                assert(des[i as int] == (entries@[i as int].0@, entries@[i as int].1.dview()));
            }
            return Some(&entries[i].1);
        }
        proof {
            assert(des[i as int] == (entries@[i as int].0@, entries@[i as int].1.dview()));
        }
        i = i + 1;
    }
    proof {
        lemma_lookup_skip(des, key@, n as int);
        assert(des.skip(n as int) =~= Seq::<(Seq<u8>, KwargsView)>::empty());
    }
    None
}

} // verus!
