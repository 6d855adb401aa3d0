//! The binary codec for persisted model containers.
//!
//! Counts and lengths are eight-byte little-endian integers; every scalar
//! is the four-byte little-endian form of its binary32 bit pattern; a name
//! is a byte count followed by its UTF-8 encoding. A matrix is written as a
//! sequence of row sequences, except that a matrix of height one is written
//! as a single flat sequence; the decoder is told the expected height out
//! of band, by the destination shape, because a flat list of numbers is
//! ambiguous between one row and a column of scalars.

use crate::compile::RawModelRecord;
use crate::error::DecodeError;
use crate::matrix::{lemma_row_major, MatView, Matrix};
use crate::model_data::pairs_view;
use vstd::prelude::*;
use vstd::utf8::{decode_utf8, encode_utf8, valid_utf8};

verus! {

/// The mathematical content of a raw model record: every name as its
/// character sequence, every tensor as its entry sequence.
#[verifier::ext_equal]
pub ghost struct RecordView {
    pub fields: Seq<Seq<char>>,
    pub alpha: u32,
    pub mean: Seq<(Seq<char>, u32)>,
    pub std: Seq<(Seq<char>, u32)>,
    pub l0_bias: Seq<u32>,
    pub l1_bias: Seq<u32>,
    pub l2_bias: Seq<u32>,
    pub l0_kernel: Seq<u32>,
    pub l1_kernel: Seq<u32>,
    pub l2_kernel: Seq<u32>,
}

/// A list of names, reduced to its character sequences.
pub open spec fn names_view(s: Seq<String>) -> Seq<Seq<char>> {
    Seq::new(s.len(), |i: int| s[i]@)
}

/// The mathematical content of a record value.
pub open spec fn rec_view(r: RawModelRecord) -> RecordView {
    RecordView {
        fields: names_view(r.fields@),
        alpha: r.alpha,
        mean: pairs_view(r.mean@),
        std: pairs_view(r.std@),
        l0_bias: r.l0_bias@,
        l1_bias: r.l1_bias@,
        l2_bias: r.l2_bias@,
        l0_kernel: r.l0_kernel@.elems,
        l1_kernel: r.l1_kernel@.elems,
        l2_kernel: r.l2_kernel@.elems,
    }
}

/// The four little-endian bytes of a 32-bit value.
pub open spec fn le4(v: u32) -> Seq<u8> {
    seq![(v & 0xff) as u8, ((v >> 8) & 0xff) as u8, ((v >> 16) & 0xff) as u8, ((v >> 24)
        & 0xff) as u8]
}

/// The eight little-endian bytes of a 64-bit value.
pub open spec fn le8(v: u64) -> Seq<u8> {
    seq![(v & 0xff) as u8, ((v >> 8) & 0xff) as u8, ((v >> 16) & 0xff) as u8, ((v >> 24)
        & 0xff) as u8, ((v >> 32) & 0xff) as u8, ((v >> 40) & 0xff) as u8, ((v >> 48)
        & 0xff) as u8, ((v >> 56) & 0xff) as u8]
}

/// The encoding of a run of scalar values, in order.
pub open spec fn enc_vals(s: Seq<u32>) -> Seq<u8>
    decreases s.len(),
{
    if s.len() == 0 {
        Seq::empty()
    } else {
        le4(s[0]) + enc_vals(s.drop_first())
    }
}

/// The encoding of a name: its UTF-8 byte count, then those bytes.
pub open spec fn enc_name(s: Seq<char>) -> Seq<u8> {
    le8(encode_utf8(s).len() as u64) + encode_utf8(s)
}

/// The encoding of the entries of a statistics map, in order.
pub open spec fn enc_pairs_body(s: Seq<(Seq<char>, u32)>) -> Seq<u8>
    decreases s.len(),
{
    if s.len() == 0 {
        Seq::empty()
    } else {
        enc_name(s[0].0) + le4(s[0].1) + enc_pairs_body(s.drop_first())
    }
}

/// The encoding of a statistics map: its entry count, then its entries.
pub open spec fn enc_pairs(s: Seq<(Seq<char>, u32)>) -> Seq<u8> {
    le8(s.len() as u64) + enc_pairs_body(s)
}

/// The encoding of the names of a field list, in order.
pub open spec fn enc_names_body(s: Seq<Seq<char>>) -> Seq<u8>
    decreases s.len(),
{
    if s.len() == 0 {
        Seq::empty()
    } else {
        enc_name(s[0]) + enc_names_body(s.drop_first())
    }
}

/// The encoding of a field list: its count, then its names.
pub open spec fn enc_names(s: Seq<Seq<char>>) -> Seq<u8> {
    le8(s.len() as u64) + enc_names_body(s)
}

/// The encoding of a flat bias: its length, then its values.
pub open spec fn enc_bias(s: Seq<u32>) -> Seq<u8> {
    le8(s.len() as u64) + enc_vals(s)
}

/// The encoding of row `i` of a matrix: its width, then its entries.
pub open spec fn enc_row(m: MatView, i: int) -> Seq<u8> {
    le8(m.width as u64) + enc_vals(m.elems.subrange(i * m.width, (i + 1) * m.width))
}

/// The encoding of the rows of a matrix from row `i` on.
pub open spec fn enc_rows(m: MatView, i: int) -> Seq<u8>
    decreases m.height - i,
{
    if i < 0 || i >= m.height {
        Seq::empty()
    } else {
        enc_row(m, i) + enc_rows(m, i + 1)
    }
}

/// The encoding of a matrix: rows of entries, except that a matrix of
/// height one is written as one flat run of values.
pub open spec fn enc_matrix(m: MatView) -> Seq<u8> {
    if m.height == 1 {
        le8(m.width as u64) + enc_vals(m.elems)
    } else {
        le8(m.height as u64) + enc_rows(m, 0)
    }
}

/// The canonical key of the first layer's bias.
pub open spec fn key_l0_bias() -> Seq<char> {
    "dense/bias:0"@
}

/// The canonical key of the first layer's kernel.
pub open spec fn key_l0_kernel() -> Seq<char> {
    "dense/kernel:0"@
}

/// The canonical key of the second layer's bias.
pub open spec fn key_l1_bias() -> Seq<char> {
    "dense_1/bias:0"@
}

/// The canonical key of the second layer's kernel.
pub open spec fn key_l1_kernel() -> Seq<char> {
    "dense_1/kernel:0"@
}

/// The canonical key of the last layer's bias.
pub open spec fn key_l2_bias() -> Seq<char> {
    "dense_2/bias:0"@
}

/// The canonical key of the last layer's kernel.
pub open spec fn key_l2_kernel() -> Seq<char> {
    "dense_2/kernel:0"@
}

/// The encoding of a flat bias under its canonical key.
pub open spec fn enc_keyed_bias(key: Seq<char>, s: Seq<u32>) -> Seq<u8> {
    enc_name(key) + enc_bias(s)
}

/// The encoding of a kernel under its canonical key.
pub open spec fn enc_keyed_matrix(key: Seq<char>, m: MatView) -> Seq<u8> {
    enc_name(key) + enc_matrix(m)
}

/// The encoding of a whole container: field list, activation slope, the
/// two statistics maps, then the six weight tensors, each under its
/// canonical key.
pub open spec fn enc_record(v: RecordView) -> Seq<u8> {
    enc_names(v.fields) + le4(v.alpha) + enc_pairs(v.mean) + enc_pairs(v.std) + enc_keyed_bias(
        key_l0_bias(),
        v.l0_bias,
    ) + enc_keyed_bias(key_l1_bias(), v.l1_bias) + enc_keyed_bias(key_l2_bias(), v.l2_bias)
        + enc_keyed_matrix(
        key_l0_kernel(),
        MatView { width: v.l0_bias.len(), height: v.fields.len(), elems: v.l0_kernel },
    ) + enc_keyed_matrix(
        key_l1_kernel(),
        MatView { width: v.l1_bias.len(), height: v.l0_bias.len(), elems: v.l1_kernel },
    ) + enc_keyed_matrix(
        key_l2_kernel(),
        MatView { width: v.l2_bias.len(), height: v.l1_bias.len(), elems: v.l2_kernel },
    )
}

/// Relies on `String::into_bytes`: the UTF-8 encoding of the string's
/// characters.
#[verifier::external_body]
fn string_into_bytes(s: String) -> (r: Vec<u8>)
    ensures
        r@ == encode_utf8(s@),
{
    s.into_bytes()
}

/// Relies on `String::from_utf8`: succeeds exactly on valid UTF-8 input,
/// decoding those bytes.
#[verifier::external_body]
fn string_from_utf8(v: Vec<u8>) -> (r: Option<String>)
    ensures
        r is Some <==> valid_utf8(v@),
        r matches Some(s) ==> s@ == decode_utf8(v@),
{
    String::from_utf8(v).ok()
}

/// Appends the four little-endian bytes of a 32-bit value.
fn write_u32(out: &mut Vec<u8>, v: u32)
    ensures
        final(out)@ == old(out)@ + le4(v),
{
    out.push((v & 0xff) as u8);
    out.push(((v >> 8) & 0xff) as u8);
    out.push(((v >> 16) & 0xff) as u8);
    out.push(((v >> 24) & 0xff) as u8);
    proof {
        assert(out@ =~= old(out)@ + le4(v));
    }
}

/// Appends the eight little-endian bytes of a 64-bit value.
fn write_u64(out: &mut Vec<u8>, v: u64)
    ensures
        final(out)@ == old(out)@ + le8(v),
{
    out.push((v & 0xff) as u8);
    out.push(((v >> 8) & 0xff) as u8);
    out.push(((v >> 16) & 0xff) as u8);
    out.push(((v >> 24) & 0xff) as u8);
    out.push(((v >> 32) & 0xff) as u8);
    out.push(((v >> 40) & 0xff) as u8);
    out.push(((v >> 48) & 0xff) as u8);
    out.push(((v >> 56) & 0xff) as u8);
    proof {
        assert(out@ =~= old(out)@ + le8(v));
    }
}

/// Appends the values of a flat buffer, in order.
fn write_vals(out: &mut Vec<u8>, vals: &Vec<u32>)
    ensures
        final(out)@ == old(out)@ + enc_vals(vals@),
{
    let n = vals.len();
    proof {
        assert(vals@.skip(0) =~= vals@);
    }
    let mut k: usize = 0;
    while k < n
        invariant
            n == vals@.len(),
            k <= n,
            out@ + enc_vals(vals@.skip(k as int)) == old(out)@ + enc_vals(vals@),
        decreases n - k,
    {
        proof {
            assert(vals@.skip(k as int)[0] == vals@[k as int]);
            assert(vals@.skip(k as int).drop_first() =~= vals@.skip(k as int + 1));
        }
        write_u32(out, vals[k]);
        proof {
            assert(out@ + enc_vals(vals@.skip(k as int + 1)) =~= old(out)@ + enc_vals(vals@));
        }
        k = k + 1;
    }
    proof {
        assert(vals@.skip(n as int).len() == 0);
        assert(out@ =~= out@ + enc_vals(vals@.skip(n as int)));
    }
}

/// Appends the encoding of a name.
fn write_name(out: &mut Vec<u8>, name: &String)
    ensures
        final(out)@ == old(out)@ + enc_name(name@),
{
    let bytes = string_into_bytes(name.clone());
    write_u64(out, bytes.len() as u64);
    let n = bytes.len();
    let mut k: usize = 0;
    while k < n
        invariant
            n == bytes@.len(),
            k <= n,
            out@ == old(out)@ + le8(bytes@.len() as u64) + bytes@.take(k as int),
        decreases n - k,
    {
        out.push(bytes[k]);
        proof {
            assert(bytes@.take(k as int).push(bytes@[k as int]) =~= bytes@.take(k as int + 1));
            assert(out@ =~= old(out)@ + le8(bytes@.len() as u64) + bytes@.take(k as int + 1));
        }
        k = k + 1;
    }
    proof {
        assert(bytes@.take(n as int) =~= bytes@);
        assert(out@ =~= old(out)@ + enc_name(name@));
    }
}

/// Appends the encoding of a statistics map.
fn write_pairs(out: &mut Vec<u8>, pairs: &Vec<(String, u32)>)
    ensures
        final(out)@ == old(out)@ + enc_pairs(pairs_view(pairs@)),
{
    let ghost pv = pairs_view(pairs@);
    let n = pairs.len();
    write_u64(out, n as u64);
    proof {
        assert(pv.skip(0) =~= pv);
    }
    let mut k: usize = 0;
    while k < n
        invariant
            pv == pairs_view(pairs@),
            n == pairs@.len(),
            k <= n,
            out@ + enc_pairs_body(pv.skip(k as int)) == old(out)@ + enc_pairs(pv),
        decreases n - k,
    {
        proof {
            assert(pv.skip(k as int)[0] == pv[k as int]);
            assert(pv.skip(k as int).drop_first() =~= pv.skip(k as int + 1));
        }
        write_name(out, &pairs[k].0);
        write_u32(out, pairs[k].1);
        proof {
            assert(out@ + enc_pairs_body(pv.skip(k as int + 1)) =~= old(out)@ + enc_pairs(pv));
        }
        k = k + 1;
    }
    proof {
        assert(pv.skip(n as int).len() == 0);
        assert(out@ =~= out@ + enc_pairs_body(pv.skip(n as int)));
    }
}

/// Appends the encoding of a field list.
fn write_names(out: &mut Vec<u8>, names: &Vec<String>)
    ensures
        final(out)@ == old(out)@ + enc_names(names_view(names@)),
{
    let ghost nv = names_view(names@);
    let n = names.len();
    write_u64(out, n as u64);
    proof {
        assert(nv.skip(0) =~= nv);
    }
    let mut k: usize = 0;
    while k < n
        invariant
            nv == names_view(names@),
            n == names@.len(),
            k <= n,
            out@ + enc_names_body(nv.skip(k as int)) == old(out)@ + enc_names(nv),
        decreases n - k,
    {
        proof {
            assert(nv.skip(k as int)[0] == nv[k as int]);
            assert(nv.skip(k as int).drop_first() =~= nv.skip(k as int + 1));
        }
        write_name(out, &names[k]);
        proof {
            assert(out@ + enc_names_body(nv.skip(k as int + 1)) =~= old(out)@ + enc_names(nv));
        }
        k = k + 1;
    }
    proof {
        assert(nv.skip(n as int).len() == 0);
        assert(out@ =~= out@ + enc_names_body(nv.skip(n as int)));
    }
}

/// Appends the encoding of a flat bias.
fn write_bias(out: &mut Vec<u8>, vals: &Vec<u32>)
    ensures
        final(out)@ == old(out)@ + enc_bias(vals@),
{
    write_u64(out, vals.len() as u64);
    write_vals(out, vals);
    proof {
        assert(out@ =~= old(out)@ + enc_bias(vals@));
    }
}

/// Appends the encoding of a matrix: flat when its height is one, rows of
/// entries otherwise.
pub fn encode_matrix(out: &mut Vec<u8>, m: &Matrix)
    requires
        m@.wf(),
    ensures
        final(out)@ == old(out)@ + enc_matrix(m@),
{
    let h = m.height();
    let w = m.width();
    if h == 1 {
        write_u64(out, w as u64);
        let mut row: Vec<u32> = Vec::new();
        proof {
            assert(row@ =~= m@.elems.take(0));
        }
        let mut k: usize = 0;
        while k < w
            invariant
                m@.wf(),
                m@.height == 1,
                w == m@.width,
                k <= w,
                row@ == m@.elems.take(k as int),
            decreases w - k,
        {
            proof {
                assert(m@.elems.len() == m@.width * 1) by (nonlinear_arith)
                    requires
                        m@.elems.len() == m@.width * m@.height,
                        m@.height == 1,
                ;
                lemma_row_major(m@.width as int, m@.height as int, 0, k as int);
                assert(m@.at(0, k as int) == m@.elems[k as int]);
            }
            let v = m.get(0, k);
            row.push(v);
            proof {
                assert(row@ =~= m@.elems.take(k as int + 1));
            }
            k = k + 1;
        }
        proof {
            assert(m@.elems.len() == m@.width * 1) by (nonlinear_arith)
                requires
                    m@.elems.len() == m@.width * m@.height,
                    m@.height == 1,
            ;
            assert(row@ =~= m@.elems);
        }
        write_vals(out, &row);
        proof {
            assert(out@ =~= old(out)@ + enc_matrix(m@));
        }
    } else {
        write_u64(out, h as u64);
        let mut i: usize = 0;
        while i < h
            invariant
                m@.wf(),
                m@.height != 1,
                h == m@.height,
                w == m@.width,
                i <= h,
                out@ + enc_rows(m@, i as int) == old(out)@ + enc_matrix(m@),
            decreases h - i,
        {
            let mut row: Vec<u32> = Vec::new();
            proof {
                assert(0 <= i as int * m@.width && i as int * m@.width <= m@.elems.len())
                    by (nonlinear_arith)
                    requires
                        0 <= i < m@.height,
                        m@.elems.len() == m@.width * m@.height,
                ;
                assert(row@ =~= m@.elems.subrange(
                    i as int * m@.width,
                    i as int * m@.width + 0,
                ));
            }
            let mut k: usize = 0;
            while k < w
                invariant
                    m@.wf(),
                    h == m@.height,
                    w == m@.width,
                    i < h,
                    k <= w,
                    row@ == m@.elems.subrange(
                        i as int * m@.width,
                        i as int * m@.width + k as int,
                    ),
                decreases w - k,
            {
                proof {
                    lemma_row_major(m@.width as int, m@.height as int, i as int, k as int);
                }
                let v = m.get(i, k);
                row.push(v);
                proof {
                    assert(row@ =~= m@.elems.subrange(
                        i as int * m@.width,
                        i as int * m@.width + k as int + 1,
                    ));
                }
                k = k + 1;
            }
            write_u64(out, w as u64);
            write_vals(out, &row);
            proof {
                assert((i as int + 1) * m@.width == i as int * m@.width + m@.width)
                    by (nonlinear_arith);
                assert(row@ =~= m@.elems.subrange(
                    i as int * m@.width,
                    (i as int + 1) * m@.width,
                ));
                assert(enc_rows(m@, i as int) == enc_row(m@, i as int) + enc_rows(
                    m@,
                    i as int + 1,
                ));
                assert(out@ + enc_rows(m@, i as int + 1) =~= old(out)@ + enc_matrix(m@));
            }
            i = i + 1;
        }
        proof {
            assert(enc_rows(m@, h as int).len() == 0);
            assert(out@ =~= out@ + enc_rows(m@, h as int));
        }
    }
}

/// Encodes a model container to its compact binary form. No textual
/// rendering of scalars is involved anywhere: the bit patterns are written
/// as they stand.
#[verifier::rlimit(50)]
pub fn encode(record: &RawModelRecord) -> (r: Vec<u8>)
    requires
        record.wf(),
    ensures
        r@ == enc_record(rec_view(*record)),
{
    let mut out: Vec<u8> = Vec::new();
    write_names(&mut out, &record.fields);
    write_u32(&mut out, record.alpha);
    write_pairs(&mut out, &record.mean);
    write_pairs(&mut out, &record.std);
    write_name(&mut out, &"dense/bias:0".to_owned());
    write_bias(&mut out, &record.l0_bias);
    write_name(&mut out, &"dense_1/bias:0".to_owned());
    write_bias(&mut out, &record.l1_bias);
    write_name(&mut out, &"dense_2/bias:0".to_owned());
    write_bias(&mut out, &record.l2_bias);
    write_name(&mut out, &"dense/kernel:0".to_owned());
    encode_matrix(&mut out, &record.l0_kernel);
    write_name(&mut out, &"dense_1/kernel:0".to_owned());
    encode_matrix(&mut out, &record.l1_kernel);
    write_name(&mut out, &"dense_2/kernel:0".to_owned());
    encode_matrix(&mut out, &record.l2_kernel);
    proof {
        assert(rec_view(*record).l0_bias.len() == record.l0_kernel@.width);
        assert(out@ =~= enc_record(rec_view(*record)));
    }
    out
}

/// The 32-bit value of four little-endian bytes.
pub open spec fn comb4(b0: u8, b1: u8, b2: u8, b3: u8) -> u32 {
    (b0 as u32) | ((b1 as u32) << 8) | ((b2 as u32) << 16) | ((b3 as u32) << 24)
}

/// The 64-bit value of eight little-endian bytes.
pub open spec fn comb8(b0: u8, b1: u8, b2: u8, b3: u8, b4: u8, b5: u8, b6: u8, b7: u8) -> u64 {
    (b0 as u64) | ((b1 as u64) << 8) | ((b2 as u64) << 16) | ((b3 as u64) << 24) | ((b4
        as u64) << 32) | ((b5 as u64) << 40) | ((b6 as u64) << 48) | ((b7 as u64) << 56)
}

/// Reads a 32-bit value at `pos`.
pub open spec fn sd_u32(b: Seq<u8>, pos: int) -> Result<(u32, int), DecodeError> {
    if 0 <= pos && pos + 4 <= b.len() {
        Ok((comb4(b[pos], b[pos + 1], b[pos + 2], b[pos + 3]), pos + 4))
    } else {
        Err(DecodeError::Truncated)
    }
}

/// Reads a 64-bit count at `pos`.
pub open spec fn sd_u64(b: Seq<u8>, pos: int) -> Result<(u64, int), DecodeError> {
    if 0 <= pos && pos + 8 <= b.len() {
        Ok((
            comb8(
                b[pos],
                b[pos + 1],
                b[pos + 2],
                b[pos + 3],
                b[pos + 4],
                b[pos + 5],
                b[pos + 6],
                b[pos + 7],
            ),
            pos + 8,
        ))
    } else {
        Err(DecodeError::Truncated)
    }
}

/// Reads `n` scalar values at `pos`.
pub open spec fn sd_vals(b: Seq<u8>, pos: int, n: int) -> Result<(Seq<u32>, int), DecodeError>
    decreases n,
{
    if n <= 0 {
        Ok((Seq::empty(), pos))
    } else {
        match sd_u32(b, pos) {
            Ok((v, p)) => match sd_vals(b, p, n - 1) {
                Ok((s, p2)) => Ok((seq![v] + s, p2)),
                Err(e) => Err(e),
            },
            Err(e) => Err(e),
        }
    }
}

/// Reads a name at `pos`: a byte count, then that many UTF-8 bytes.
pub open spec fn sd_name(b: Seq<u8>, pos: int) -> Result<(Seq<char>, int), DecodeError> {
    match sd_u64(b, pos) {
        Ok((len, p)) => if p + len <= b.len() {
            let bytes = b.subrange(p, p + len as int);
            if valid_utf8(bytes) {
                Ok((decode_utf8(bytes), p + len as int))
            } else {
                Err(DecodeError::BadName)
            }
        } else {
            Err(DecodeError::Truncated)
        },
        Err(e) => Err(e),
    }
}

/// Reads `n` statistics entries at `pos`.
pub open spec fn sd_pairs_body(b: Seq<u8>, pos: int, n: int) -> Result<
    (Seq<(Seq<char>, u32)>, int),
    DecodeError,
>
    decreases n,
{
    if n <= 0 {
        Ok((Seq::empty(), pos))
    } else {
        match sd_name(b, pos) {
            Ok((name, p)) => match sd_u32(b, p) {
                Ok((v, p2)) => match sd_pairs_body(b, p2, n - 1) {
                    Ok((s, p3)) => Ok((seq![(name, v)] + s, p3)),
                    Err(e) => Err(e),
                },
                Err(e) => Err(e),
            },
            Err(e) => Err(e),
        }
    }
}

/// Reads a statistics map at `pos`: a count, then its entries.
pub open spec fn sd_pairs(b: Seq<u8>, pos: int) -> Result<
    (Seq<(Seq<char>, u32)>, int),
    DecodeError,
> {
    match sd_u64(b, pos) {
        Ok((n, p)) => sd_pairs_body(b, p, n as int),
        Err(e) => Err(e),
    }
}

/// Reads `n` names at `pos`.
pub open spec fn sd_names_body(b: Seq<u8>, pos: int, n: int) -> Result<
    (Seq<Seq<char>>, int),
    DecodeError,
>
    decreases n,
{
    if n <= 0 {
        Ok((Seq::empty(), pos))
    } else {
        match sd_name(b, pos) {
            Ok((name, p)) => match sd_names_body(b, p, n - 1) {
                Ok((s, p2)) => Ok((seq![name] + s, p2)),
                Err(e) => Err(e),
            },
            Err(e) => Err(e),
        }
    }
}

/// Reads a field list at `pos`: a count, then its names.
pub open spec fn sd_names(b: Seq<u8>, pos: int) -> Result<(Seq<Seq<char>>, int), DecodeError> {
    match sd_u64(b, pos) {
        Ok((n, p)) => sd_names_body(b, p, n as int),
        Err(e) => Err(e),
    }
}

/// Reads a flat bias at `pos`: a length, then that many values.
pub open spec fn sd_bias(b: Seq<u8>, pos: int) -> Result<(Seq<u32>, int), DecodeError> {
    match sd_u64(b, pos) {
        Ok((n, p)) => sd_vals(b, p, n as int),
        Err(e) => Err(e),
    }
}

/// Reads one matrix row at `pos`: its found width, then that many values,
/// which must match the expected width `w`.
pub open spec fn sd_row(b: Seq<u8>, pos: int, w: int, row_idx: int) -> Result<
    (Seq<u32>, int),
    DecodeError,
> {
    match sd_u64(b, pos) {
        Ok((found, p)) => match sd_vals(b, p, found as int) {
            Ok((vals, p2)) => if found == w as u64 && w >= 0 {
                Ok((vals, p2))
            } else {
                Err(
                    DecodeError::RowWidth {
                        row: row_idx as usize,
                        expected: w as usize,
                        found: found as usize,
                    },
                )
            },
            Err(e) => Err(e),
        },
        Err(e) => Err(e),
    }
}

/// Reads `n` rows at `pos`, the first carrying index `base`.
pub open spec fn sd_rows(b: Seq<u8>, pos: int, w: int, n: int, base: int) -> Result<
    (Seq<u32>, int),
    DecodeError,
>
    decreases n,
{
    if n <= 0 {
        Ok((Seq::empty(), pos))
    } else {
        match sd_row(b, pos, w, base) {
            Ok((vals, p)) => match sd_rows(b, p, w, n - 1, base + 1) {
                Ok((s, p2)) => Ok((vals + s, p2)),
                Err(e) => Err(e),
            },
            Err(e) => Err(e),
        }
    }
}

/// Reads a matrix of the expected shape at `pos`. A height of one is read
/// as a single flat run; any other height as a counted list of rows whose
/// count must match the expected height.
pub open spec fn sd_matrix(b: Seq<u8>, pos: int, w: int, h: int) -> Result<
    (Seq<u32>, int),
    DecodeError,
> {
    if h == 1 {
        sd_row(b, pos, w, 0)
    } else {
        match sd_u64(b, pos) {
            Ok((found, p)) => match sd_rows(b, p, w, found as int, 0) {
                Ok((vals, p2)) => if found == h as u64 && h >= 0 {
                    Ok((vals, p2))
                } else {
                    Err(
                        DecodeError::RowCount { expected: h as usize, found: found as usize },
                    )
                },
                Err(e) => Err(e),
            },
            Err(e) => Err(e),
        }
    }
}

/// Reads a keyed flat bias at `pos`.
pub open spec fn sd_keyed_bias(b: Seq<u8>, pos: int, key: Seq<char>) -> Result<
    (Seq<u32>, int),
    DecodeError,
> {
    match sd_key(b, pos, key) {
        Ok(p) => sd_bias(b, p),
        Err(e) => Err(e),
    }
}

/// Reads a keyed matrix of the expected shape at `pos`.
pub open spec fn sd_keyed_matrix(b: Seq<u8>, pos: int, key: Seq<char>, w: int, h: int) -> Result<
    (Seq<u32>, int),
    DecodeError,
> {
    match sd_key(b, pos, key) {
        Ok(p) => sd_matrix(b, p, w, h),
        Err(e) => Err(e),
    }
}

/// Reads a tensor's introducing key at `pos` and checks it against the
/// canonical one.
pub open spec fn sd_key(b: Seq<u8>, pos: int, key: Seq<char>) -> Result<int, DecodeError> {
    match sd_name(b, pos) {
        Ok((n, p)) => if n == key {
            Ok(p)
        } else {
            Err(DecodeError::UnknownKey)
        },
        Err(e) => Err(e),
    }
}

/// Reads a whole container at `pos`.
pub open spec fn sd_record(b: Seq<u8>, pos: int) -> Result<(RecordView, int), DecodeError> {
    match sd_names(b, pos) {
        Ok((fields, p1)) => match sd_u32(b, p1) {
            Ok((alpha, p2)) => match sd_pairs(b, p2) {
                Ok((mean, p3)) => match sd_pairs(b, p3) {
                    Ok((std_pairs, p4)) => match sd_keyed_bias(b, p4, key_l0_bias()) {
                        Ok((l0b, p5)) => match sd_keyed_bias(b, p5, key_l1_bias()) {
                            Ok((l1b, p6)) => match sd_keyed_bias(b, p6, key_l2_bias()) {
                                Ok((l2b, p7)) => match sd_keyed_matrix(
                                    b,
                                    p7,
                                    key_l0_kernel(),
                                    l0b.len() as int,
                                    fields.len() as int,
                                ) {
                                    Ok((l0k, p8)) => match sd_keyed_matrix(
                                        b,
                                        p8,
                                        key_l1_kernel(),
                                        l1b.len() as int,
                                        l0b.len() as int,
                                    ) {
                                        Ok((l1k, p9)) => match sd_keyed_matrix(
                                            b,
                                            p9,
                                            key_l2_kernel(),
                                            l2b.len() as int,
                                            l1b.len() as int,
                                        ) {
                                            Ok((l2k, p10)) => Ok((
                                                RecordView {
                                                    fields,
                                                    alpha,
                                                    mean,
                                                    std: std_pairs,
                                                    l0_bias: l0b,
                                                    l1_bias: l1b,
                                                    l2_bias: l2b,
                                                    l0_kernel: l0k,
                                                    l1_kernel: l1k,
                                                    l2_kernel: l2k,
                                                },
                                                p10,
                                            )),
                                            Err(e) => Err(e),
                                        },
                                        Err(e) => Err(e),
                                    },
                                    Err(e) => Err(e),
                                },
                                Err(e) => Err(e),
                            },
                            Err(e) => Err(e),
                        },
                        Err(e) => Err(e),
                    },
                    Err(e) => Err(e),
                },
                Err(e) => Err(e),
            },
            Err(e) => Err(e),
        },
        Err(e) => Err(e),
    }
}

proof fn lemma_sd_vals_len(b: Seq<u8>, pos: int, n: int)
    requires
        n >= 0,
        sd_vals(b, pos, n) is Ok,
    ensures
        sd_vals(b, pos, n)->Ok_0.0.len() == n,
        pos <= sd_vals(b, pos, n)->Ok_0.1,
    decreases n,
{
    if n > 0 {
        let p = sd_u32(b, pos)->Ok_0.1;
        lemma_sd_vals_len(b, p, n - 1);
    }
}

/// Reads a 32-bit value.
fn rd_u32(bytes: &[u8], pos: usize) -> (r: Result<(u32, usize), DecodeError>)
    requires
        pos <= bytes@.len(),
    ensures
        match r {
            Ok(t) => pos <= t.1 <= bytes@.len() && sd_u32(bytes@, pos as int) == Ok::<
                (u32, int),
                DecodeError,
            >((t.0, t.1 as int)),
            Err(e) => sd_u32(bytes@, pos as int) == Err::<(u32, int), DecodeError>(e),
        },
{
    if bytes.len() - pos >= 4 {
        let v = bytes[pos] as u32 | (bytes[pos + 1] as u32) << 8 | (bytes[pos + 2] as u32) << 16 | (
        bytes[pos + 3] as u32) << 24;
        Ok((v, pos + 4))
    } else {
        Err(DecodeError::Truncated)
    }
}

/// Reads a 64-bit count.
fn rd_u64(bytes: &[u8], pos: usize) -> (r: Result<(u64, usize), DecodeError>)
    requires
        pos <= bytes@.len(),
    ensures
        match r {
            Ok(t) => pos <= t.1 <= bytes@.len() && t.1 == pos + 8 && sd_u64(bytes@, pos as int)
                == Ok::<(u64, int), DecodeError>((t.0, t.1 as int)),
            Err(e) => sd_u64(bytes@, pos as int) == Err::<(u64, int), DecodeError>(e),
        },
{
    if bytes.len() - pos >= 8 {
        let v = bytes[pos] as u64 | (bytes[pos + 1] as u64) << 8 | (bytes[pos + 2] as u64) << 16 | (
        bytes[pos + 3] as u64) << 24 | (bytes[pos + 4] as u64) << 32 | (bytes[pos + 5] as u64)
            << 40 | (bytes[pos + 6] as u64) << 48 | (bytes[pos + 7] as u64) << 56;
        Ok((v, pos + 8))
    } else {
        Err(DecodeError::Truncated)
    }
}

/// Reads `n` scalar values.
fn rd_vals(bytes: &[u8], pos: usize, n: u64) -> (r: Result<(Vec<u32>, usize), DecodeError>)
    requires
        pos <= bytes@.len(),
    ensures
        match r {
            Ok(t) => pos <= t.1 <= bytes@.len() && sd_vals(bytes@, pos as int, n as int) == Ok::<
                (Seq<u32>, int),
                DecodeError,
            >((t.0@, t.1 as int)),
            Err(e) => sd_vals(bytes@, pos as int, n as int) == Err::<(Seq<u32>, int), DecodeError>(
                e,
            ),
        },
{
    let mut out: Vec<u32> = Vec::new();
    let mut p = pos;
    let mut i: u64 = 0;
    proof {
        if sd_vals(bytes@, pos as int, n as int) is Ok {
            let t = sd_vals(bytes@, pos as int, n as int)->Ok_0;
            assert(out@ + t.0 =~= t.0);
        }
    }
    while i < n
        invariant
            pos <= p <= bytes@.len(),
            i <= n,
            sd_vals(bytes@, pos as int, n as int) == (match sd_vals(
                bytes@,
                p as int,
                n as int - i as int,
            ) {
                Ok((s, p2)) => Ok::<(Seq<u32>, int), DecodeError>((out@ + s, p2)),
                Err(e) => Err::<(Seq<u32>, int), DecodeError>(e),
            }),
        decreases n - i,
    {
        match rd_u32(bytes, p) {
            Ok((v, p2)) => {
                let ghost old_out = out@;
                out.push(v);
                proof {
                    let rest = sd_vals(bytes@, p2 as int, n as int - i as int - 1);
                    if rest is Ok {
                        assert(old_out + (seq![v] + rest->Ok_0.0) =~= out@ + rest->Ok_0.0);
                    }
                }
                p = p2;
                i = i + 1;
            },
            Err(e) => {
                return Err(e);
            },
        }
    }
    proof {
        assert(out@ + Seq::<u32>::empty() =~= out@);
    }
    Ok((out, p))
}

/// Reads a name.
fn rd_name(bytes: &[u8], pos: usize) -> (r: Result<(String, usize), DecodeError>)
    requires
        pos <= bytes@.len(),
    ensures
        match r {
            Ok(t) => pos <= t.1 <= bytes@.len() && sd_name(bytes@, pos as int) == Ok::<
                (Seq<char>, int),
                DecodeError,
            >((t.0@, t.1 as int)),
            Err(e) => sd_name(bytes@, pos as int) == Err::<(Seq<char>, int), DecodeError>(e),
        },
{
    match rd_u64(bytes, pos) {
        Ok((len, p)) => {
            if ((bytes.len() - p) as u64) < len {
                Err(DecodeError::Truncated)
            } else {
                let nb = len as usize;
                let mut buf: Vec<u8> = Vec::new();
                proof {
                    assert(buf@ =~= bytes@.subrange(p as int, p as int));
                }
                let mut k: usize = 0;
                while k < nb
                    invariant
                        p + nb <= bytes@.len(),
                        bytes@.len() <= usize::MAX,
                        k <= nb,
                        buf@ == bytes@.subrange(p as int, p as int + k as int),
                    decreases nb - k,
                {
                    buf.push(bytes[p + k]);
                    proof {
                        assert(buf@ =~= bytes@.subrange(p as int, p as int + k as int + 1));
                    }
                    k = k + 1;
                }
                match string_from_utf8(buf) {
                    Some(s) => Ok((s, p + nb)),
                    None => Err(DecodeError::BadName),
                }
            }
        },
        Err(e) => Err(e),
    }
}

/// Reads a tensor key and checks it against the canonical one.
fn rd_key(bytes: &[u8], pos: usize, expected: &str) -> (r: Result<usize, DecodeError>)
    requires
        pos <= bytes@.len(),
    ensures
        match r {
            Ok(p) => pos <= p <= bytes@.len() && sd_key(bytes@, pos as int, expected@) == Ok::<
                int,
                DecodeError,
            >(p as int),
            Err(e) => sd_key(bytes@, pos as int, expected@) == Err::<int, DecodeError>(e),
        },
{
    match rd_name(bytes, pos) {
        Ok((name, p)) => {
            if name == expected.to_owned() {
                Ok(p)
            } else {
                Err(DecodeError::UnknownKey)
            }
        },
        Err(e) => Err(e),
    }
}

/// Reads a statistics map.
fn rd_pairs(bytes: &[u8], pos: usize) -> (r: Result<(Vec<(String, u32)>, usize), DecodeError>)
    requires
        pos <= bytes@.len(),
    ensures
        match r {
            Ok(t) => pos <= t.1 <= bytes@.len() && sd_pairs(bytes@, pos as int) == Ok::<
                (Seq<(Seq<char>, u32)>, int),
                DecodeError,
            >((pairs_view(t.0@), t.1 as int)),
            Err(e) => sd_pairs(bytes@, pos as int) == Err::<(Seq<(Seq<char>, u32)>, int), DecodeError>(
                e,
            ),
        },
{
    let (n, pstart) = match rd_u64(bytes, pos) {
        Ok(t) => t,
        Err(e) => {
            return Err(e);
        },
    };
    let mut out: Vec<(String, u32)> = Vec::new();
    let mut p = pstart;
    let mut i: u64 = 0;
    proof {
        if sd_pairs_body(bytes@, pstart as int, n as int) is Ok {
            let t = sd_pairs_body(bytes@, pstart as int, n as int)->Ok_0;
            assert(pairs_view(out@) + t.0 =~= t.0);
        }
    }
    while i < n
        invariant
            sd_u64(bytes@, pos as int) == Ok::<(u64, int), DecodeError>((n, pstart as int)),
            pstart <= p <= bytes@.len(),
            i <= n,
            sd_pairs_body(bytes@, pstart as int, n as int) == (match sd_pairs_body(
                bytes@,
                p as int,
                n as int - i as int,
            ) {
                Ok((s, p2)) => Ok::<(Seq<(Seq<char>, u32)>, int), DecodeError>((
                    pairs_view(out@) + s,
                    p2,
                )),
                Err(e) => Err::<(Seq<(Seq<char>, u32)>, int), DecodeError>(e),
            }),
        decreases n - i,
    {
        let (name, p1) = match rd_name(bytes, p) {
            Ok(t) => t,
            Err(e) => {
                return Err(e);
            },
        };
        let (v, p2) = match rd_u32(bytes, p1) {
            Ok(t) => t,
            Err(e) => {
                return Err(e);
            },
        };
        let ghost old_pv = pairs_view(out@);
        let ghost name_view = name@;
        out.push((name, v));
        proof {
            assert(pairs_view(out@) =~= old_pv + seq![(name_view, v)]);
            let rest = sd_pairs_body(bytes@, p2 as int, n as int - i as int - 1);
            if rest is Ok {
                assert(old_pv + (seq![(name_view, v)] + rest->Ok_0.0) =~= pairs_view(out@)
                    + rest->Ok_0.0);
            }
        }
        p = p2;
        i = i + 1;
    }
    proof {
        assert(pairs_view(out@) + Seq::<(Seq<char>, u32)>::empty() =~= pairs_view(out@));
    }
    Ok((out, p))
}

/// Reads a field list.
fn rd_names(bytes: &[u8], pos: usize) -> (r: Result<(Vec<String>, usize), DecodeError>)
    requires
        pos <= bytes@.len(),
    ensures
        match r {
            Ok(t) => pos <= t.1 <= bytes@.len() && sd_names(bytes@, pos as int) == Ok::<
                (Seq<Seq<char>>, int),
                DecodeError,
            >((names_view(t.0@), t.1 as int)),
            Err(e) => sd_names(bytes@, pos as int) == Err::<(Seq<Seq<char>>, int), DecodeError>(e),
        },
{
    let (n, pstart) = match rd_u64(bytes, pos) {
        Ok(t) => t,
        Err(e) => {
            return Err(e);
        },
    };
    let mut out: Vec<String> = Vec::new();
    let mut p = pstart;
    let mut i: u64 = 0;
    proof {
        if sd_names_body(bytes@, pstart as int, n as int) is Ok {
            let t = sd_names_body(bytes@, pstart as int, n as int)->Ok_0;
            assert(names_view(out@) + t.0 =~= t.0);
        }
    }
    while i < n
        invariant
            sd_u64(bytes@, pos as int) == Ok::<(u64, int), DecodeError>((n, pstart as int)),
            pstart <= p <= bytes@.len(),
            i <= n,
            sd_names_body(bytes@, pstart as int, n as int) == (match sd_names_body(
                bytes@,
                p as int,
                n as int - i as int,
            ) {
                Ok((s, p2)) => Ok::<(Seq<Seq<char>>, int), DecodeError>((names_view(out@) + s, p2)),
                Err(e) => Err::<(Seq<Seq<char>>, int), DecodeError>(e),
            }),
        decreases n - i,
    {
        let (name, p1) = match rd_name(bytes, p) {
            Ok(t) => t,
            Err(e) => {
                return Err(e);
            },
        };
        let ghost old_nv = names_view(out@);
        let ghost name_view = name@;
        out.push(name);
        proof {
            assert(names_view(out@) =~= old_nv + seq![name_view]);
            let rest = sd_names_body(bytes@, p1 as int, n as int - i as int - 1);
            if rest is Ok {
                assert(old_nv + (seq![name_view] + rest->Ok_0.0) =~= names_view(out@)
                    + rest->Ok_0.0);
            }
        }
        p = p1;
        i = i + 1;
    }
    proof {
        assert(names_view(out@) + Seq::<Seq<char>>::empty() =~= names_view(out@));
    }
    Ok((out, p))
}

/// Reads a flat bias.
fn rd_bias(bytes: &[u8], pos: usize) -> (r: Result<(Vec<u32>, usize), DecodeError>)
    requires
        pos <= bytes@.len(),
    ensures
        match r {
            Ok(t) => pos <= t.1 <= bytes@.len() && sd_bias(bytes@, pos as int) == Ok::<
                (Seq<u32>, int),
                DecodeError,
            >((t.0@, t.1 as int)),
            Err(e) => sd_bias(bytes@, pos as int) == Err::<(Seq<u32>, int), DecodeError>(e),
        },
{
    match rd_u64(bytes, pos) {
        Ok((n, p)) => rd_vals(bytes, p, n),
        Err(e) => Err(e),
    }
}

/// Reads one matrix row against an expected width.
fn rd_row(bytes: &[u8], pos: usize, w: usize, row_idx: usize) -> (r: Result<
    (Vec<u32>, usize),
    DecodeError,
>)
    requires
        pos <= bytes@.len(),
    ensures
        match r {
            Ok(t) => pos + 8 <= t.1 <= bytes@.len() && t.0@.len() == w && sd_row(
                bytes@,
                pos as int,
                w as int,
                row_idx as int,
            ) == Ok::<(Seq<u32>, int), DecodeError>((t.0@, t.1 as int)),
            Err(e) => sd_row(bytes@, pos as int, w as int, row_idx as int) == Err::<
                (Seq<u32>, int),
                DecodeError,
            >(e),
        },
{
    let (found, p) = match rd_u64(bytes, pos) {
        Ok(t) => t,
        Err(e) => {
            return Err(e);
        },
    };
    let (vals, p2) = match rd_vals(bytes, p, found) {
        Ok(t) => t,
        Err(e) => {
            return Err(e);
        },
    };
    if found == w as u64 {
        proof {
            lemma_sd_vals_len(bytes@, p as int, found as int);
        }
        Ok((vals, p2))
    } else {
        Err(
            DecodeError::RowWidth {
                row: row_idx,
                expected: w,
                found: #[verifier::truncate] (found as usize),
            },
        )
    }
}

/// Reads a matrix body of the expected shape, returning its entries and
/// the position after it.
fn rd_matrix_at(bytes: &[u8], pos: usize, w: usize, h: usize) -> (r: Result<
    (Vec<u32>, usize),
    DecodeError,
>)
    requires
        pos <= bytes@.len(),
    ensures
        match r {
            Ok(t) => pos <= t.1 <= bytes@.len() && t.0@.len() == w * h && sd_matrix(
                bytes@,
                pos as int,
                w as int,
                h as int,
            ) == Ok::<(Seq<u32>, int), DecodeError>((t.0@, t.1 as int)),
            Err(e) => sd_matrix(bytes@, pos as int, w as int, h as int) == Err::<
                (Seq<u32>, int),
                DecodeError,
            >(e),
        },
{
    if h == 1 {
        let r = rd_row(bytes, pos, w, 0);
        proof {
            if r is Ok {
                assert(w * 1 == w) by (nonlinear_arith);
            }
        }
        r
    } else {
        let (found, pstart) = match rd_u64(bytes, pos) {
            Ok(t) => t,
            Err(e) => {
                return Err(e);
            },
        };
        let mut out: Vec<u32> = Vec::new();
        let mut p = pstart;
        let mut i: u64 = 0;
        proof {
            if sd_rows(bytes@, pstart as int, w as int, found as int, 0) is Ok {
                let t = sd_rows(bytes@, pstart as int, w as int, found as int, 0)->Ok_0;
                assert(out@ + t.0 =~= t.0);
            }
        }
        while i < found
            invariant
                h != 1,
                sd_u64(bytes@, pos as int) == Ok::<(u64, int), DecodeError>((found, pstart as int)),
                pos <= bytes@.len(),
                pstart <= p <= bytes@.len(),
                i <= found,
                8 * i <= p - pstart,
                out@.len() == i * w,
                sd_rows(bytes@, pstart as int, w as int, found as int, 0) == (match sd_rows(
                    bytes@,
                    p as int,
                    w as int,
                    found as int - i as int,
                    i as int,
                ) {
                    Ok((s, p2)) => Ok::<(Seq<u32>, int), DecodeError>((out@ + s, p2)),
                    Err(e) => Err::<(Seq<u32>, int), DecodeError>(e),
                }),
            decreases found - i,
        {
            proof {
                assert(i <= bytes@.len()) by (nonlinear_arith)
                    requires
                        8 * i <= p - pstart,
                        0 <= pstart,
                        p <= bytes@.len(),
                        i >= 0,
                ;
            }
            let idx = #[verifier::truncate] (i as usize);
            proof {
                assert(idx as int == i as int);
            }
            let (vals, p2) = match rd_row(bytes, p, w, idx) {
                Ok(t) => t,
                Err(e) => {
                    return Err(e);
                },
            };
            let ghost old_out = out@;
            let mut vals_m = vals;
            let mut k: usize = 0;
            let vn = vals_m.len();
            while k < vn
                invariant
                    vn == vals_m@.len(),
                    k <= vn,
                    out@ == old_out + vals_m@.take(k as int),
                decreases vn - k,
            {
                out.push(vals_m[k]);
                proof {
                    assert(old_out + vals_m@.take(k as int + 1) =~= out@);
                }
                k = k + 1;
            }
            proof {
                assert(vals_m@.take(vn as int) =~= vals_m@);
                assert(out@ =~= old_out + vals_m@);
                let rest = sd_rows(
                    bytes@,
                    p2 as int,
                    w as int,
                    found as int - i as int - 1,
                    i as int + 1,
                );
                if rest is Ok {
                    assert(old_out + (vals_m@ + rest->Ok_0.0) =~= out@ + rest->Ok_0.0);
                }
                assert((i as int + 1) * w == i as int * w + w) by (nonlinear_arith);
            }
            p = p2;
            i = i + 1;
        }
        proof {
            assert(out@ + Seq::<u32>::empty() =~= out@);
        }
        if found == h as u64 {
            proof {
                assert(out@.len() == h as int * w as int);
                assert(h as int * w as int == w as int * h as int) by (nonlinear_arith);
            }
            Ok((out, p))
        } else {
            Err(
                DecodeError::RowCount {
                    expected: h,
                    found: #[verifier::truncate] (found as usize),
                },
            )
        }
    }
}

/// Decodes a matrix of the expected shape from a complete byte slice. The
/// expected height decides, out of band, whether the input is one flat run
/// or a counted list of rows.
pub fn decode_matrix(bytes: &[u8], expected_width: usize, expected_height: usize) -> (r: Result<
    Matrix,
    DecodeError,
>)
    ensures
        match r {
            Ok(m) => {
                &&& m@.wf()
                &&& m@.width == expected_width
                &&& m@.height == expected_height
                &&& sd_matrix(bytes@, 0, expected_width as int, expected_height as int) matches
                    Ok(t) && t.0 == m@.elems && t.1 == bytes@.len()
            },
            Err(e) => match sd_matrix(bytes@, 0, expected_width as int, expected_height as int) {
                Ok((v, end)) => end < bytes@.len() && e == (DecodeError::Trailing {
                    extra: (bytes@.len() - end) as usize,
                }),
                Err(e2) => e == e2,
            },
        },
{
    match rd_matrix_at(bytes, 0, expected_width, expected_height) {
        Ok((vals, p)) => {
            if p == bytes.len() {
                Ok(Matrix::from_buffer(expected_width, expected_height, vals))
            } else {
                Err(DecodeError::Trailing { extra: bytes.len() - p })
            }
        },
        Err(e) => Err(e),
    }
}

/// Decodes a persisted model container. The kernels are checked against
/// the shapes that the field list and biases declare: the first kernel
/// forms one row per field at the first bias's width, the second spans the
/// two declared hidden sizes, the third one row per second-hidden unit at
/// the last bias's width.
pub fn decode(bytes: &[u8]) -> (r: Result<RawModelRecord, DecodeError>)
    ensures
        match r {
            Ok(rec) => {
                &&& rec.wf()
                &&& sd_record(bytes@, 0) matches Ok(t) && t.0 == rec_view(rec) && t.1
                    == bytes@.len()
            },
            Err(e) => match sd_record(bytes@, 0) {
                Ok((v, end)) => end < bytes@.len() && e == (DecodeError::Trailing {
                    extra: (bytes@.len() - end) as usize,
                }),
                Err(e2) => e == e2,
            },
        },
{
    let (fields, p1) = match rd_names(bytes, 0) {
        Ok(t) => t,
        Err(e) => {
            return Err(e);
        },
    };
    let (alpha, p2) = match rd_u32(bytes, p1) {
        Ok(t) => t,
        Err(e) => {
            return Err(e);
        },
    };
    let (mean, p3) = match rd_pairs(bytes, p2) {
        Ok(t) => t,
        Err(e) => {
            return Err(e);
        },
    };
    let (std_pairs, p4) = match rd_pairs(bytes, p3) {
        Ok(t) => t,
        Err(e) => {
            return Err(e);
        },
    };
    let k5 = match rd_key(bytes, p4, "dense/bias:0") {
        Ok(p) => p,
        Err(e) => {
            return Err(e);
        },
    };
    let (l0b, p5) = match rd_bias(bytes, k5) {
        Ok(t) => t,
        Err(e) => {
            return Err(e);
        },
    };
    let k6 = match rd_key(bytes, p5, "dense_1/bias:0") {
        Ok(p) => p,
        Err(e) => {
            return Err(e);
        },
    };
    let (l1b, p6) = match rd_bias(bytes, k6) {
        Ok(t) => t,
        Err(e) => {
            return Err(e);
        },
    };
    let k7 = match rd_key(bytes, p6, "dense_2/bias:0") {
        Ok(p) => p,
        Err(e) => {
            return Err(e);
        },
    };
    let (l2b, p7) = match rd_bias(bytes, k7) {
        Ok(t) => t,
        Err(e) => {
            return Err(e);
        },
    };
    let k8 = match rd_key(bytes, p7, "dense/kernel:0") {
        Ok(p) => p,
        Err(e) => {
            return Err(e);
        },
    };
    let (l0k, p8) = match rd_matrix_at(bytes, k8, l0b.len(), fields.len()) {
        Ok(t) => t,
        Err(e) => {
            return Err(e);
        },
    };
    let k9 = match rd_key(bytes, p8, "dense_1/kernel:0") {
        Ok(p) => p,
        Err(e) => {
            return Err(e);
        },
    };
    let (l1k, p9) = match rd_matrix_at(bytes, k9, l1b.len(), l0b.len()) {
        Ok(t) => t,
        Err(e) => {
            return Err(e);
        },
    };
    let k10 = match rd_key(bytes, p9, "dense_2/kernel:0") {
        Ok(p) => p,
        Err(e) => {
            return Err(e);
        },
    };
    let (l2k, p10) = match rd_matrix_at(bytes, k10, l2b.len(), l1b.len()) {
        Ok(t) => t,
        Err(e) => {
            return Err(e);
        },
    };
    if p10 != bytes.len() {
        return Err(DecodeError::Trailing { extra: bytes.len() - p10 });
    }
    let l0_kernel = Matrix::from_buffer(l0b.len(), fields.len(), l0k);
    let l1_kernel = Matrix::from_buffer(l1b.len(), l0b.len(), l1k);
    let l2_kernel = Matrix::from_buffer(l2b.len(), l1b.len(), l2k);
    let rec = RawModelRecord {
        mean,
        std: std_pairs,
        fields,
        l0_bias: l0b,
        l0_kernel,
        l1_bias: l1b,
        l1_kernel,
        l2_bias: l2b,
        l2_kernel,
        alpha,
    };
    proof {
        assert(rec_view(rec) =~= sd_record(bytes@, 0)->Ok_0.0);
    }
    Ok(rec)
}

/// A name short enough for its byte count to be written on the wire.
pub open spec fn name_len_ok(s: Seq<char>) -> bool {
    encode_utf8(s).len() <= u64::MAX
}

/// The record's list lengths fit the wire's counts, every name fits, and
/// each kernel buffer matches the shape the rest of the record declares.
pub open spec fn rec_sizes_ok(v: RecordView) -> bool {
    &&& v.fields.len() <= u64::MAX
    &&& v.mean.len() <= u64::MAX
    &&& v.std.len() <= u64::MAX
    &&& v.l0_bias.len() <= u64::MAX
    &&& v.l1_bias.len() <= u64::MAX
    &&& v.l2_bias.len() <= u64::MAX
    &&& forall|i: int| 0 <= i < v.fields.len() ==> name_len_ok(#[trigger] v.fields[i])
    &&& forall|i: int| 0 <= i < v.mean.len() ==> name_len_ok(#[trigger] v.mean[i].0)
    &&& forall|i: int| 0 <= i < v.std.len() ==> name_len_ok(#[trigger] v.std[i].0)
    &&& v.l0_kernel.len() == v.l0_bias.len() * v.fields.len()
    &&& v.l1_kernel.len() == v.l1_bias.len() * v.l0_bias.len()
    &&& v.l2_kernel.len() == v.l2_bias.len() * v.l1_bias.len()
}

proof fn lemma_rt_u32(b: Seq<u8>, pos: int, v: u32)
    requires
        0 <= pos,
        pos + 4 <= b.len(),
        b.subrange(pos, pos + 4) == le4(v),
    ensures
        sd_u32(b, pos) == Ok::<(u32, int), DecodeError>((v, pos + 4)),
{
    assert(b[pos] == le4(v)[0] && b[pos + 1] == le4(v)[1] && b[pos + 2] == le4(v)[2] && b[pos + 3]
        == le4(v)[3]) by {
        assert(b.subrange(pos, pos + 4)[0] == b[pos]);
        assert(b.subrange(pos, pos + 4)[1] == b[pos + 1]);
        assert(b.subrange(pos, pos + 4)[2] == b[pos + 2]);
        assert(b.subrange(pos, pos + 4)[3] == b[pos + 3]);
    }
    assert((((v & 0xff) as u8) as u32) | ((((v >> 8) & 0xff) as u8) as u32) << 8 | ((((v >> 16)
        & 0xff) as u8) as u32) << 16 | ((((v >> 24) & 0xff) as u8) as u32) << 24 == v)
        by (bit_vector);
}

proof fn lemma_rt_u64(b: Seq<u8>, pos: int, v: u64)
    requires
        0 <= pos,
        pos + 8 <= b.len(),
        b.subrange(pos, pos + 8) == le8(v),
    ensures
        sd_u64(b, pos) == Ok::<(u64, int), DecodeError>((v, pos + 8)),
{
    assert forall|j: int| 0 <= j < 8 implies b[pos + j] == le8(v)[j] by {
        assert(b.subrange(pos, pos + 8)[j] == b[pos + j]);
    }
    assert((((v & 0xff) as u8) as u64) | ((((v >> 8) & 0xff) as u8) as u64) << 8 | ((((v >> 16)
        & 0xff) as u8) as u64) << 16 | ((((v >> 24) & 0xff) as u8) as u64) << 24 | ((((v >> 32)
        & 0xff) as u8) as u64) << 32 | ((((v >> 40) & 0xff) as u8) as u64) << 40 | ((((v >> 48)
        & 0xff) as u8) as u64) << 48 | ((((v >> 56) & 0xff) as u8) as u64) << 56 == v)
        by (bit_vector);
}

proof fn lemma_enc_vals_len(s: Seq<u32>)
    ensures
        enc_vals(s).len() == 4 * s.len(),
    decreases s.len(),
{
    if s.len() > 0 {
        lemma_enc_vals_len(s.drop_first());
    }
}

proof fn lemma_rt_vals(b: Seq<u8>, pos: int, s: Seq<u32>)
    requires
        0 <= pos,
        pos + enc_vals(s).len() <= b.len(),
        b.subrange(pos, pos + enc_vals(s).len()) == enc_vals(s),
    ensures
        sd_vals(b, pos, s.len() as int) == Ok::<(Seq<u32>, int), DecodeError>((
            s,
            pos + enc_vals(s).len(),
        )),
    decreases s.len(),
{
    if s.len() == 0 {
        assert(sd_vals(b, pos, 0) == Ok::<(Seq<u32>, int), DecodeError>((Seq::empty(), pos)));
        assert(s =~= Seq::<u32>::empty());
    } else {
        let e = enc_vals(s);
        let rest = s.drop_first();
        let er = enc_vals(rest);
        lemma_enc_vals_len(s);
        lemma_enc_vals_len(rest);
        assert(b.subrange(pos, pos + 4) =~= le4(s[0])) by {
            assert forall|j: int| 0 <= j < 4 implies b.subrange(pos, pos + 4)[j] == le4(s[0])[j] by {
                assert(b.subrange(pos, pos + e.len() as int)[j] == (le4(s[0]) + er)[j]);
            }
        }
        lemma_rt_u32(b, pos, s[0]);
        assert(b.subrange(pos + 4, pos + 4 + er.len()) =~= er) by {
            assert forall|j: int| 0 <= j < er.len() implies b.subrange(
                pos + 4,
                pos + 4 + er.len() as int,
            )[j] == er[j] by {
                assert(b.subrange(pos, pos + e.len() as int)[4 + j] == (le4(s[0]) + er)[4 + j]);
            }
        }
        lemma_rt_vals(b, pos + 4, rest);
        assert(seq![s[0]] + rest =~= s);
    }
}

proof fn lemma_rt_name(b: Seq<u8>, pos: int, name: Seq<char>)
    requires
        0 <= pos,
        name_len_ok(name),
        pos + enc_name(name).len() <= b.len(),
        b.subrange(pos, pos + enc_name(name).len()) == enc_name(name),
    ensures
        sd_name(b, pos) == Ok::<(Seq<char>, int), DecodeError>((
            name,
            pos + enc_name(name).len(),
        )),
{
    let eu = encode_utf8(name);
    let e = enc_name(name);
    let lv = eu.len() as u64;
    assert(b.subrange(pos, pos + 8) =~= le8(lv)) by {
        assert forall|j: int| 0 <= j < 8 implies b.subrange(pos, pos + 8)[j] == le8(lv)[j] by {
            assert(b.subrange(pos, pos + e.len() as int)[j] == (le8(lv) + eu)[j]);
        }
    }
    lemma_rt_u64(b, pos, lv);
    assert(b.subrange(pos + 8, pos + 8 + eu.len()) =~= eu) by {
        assert forall|j: int| 0 <= j < eu.len() implies b.subrange(
            pos + 8,
            pos + 8 + eu.len() as int,
        )[j] == eu[j] by {
            assert(b.subrange(pos, pos + e.len() as int)[8 + j] == (le8(lv) + eu)[8 + j]);
        }
    }
    vstd::utf8::encode_utf8_valid_utf8(name);
    vstd::utf8::encode_utf8_decode_utf8(name);
}

proof fn lemma_rt_pairs_body(b: Seq<u8>, pos: int, s: Seq<(Seq<char>, u32)>)
    requires
        0 <= pos,
        forall|i: int| 0 <= i < s.len() ==> name_len_ok(#[trigger] s[i].0),
        pos + enc_pairs_body(s).len() <= b.len(),
        b.subrange(pos, pos + enc_pairs_body(s).len()) == enc_pairs_body(s),
    ensures
        sd_pairs_body(b, pos, s.len() as int) == Ok::<(Seq<(Seq<char>, u32)>, int), DecodeError>((
            s,
            pos + enc_pairs_body(s).len(),
        )),
    decreases s.len(),
{
    if s.len() == 0 {
        assert(s =~= Seq::<(Seq<char>, u32)>::empty());
    } else {
        let e = enc_pairs_body(s);
        let en = enc_name(s[0].0);
        let ev = le4(s[0].1);
        let rest = s.drop_first();
        let er = enc_pairs_body(rest);
        assert(e =~= en + ev + er);
        assert(b.subrange(pos, pos + en.len()) =~= en) by {
            assert forall|j: int| 0 <= j < en.len() implies b.subrange(
                pos,
                pos + en.len() as int,
            )[j] == en[j] by {
                assert(b.subrange(pos, pos + e.len() as int)[j] == (en + ev + er)[j]);
            }
        }
        lemma_rt_name(b, pos, s[0].0);
        let p1 = pos + en.len() as int;
        assert(b.subrange(p1, p1 + 4) =~= ev) by {
            assert forall|j: int| 0 <= j < 4 implies b.subrange(p1, p1 + 4)[j] == ev[j] by {
                assert(b.subrange(pos, pos + e.len() as int)[en.len() + j] == (en + ev + er)[en.len()
                    + j]);
            }
        }
        lemma_rt_u32(b, p1, s[0].1);
        let p2 = p1 + 4;
        assert(b.subrange(p2, p2 + er.len()) =~= er) by {
            assert forall|j: int| 0 <= j < er.len() implies b.subrange(
                p2,
                p2 + er.len() as int,
            )[j] == er[j] by {
                assert(b.subrange(pos, pos + e.len() as int)[en.len() + 4 + j] == (en + ev + er)[
                en.len() + 4 + j]);
            }
        }
        lemma_rt_pairs_body(b, p2, rest);
        assert(seq![(s[0].0, s[0].1)] + rest =~= s);
    }
}

proof fn lemma_rt_pairs(b: Seq<u8>, pos: int, s: Seq<(Seq<char>, u32)>)
    requires
        0 <= pos,
        s.len() <= u64::MAX,
        forall|i: int| 0 <= i < s.len() ==> name_len_ok(#[trigger] s[i].0),
        pos + enc_pairs(s).len() <= b.len(),
        b.subrange(pos, pos + enc_pairs(s).len()) == enc_pairs(s),
    ensures
        sd_pairs(b, pos) == Ok::<(Seq<(Seq<char>, u32)>, int), DecodeError>((
            s,
            pos + enc_pairs(s).len(),
        )),
{
    let e = enc_pairs(s);
    let cnt = s.len() as u64;
    let eb = enc_pairs_body(s);
    assert(b.subrange(pos, pos + 8) =~= le8(cnt)) by {
        assert forall|j: int| 0 <= j < 8 implies b.subrange(pos, pos + 8)[j] == le8(cnt)[j] by {
            assert(b.subrange(pos, pos + e.len() as int)[j] == (le8(cnt) + eb)[j]);
        }
    }
    lemma_rt_u64(b, pos, cnt);
    assert(b.subrange(pos + 8, pos + 8 + eb.len()) =~= eb) by {
        assert forall|j: int| 0 <= j < eb.len() implies b.subrange(
            pos + 8,
            pos + 8 + eb.len() as int,
        )[j] == eb[j] by {
            assert(b.subrange(pos, pos + e.len() as int)[8 + j] == (le8(cnt) + eb)[8 + j]);
        }
    }
    lemma_rt_pairs_body(b, pos + 8, s);
}

proof fn lemma_rt_names_body(b: Seq<u8>, pos: int, s: Seq<Seq<char>>)
    requires
        0 <= pos,
        forall|i: int| 0 <= i < s.len() ==> name_len_ok(#[trigger] s[i]),
        pos + enc_names_body(s).len() <= b.len(),
        b.subrange(pos, pos + enc_names_body(s).len()) == enc_names_body(s),
    ensures
        sd_names_body(b, pos, s.len() as int) == Ok::<(Seq<Seq<char>>, int), DecodeError>((
            s,
            pos + enc_names_body(s).len(),
        )),
    decreases s.len(),
{
    if s.len() == 0 {
        assert(s =~= Seq::<Seq<char>>::empty());
    } else {
        let e = enc_names_body(s);
        let en = enc_name(s[0]);
        let rest = s.drop_first();
        let er = enc_names_body(rest);
        assert(b.subrange(pos, pos + en.len()) =~= en) by {
            assert forall|j: int| 0 <= j < en.len() implies b.subrange(
                pos,
                pos + en.len() as int,
            )[j] == en[j] by {
                assert(b.subrange(pos, pos + e.len() as int)[j] == (en + er)[j]);
            }
        }
        lemma_rt_name(b, pos, s[0]);
        let p1 = pos + en.len() as int;
        assert(b.subrange(p1, p1 + er.len()) =~= er) by {
            assert forall|j: int| 0 <= j < er.len() implies b.subrange(
                p1,
                p1 + er.len() as int,
            )[j] == er[j] by {
                assert(b.subrange(pos, pos + e.len() as int)[en.len() + j] == (en + er)[en.len()
                    + j]);
            }
        }
        lemma_rt_names_body(b, p1, rest);
        assert(seq![s[0]] + rest =~= s);
    }
}

proof fn lemma_rt_names(b: Seq<u8>, pos: int, s: Seq<Seq<char>>)
    requires
        0 <= pos,
        s.len() <= u64::MAX,
        forall|i: int| 0 <= i < s.len() ==> name_len_ok(#[trigger] s[i]),
        pos + enc_names(s).len() <= b.len(),
        b.subrange(pos, pos + enc_names(s).len()) == enc_names(s),
    ensures
        sd_names(b, pos) == Ok::<(Seq<Seq<char>>, int), DecodeError>((
            s,
            pos + enc_names(s).len(),
        )),
{
    let e = enc_names(s);
    let cnt = s.len() as u64;
    let eb = enc_names_body(s);
    assert(b.subrange(pos, pos + 8) =~= le8(cnt)) by {
        assert forall|j: int| 0 <= j < 8 implies b.subrange(pos, pos + 8)[j] == le8(cnt)[j] by {
            assert(b.subrange(pos, pos + e.len() as int)[j] == (le8(cnt) + eb)[j]);
        }
    }
    lemma_rt_u64(b, pos, cnt);
    assert(b.subrange(pos + 8, pos + 8 + eb.len()) =~= eb) by {
        assert forall|j: int| 0 <= j < eb.len() implies b.subrange(
            pos + 8,
            pos + 8 + eb.len() as int,
        )[j] == eb[j] by {
            assert(b.subrange(pos, pos + e.len() as int)[8 + j] == (le8(cnt) + eb)[8 + j]);
        }
    }
    lemma_rt_names_body(b, pos + 8, s);
}

proof fn lemma_rt_bias(b: Seq<u8>, pos: int, s: Seq<u32>)
    requires
        0 <= pos,
        s.len() <= u64::MAX,
        pos + enc_bias(s).len() <= b.len(),
        b.subrange(pos, pos + enc_bias(s).len()) == enc_bias(s),
    ensures
        sd_bias(b, pos) == Ok::<(Seq<u32>, int), DecodeError>((s, pos + enc_bias(s).len())),
{
    let e = enc_bias(s);
    let cnt = s.len() as u64;
    let eb = enc_vals(s);
    assert(b.subrange(pos, pos + 8) =~= le8(cnt)) by {
        assert forall|j: int| 0 <= j < 8 implies b.subrange(pos, pos + 8)[j] == le8(cnt)[j] by {
            assert(b.subrange(pos, pos + e.len() as int)[j] == (le8(cnt) + eb)[j]);
        }
    }
    lemma_rt_u64(b, pos, cnt);
    assert(b.subrange(pos + 8, pos + 8 + eb.len()) =~= eb) by {
        assert forall|j: int| 0 <= j < eb.len() implies b.subrange(
            pos + 8,
            pos + 8 + eb.len() as int,
        )[j] == eb[j] by {
            assert(b.subrange(pos, pos + e.len() as int)[8 + j] == (le8(cnt) + eb)[8 + j]);
        }
    }
    lemma_rt_vals(b, pos + 8, s);
}

proof fn lemma_rt_row(b: Seq<u8>, pos: int, m: MatView, i: int)
    requires
        m.wf(),
        m.width <= u64::MAX,
        0 <= i < m.height,
        0 <= pos,
        pos + enc_row(m, i).len() <= b.len(),
        b.subrange(pos, pos + enc_row(m, i).len()) == enc_row(m, i),
    ensures
        sd_row(b, pos, m.width as int, i) == Ok::<(Seq<u32>, int), DecodeError>((
            m.elems.subrange(i * m.width, (i + 1) * m.width),
            pos + enc_row(m, i).len(),
        )),
{
    let w = m.width as int;
    assert(0 <= i * w && (i + 1) * w <= m.elems.len() && (i + 1) * w - i * w == w)
        by (nonlinear_arith)
        requires
            0 <= i < m.height,
            w == m.width,
            m.elems.len() == m.width * m.height,
    ;
    let row = m.elems.subrange(i * w, (i + 1) * w);
    let e = enc_row(m, i);
    let cnt = m.width as u64;
    let eb = enc_vals(row);
    assert(b.subrange(pos, pos + 8) =~= le8(cnt)) by {
        assert forall|j: int| 0 <= j < 8 implies b.subrange(pos, pos + 8)[j] == le8(cnt)[j] by {
            assert(b.subrange(pos, pos + e.len() as int)[j] == (le8(cnt) + eb)[j]);
        }
    }
    lemma_rt_u64(b, pos, cnt);
    assert(b.subrange(pos + 8, pos + 8 + eb.len()) =~= eb) by {
        assert forall|j: int| 0 <= j < eb.len() implies b.subrange(
            pos + 8,
            pos + 8 + eb.len() as int,
        )[j] == eb[j] by {
            assert(b.subrange(pos, pos + e.len() as int)[8 + j] == (le8(cnt) + eb)[8 + j]);
        }
    }
    lemma_rt_vals(b, pos + 8, row);
}

proof fn lemma_rt_rows(b: Seq<u8>, pos: int, m: MatView, i: int)
    requires
        m.wf(),
        m.width <= u64::MAX,
        0 <= i <= m.height,
        0 <= pos,
        pos + enc_rows(m, i).len() <= b.len(),
        b.subrange(pos, pos + enc_rows(m, i).len()) == enc_rows(m, i),
    ensures
        sd_rows(b, pos, m.width as int, m.height - i, i) == Ok::<(Seq<u32>, int), DecodeError>((
            m.elems.subrange(i * m.width, m.elems.len() as int),
            pos + enc_rows(m, i).len(),
        )),
    decreases m.height - i,
{
    let w = m.width as int;
    if i == m.height {
        assert(i * w == m.elems.len()) by (nonlinear_arith)
            requires
                i == m.height,
                w == m.width,
                m.elems.len() == m.width * m.height,
        ;
        assert(m.elems.subrange(i * w, m.elems.len() as int) =~= Seq::<u32>::empty());
    } else {
        let e = enc_rows(m, i);
        let e0 = enc_row(m, i);
        let er = enc_rows(m, i + 1);
        assert(e =~= e0 + er);
        assert(b.subrange(pos, pos + e0.len()) =~= e0) by {
            assert forall|j: int| 0 <= j < e0.len() implies b.subrange(
                pos,
                pos + e0.len() as int,
            )[j] == e0[j] by {
                assert(b.subrange(pos, pos + e.len() as int)[j] == (e0 + er)[j]);
            }
        }
        lemma_rt_row(b, pos, m, i);
        let p1 = pos + e0.len() as int;
        assert(b.subrange(p1, p1 + er.len()) =~= er) by {
            assert forall|j: int| 0 <= j < er.len() implies b.subrange(
                p1,
                p1 + er.len() as int,
            )[j] == er[j] by {
                assert(b.subrange(pos, pos + e.len() as int)[e0.len() + j] == (e0 + er)[e0.len()
                    + j]);
            }
        }
        lemma_rt_rows(b, p1, m, i + 1);
        assert(0 <= i * w && i * w <= (i + 1) * w && (i + 1) * w <= m.elems.len())
            by (nonlinear_arith)
            requires
                0 <= i < m.height,
                w == m.width,
                m.elems.len() == m.width * m.height,
        ;
        assert(m.elems.subrange(i * w, (i + 1) * w) + m.elems.subrange(
            (i + 1) * w,
            m.elems.len() as int,
        ) =~= m.elems.subrange(i * w, m.elems.len() as int));
    }
}

proof fn lemma_rt_matrix(b: Seq<u8>, pos: int, m: MatView)
    requires
        m.wf(),
        m.width <= u64::MAX,
        m.height <= u64::MAX,
        0 <= pos,
        pos + enc_matrix(m).len() <= b.len(),
        b.subrange(pos, pos + enc_matrix(m).len()) == enc_matrix(m),
    ensures
        sd_matrix(b, pos, m.width as int, m.height as int) == Ok::<(Seq<u32>, int), DecodeError>((
            m.elems,
            pos + enc_matrix(m).len(),
        )),
{
    let w = m.width as int;
    let h = m.height as int;
    if m.height == 1 {
        assert(m.elems.len() == m.width) by (nonlinear_arith)
            requires
                m.elems.len() == m.width * m.height,
                m.height == 1,
        ;
        assert(m.elems.subrange(0 * w, (0 + 1) * w) =~= m.elems) by {
            assert(0 * w == 0 && (0 + 1) * w == w) by (nonlinear_arith);
        }
        assert(enc_matrix(m) =~= enc_row(m, 0));
        lemma_rt_row(b, pos, m, 0);
    } else {
        let e = enc_matrix(m);
        let cnt = m.height as u64;
        let eb = enc_rows(m, 0);
        assert(b.subrange(pos, pos + 8) =~= le8(cnt)) by {
            assert forall|j: int| 0 <= j < 8 implies b.subrange(pos, pos + 8)[j] == le8(cnt)[j] by {
                assert(b.subrange(pos, pos + e.len() as int)[j] == (le8(cnt) + eb)[j]);
            }
        }
        lemma_rt_u64(b, pos, cnt);
        assert(b.subrange(pos + 8, pos + 8 + eb.len()) =~= eb) by {
            assert forall|j: int| 0 <= j < eb.len() implies b.subrange(
                pos + 8,
                pos + 8 + eb.len() as int,
            )[j] == eb[j] by {
                assert(b.subrange(pos, pos + e.len() as int)[8 + j] == (le8(cnt) + eb)[8 + j]);
            }
        }
        lemma_rt_rows(b, pos + 8, m, 0);
        assert(m.elems.subrange(0 * w, m.elems.len() as int) =~= m.elems) by {
            assert(0 * w == 0) by (nonlinear_arith);
        }
    }
}

/// The round-trip law for matrices: decoding an encoded matrix, with its
/// shape supplied out of band, returns exactly the original entries and
/// consumes exactly the encoding — bit for bit, for every entry pattern,
/// negative zeros, subnormals and NaNs included.
pub proof fn lemma_matrix_round_trip(m: MatView)
    requires
        m.wf(),
        m.width <= u64::MAX,
        m.height <= u64::MAX,
    ensures
        sd_matrix(enc_matrix(m), 0, m.width as int, m.height as int) == Ok::<
            (Seq<u32>, int),
            DecodeError,
        >((m.elems, enc_matrix(m).len() as int)),
{
    let b = enc_matrix(m);
    assert(b.subrange(0, b.len() as int) =~= b);
    lemma_rt_matrix(b, 0, m);
}

proof fn lemma_encode_utf8_len(s: Seq<char>)
    ensures
        encode_utf8(s).len() <= 4 * s.len(),
    decreases s.len(),
{
    if s.len() > 0 {
        lemma_encode_utf8_len(s.drop_first());
    }
}

proof fn lemma_rt_keyed_bias(b: Seq<u8>, pos: int, key: Seq<char>, s: Seq<u32>)
    requires
        0 <= pos,
        name_len_ok(key),
        s.len() <= u64::MAX,
        pos + enc_keyed_bias(key, s).len() <= b.len(),
        b.subrange(pos, pos + enc_keyed_bias(key, s).len()) == enc_keyed_bias(key, s),
    ensures
        sd_keyed_bias(b, pos, key) == Ok::<(Seq<u32>, int), DecodeError>((
            s,
            pos + enc_keyed_bias(key, s).len(),
        )),
{
    let e = enc_keyed_bias(key, s);
    let en = enc_name(key);
    let eb = enc_bias(s);
    assert(b.subrange(pos, pos + en.len()) =~= en) by {
        assert forall|j: int| 0 <= j < en.len() implies b.subrange(
            pos,
            pos + en.len() as int,
        )[j] == en[j] by {
            assert(b.subrange(pos, pos + e.len() as int)[j] == (en + eb)[j]);
        }
    }
    lemma_rt_name(b, pos, key);
    let p1 = pos + en.len() as int;
    assert(b.subrange(p1, p1 + eb.len()) =~= eb) by {
        assert forall|j: int| 0 <= j < eb.len() implies b.subrange(
            p1,
            p1 + eb.len() as int,
        )[j] == eb[j] by {
            assert(b.subrange(pos, pos + e.len() as int)[en.len() + j] == (en + eb)[en.len() + j]);
        }
    }
    lemma_rt_bias(b, p1, s);
}

proof fn lemma_rt_keyed_matrix(b: Seq<u8>, pos: int, key: Seq<char>, m: MatView)
    requires
        0 <= pos,
        name_len_ok(key),
        m.wf(),
        m.width <= u64::MAX,
        m.height <= u64::MAX,
        pos + enc_keyed_matrix(key, m).len() <= b.len(),
        b.subrange(pos, pos + enc_keyed_matrix(key, m).len()) == enc_keyed_matrix(key, m),
    ensures
        sd_keyed_matrix(b, pos, key, m.width as int, m.height as int) == Ok::<
            (Seq<u32>, int),
            DecodeError,
        >((m.elems, pos + enc_keyed_matrix(key, m).len())),
{
    let e = enc_keyed_matrix(key, m);
    let en = enc_name(key);
    let em = enc_matrix(m);
    assert(b.subrange(pos, pos + en.len()) =~= en) by {
        assert forall|j: int| 0 <= j < en.len() implies b.subrange(
            pos,
            pos + en.len() as int,
        )[j] == en[j] by {
            assert(b.subrange(pos, pos + e.len() as int)[j] == (en + em)[j]);
        }
    }
    lemma_rt_name(b, pos, key);
    let p1 = pos + en.len() as int;
    assert(b.subrange(p1, p1 + em.len()) =~= em) by {
        assert forall|j: int| 0 <= j < em.len() implies b.subrange(
            p1,
            p1 + em.len() as int,
        )[j] == em[j] by {
            assert(b.subrange(pos, pos + e.len() as int)[en.len() + j] == (en + em)[en.len() + j]);
        }
    }
    lemma_rt_matrix(b, p1, m);
}

proof fn lemma_keys_fit()
    ensures
        name_len_ok(key_l0_bias()),
        name_len_ok(key_l0_kernel()),
        name_len_ok(key_l1_bias()),
        name_len_ok(key_l1_kernel()),
        name_len_ok(key_l2_bias()),
        name_len_ok(key_l2_kernel()),
{
    reveal_strlit("dense/bias:0");
    reveal_strlit("dense/kernel:0");
    reveal_strlit("dense_1/bias:0");
    reveal_strlit("dense_1/kernel:0");
    reveal_strlit("dense_2/bias:0");
    reveal_strlit("dense_2/kernel:0");
    lemma_encode_utf8_len(key_l0_bias());
    lemma_encode_utf8_len(key_l0_kernel());
    lemma_encode_utf8_len(key_l1_bias());
    lemma_encode_utf8_len(key_l1_kernel());
    lemma_encode_utf8_len(key_l2_bias());
    lemma_encode_utf8_len(key_l2_kernel());
}

spec fn rv_m0(v: RecordView) -> MatView {
    MatView { width: v.l0_bias.len(), height: v.fields.len(), elems: v.l0_kernel }
}

spec fn rv_m1(v: RecordView) -> MatView {
    MatView { width: v.l1_bias.len(), height: v.l0_bias.len(), elems: v.l1_kernel }
}

spec fn rv_m2(v: RecordView) -> MatView {
    MatView { width: v.l2_bias.len(), height: v.l1_bias.len(), elems: v.l2_kernel }
}

spec fn off1(v: RecordView) -> int {
    enc_names(v.fields).len() as int
}

spec fn off2(v: RecordView) -> int {
    off1(v) + 4
}

spec fn off3(v: RecordView) -> int {
    off2(v) + enc_pairs(v.mean).len()
}

spec fn off4(v: RecordView) -> int {
    off3(v) + enc_pairs(v.std).len()
}

spec fn off5(v: RecordView) -> int {
    off4(v) + enc_keyed_bias(key_l0_bias(), v.l0_bias).len()
}

spec fn off6(v: RecordView) -> int {
    off5(v) + enc_keyed_bias(key_l1_bias(), v.l1_bias).len()
}

spec fn off7(v: RecordView) -> int {
    off6(v) + enc_keyed_bias(key_l2_bias(), v.l2_bias).len()
}

spec fn off8(v: RecordView) -> int {
    off7(v) + enc_keyed_matrix(key_l0_kernel(), rv_m0(v)).len()
}

spec fn off9(v: RecordView) -> int {
    off8(v) + enc_keyed_matrix(key_l1_kernel(), rv_m1(v)).len()
}

spec fn off10(v: RecordView) -> int {
    off9(v) + enc_keyed_matrix(key_l2_kernel(), rv_m2(v)).len()
}

#[verifier::rlimit(100)]
proof fn lemma_record_layout_front(v: RecordView)
    ensures
        enc_record(v).len() == off10(v),
        enc_record(v).subrange(0, off1(v)) == enc_names(v.fields),
        enc_record(v).subrange(off1(v), off2(v)) == le4(v.alpha),
        enc_record(v).subrange(off2(v), off3(v)) == enc_pairs(v.mean),
        enc_record(v).subrange(off3(v), off4(v)) == enc_pairs(v.std),
        enc_record(v).subrange(off4(v), off5(v)) == enc_keyed_bias(key_l0_bias(), v.l0_bias),
{
    let b = enc_record(v);
    assert(b.subrange(0, off1(v)) =~= enc_names(v.fields));
    assert(b.subrange(off1(v), off2(v)) =~= le4(v.alpha));
    assert(b.subrange(off2(v), off3(v)) =~= enc_pairs(v.mean));
    assert(b.subrange(off3(v), off4(v)) =~= enc_pairs(v.std));
    assert(b.subrange(off4(v), off5(v)) =~= enc_keyed_bias(key_l0_bias(), v.l0_bias));
}

#[verifier::rlimit(100)]
proof fn lemma_record_layout_back(v: RecordView)
    ensures
        enc_record(v).subrange(off5(v), off6(v)) == enc_keyed_bias(key_l1_bias(), v.l1_bias),
        enc_record(v).subrange(off6(v), off7(v)) == enc_keyed_bias(key_l2_bias(), v.l2_bias),
        enc_record(v).subrange(off7(v), off8(v)) == enc_keyed_matrix(key_l0_kernel(), rv_m0(v)),
        enc_record(v).subrange(off8(v), off9(v)) == enc_keyed_matrix(key_l1_kernel(), rv_m1(v)),
        enc_record(v).subrange(off9(v), off10(v)) == enc_keyed_matrix(key_l2_kernel(), rv_m2(v)),
{
    let b = enc_record(v);
    assert(b.subrange(off5(v), off6(v)) =~= enc_keyed_bias(key_l1_bias(), v.l1_bias));
    assert(b.subrange(off6(v), off7(v)) =~= enc_keyed_bias(key_l2_bias(), v.l2_bias));
    assert(b.subrange(off7(v), off8(v)) =~= enc_keyed_matrix(key_l0_kernel(), rv_m0(v)));
    assert(b.subrange(off8(v), off9(v)) =~= enc_keyed_matrix(key_l1_kernel(), rv_m1(v)));
    assert(b.subrange(off9(v), off10(v)) =~= enc_keyed_matrix(key_l2_kernel(), rv_m2(v)));
}

/// The round-trip law for whole containers: decoding an encoded record
/// returns exactly the original record, bit for bit, and consumes exactly
/// its encoding.
#[verifier::rlimit(100)]
pub proof fn lemma_record_round_trip(v: RecordView)
    requires
        rec_sizes_ok(v),
    ensures
        sd_record(enc_record(v), 0) == Ok::<(RecordView, int), DecodeError>((
            v,
            enc_record(v).len() as int,
        )),
{
    let b = enc_record(v);
    lemma_record_layout_front(v);
    lemma_record_layout_back(v);
    lemma_keys_fit();
    lemma_rt_names(b, 0, v.fields);
    lemma_rt_u32(b, off1(v), v.alpha);
    lemma_rt_pairs(b, off2(v), v.mean);
    lemma_rt_pairs(b, off3(v), v.std);
    lemma_rt_keyed_bias(b, off4(v), key_l0_bias(), v.l0_bias);
    lemma_rt_keyed_bias(b, off5(v), key_l1_bias(), v.l1_bias);
    lemma_rt_keyed_bias(b, off6(v), key_l2_bias(), v.l2_bias);
    lemma_rt_keyed_matrix(b, off7(v), key_l0_kernel(), rv_m0(v));
    lemma_rt_keyed_matrix(b, off8(v), key_l1_kernel(), rv_m1(v));
    lemma_rt_keyed_matrix(b, off9(v), key_l2_kernel(), rv_m2(v));
    assert(sd_record(b, 0) matches Ok(t) && t.0 =~= v && t.1 == off10(v));
}

} // verus!
