use vstd::prelude::*;

use crate::error::SonicPipeError;
use crate::protocol::{be32_val, spec_be32, lemma_be32_round_trip};

verus! {

/// Data shards of the fixed Reed-Solomon code.
pub const ECC_DATA_SHARDS: usize = 8;

/// Parity shards of the fixed Reed-Solomon code.
pub const ECC_PARITY_SHARDS: usize = 4;

/// The length-prefixed LZ4 compression of a byte sequence: a little-endian
/// `u32` holding the input length, then the LZ4 block body. The value is a
/// function of the input bytes alone and is only named here.
pub uninterp spec fn lz4_framed_of(data: Seq<u8>) -> Seq<u8>;

#[verifier::external_type_specification]
#[verifier::external_body]
pub struct ExDecompressError(lz4_flex::block::DecompressError);

/// Relies on `lz4_flex::compress_prepend_size`: the LZ4 block compression of
/// the input with the input length prepended as a little-endian `u32`; the
/// result is deterministic in the input bytes and holds at least the 4
/// prefix bytes.
#[verifier::external_body]
fn lz4_compress(data: &[u8]) -> (r: Vec<u8>)
    requires
        data@.len() <= u32::MAX,
    ensures
        r@ == lz4_framed_of(data@),
        r@.len() >= 4,
{
    lz4_flex::compress_prepend_size(data)
}

/// Relies on `lz4_flex::decompress_size_prepended`: the inverse of
/// `compress_prepend_size`, so on any output of the compressor it returns
/// the compressor's input.
#[verifier::external_body]
fn lz4_decompress(data: &[u8]) -> (r: Result<Vec<u8>, lz4_flex::block::DecompressError>)
    ensures
        match r {
            Ok(v) => forall|y: Seq<u8>|
                y.len() <= u32::MAX && data@ == #[trigger] lz4_framed_of(y) ==> v@ == y,
            Err(_) => forall|y: Seq<u8>|
                y.len() <= u32::MAX ==> data@ != #[trigger] lz4_framed_of(y),
        },
{
    lz4_flex::decompress_size_prepended(data)
}

/// Length-prefixed LZ4 compression of the bytes.
pub fn compress(data: &[u8]) -> (r: Vec<u8>)
    requires
        data@.len() <= u32::MAX,
    ensures
        r@ == lz4_framed_of(data@),
        r@.len() >= 4,
{
    lz4_compress(data)
}

/// Inverse of `compress`: on any compressor output it returns the original
/// bytes; on malformed input it reports a compression error.
pub fn decompress(data: &[u8]) -> (r: Result<Vec<u8>, SonicPipeError>)
    ensures
        forall|y: Seq<u8>|
            y.len() <= u32::MAX && data@ == #[trigger] lz4_framed_of(y) ==> r is Ok,
        r matches Ok(v) ==> forall|y: Seq<u8>|
            y.len() <= u32::MAX && data@ == #[trigger] lz4_framed_of(y) ==> v@ == y,
        r matches Err(e) ==> e == SonicPipeError::Compression,
{
    match lz4_decompress(data) {
        Ok(v) => Ok(v),
        Err(_) => Err(SonicPipeError::Compression),
    }
}

#[verifier::external_type_specification]
#[verifier::external_body]
pub struct ExRsError(reed_solomon_erasure::Error);

/// Carries the outside Reed-Solomon codec; its contents are opaque to the
/// verifier, which sees it only through `rs_data_count` and
/// `rs_parity_count`.
#[verifier::external_body]
pub struct RsCodecHandle {
    rs: reed_solomon_erasure::galois_8::ReedSolomon,
}

/// The number of data shards a Reed-Solomon codec was created with.
pub uninterp spec fn rs_data_count(rs: RsCodecHandle) -> nat;

/// The number of parity shards a Reed-Solomon codec was created with.
pub uninterp spec fn rs_parity_count(rs: RsCodecHandle) -> nat;

/// Byte `j` of parity shard `i` computed over the given data shards by the
/// GF(2^8) Reed-Solomon code with `parity_count` parity shards. The value is
/// a function of its arguments alone and is only named here.
pub uninterp spec fn rs_parity_byte(
    datas: Seq<Seq<u8>>,
    parity_count: nat,
    i: int,
    j: int,
) -> u8;

/// Relies on `ReedSolomon::new`: succeeds exactly when both shard counts are
/// positive and their sum is within the GF(2^8) field order.
#[verifier::external_body]
fn rs_new_codec(data_shards: usize, parity_shards: usize) -> (r: Result<
    RsCodecHandle,
    reed_solomon_erasure::Error,
>)
    requires
        data_shards + parity_shards <= usize::MAX,
    ensures
        r is Ok <==> (data_shards >= 1 && parity_shards >= 1 && data_shards + parity_shards
            <= 256),
        r matches Ok(rs) ==> rs_data_count(rs) == data_shards && rs_parity_count(rs)
            == parity_shards,
{
    match reed_solomon_erasure::ReedSolomon::new(data_shards, parity_shards) {
        Ok(rs) => Ok(RsCodecHandle { rs }),
        Err(e) => Err(e),
    }
}

/// Relies on `ReedSolomon::encode`: succeeds exactly when the shard count
/// matches the codec and all shards share one positive length; it then
/// overwrites the parity slots from the data shards and touches nothing
/// else, and on error it touches nothing.
#[verifier::external_body]
fn rs_encode_shards(rs: &RsCodecHandle, shards: &mut Vec<Vec<u8>>) -> (r: Result<
    (),
    reed_solomon_erasure::Error,
>)
    ensures
        ({
            let d = rs_data_count(*rs) as int;
            let p = rs_parity_count(*rs) as int;
            let n = old(shards)@.len() as int;
            let s = old(shards)@[0]@.len() as int;
            let datas = Seq::new(rs_data_count(*rs), |i: int| old(shards)@[i]@);
            &&& (r is Ok <==> (n == d + p && s > 0 && (forall|i: int|
                0 <= i < n ==> (#[trigger] old(shards)@[i]@).len() == s)))
            &&& (r is Ok ==> {
                &&& final(shards)@.len() == n
                &&& (forall|i: int|
                    0 <= i < d ==> #[trigger] final(shards)@[i]@ == old(shards)@[i]@)
                &&& (forall|i: int|
                    d <= i < n ==> #[trigger] final(shards)@[i]@ == Seq::new(
                        s as nat,
                        |j: int| rs_parity_byte(datas, rs_parity_count(*rs), i - d, j),
                    ))
            })
            &&& (r is Err ==> final(shards)@ == old(shards)@)
        }),
{
    rs.rs.encode(&mut shards[..])
}

/// Relies on `ReedSolomon::reconstruct`: when every shard is present with
/// one shared positive length it has nothing to reconstruct and returns
/// without touching the shards; a shared length of zero is rejected; and on
/// any error nothing is touched.
#[verifier::external_body]
fn rs_reconstruct_shards(rs: &RsCodecHandle, shards: &mut Vec<Option<Vec<u8>>>) -> (r: Result<
    (),
    reed_solomon_erasure::Error,
>)
    ensures
        ({
            let d = rs_data_count(*rs) as int;
            let p = rs_parity_count(*rs) as int;
            let n = old(shards)@.len() as int;
            let all_present = forall|i: int|
                0 <= i < n ==> ((#[trigger] old(shards)@[i]) matches Some(v) && v@.len()
                    == old(shards)@[0]->0@.len());
            &&& ((n == d + p && all_present && old(shards)@[0]->0@.len() > 0) ==> (r is Ok
                && final(shards)@ == old(shards)@))
            &&& ((n == d + p && all_present && old(shards)@[0]->0@.len() == 0) ==> r is Err)
            &&& (r is Err ==> final(shards)@ == old(shards)@)
        }),
{
    rs.rs.reconstruct(&mut shards[..])
}

/// The bytes of a shard sequence laid end to end.
pub open spec fn concat_shards(sh: Seq<Seq<u8>>) -> Seq<u8>
    decreases sh.len(),
{
    if sh.len() == 0 {
        Seq::empty()
    } else {
        concat_shards(sh.drop_last()) + sh.last()
    }
}

/// Concatenating one more shard appends its bytes.
pub proof fn lemma_concat_shards_snoc(sh: Seq<Seq<u8>>, i: int)
    requires
        0 <= i < sh.len(),
    ensures
        concat_shards(sh.take(i + 1)) == concat_shards(sh.take(i)) + sh[i],
{
    assert(sh.take(i + 1).drop_last() =~= sh.take(i));
    assert(sh.take(i + 1).last() == sh[i]);
}

/// Multiplying out one more factor: `(i + 1) * s` extends `i * s` by `s`,
/// and multiples of a non-negative `s` are ordered.
pub proof fn lemma_mul_step(i: int, s: int)
    requires
        0 <= i,
        0 <= s,
    ensures
        (i + 1) * s == i * s + s,
        0 <= i * s,
{
    assert((i + 1) * s == i * s + s && 0 <= i * s) by (nonlinear_arith)
        requires 0 <= i, 0 <= s;
}

/// Multiplication by a non-negative factor keeps the order.
pub proof fn lemma_mul_le(i: int, j: int, s: int)
    requires
        0 <= i <= j,
        0 <= s,
    ensures
        i * s <= j * s,
{
    assert(i * s <= j * s) by (nonlinear_arith)
        requires 0 <= i <= j, 0 <= s;
}

/// Length and contents of a concatenation of shards of one length.
pub proof fn lemma_concat_shards_uniform(sh: Seq<Seq<u8>>, s: int)
    requires
        s > 0,
        forall|i: int| 0 <= i < sh.len() ==> (#[trigger] sh[i]).len() == s,
    ensures
        concat_shards(sh).len() == sh.len() * s,
        forall|k: int|
            0 <= k < sh.len() * s ==> #[trigger] concat_shards(sh)[k] == sh[k / s][k % s],
    decreases sh.len(),
{
    if sh.len() == 0 {
    } else {
        let n = sh.len() as int;
        let head = sh.drop_last();
        assert(forall|i: int| 0 <= i < head.len() ==> (#[trigger] head[i]).len() == s);
        lemma_concat_shards_uniform(head, s);
        lemma_mul_step(n - 1, s);
        assert forall|k: int| 0 <= k < n * s implies #[trigger] concat_shards(sh)[k] == sh[k / s][k
            % s] by {
            if k < (n - 1) * s {
                assert(concat_shards(sh)[k] == concat_shards(head)[k]);
                assert(0 <= k / s) by {
                    vstd::arithmetic::div_mod::lemma_div_pos_is_pos(k, s);
                }
                assert(k / s < n - 1) by {
                    assert((n - 1) * s == s * (n - 1)) by (nonlinear_arith);
                    vstd::arithmetic::div_mod::lemma_multiply_divide_lt(k, s, n - 1);
                }
                assert(concat_shards(head)[k] == head[k / s][k % s]);
                assert(head[k / s] == sh[k / s]);
            } else {
                assert(concat_shards(sh)[k] == sh.last()[k - (n - 1) * s]);
                vstd::arithmetic::div_mod::lemma_fundamental_div_mod_converse(
                    k, s, n - 1, k - (n - 1) * s);
                assert(k / s == n - 1 && k % s == k - (n - 1) * s);
            }
        }
    }
}

/// The shard size for a payload length: the smallest size whose eight data
/// shards cover the payload.
pub open spec fn spec_shard_size(len: int) -> int {
    (len + 7) / 8
}

/// The payload zero-padded to `total` bytes.
pub open spec fn spec_padded(data: Seq<u8>, total: int) -> Seq<u8> {
    Seq::new(total as nat, |j: int| if j < data.len() { data[j] } else { 0u8 })
}

/// The eight data shards: contiguous slices of the zero-padded payload.
pub open spec fn spec_data_shards(data: Seq<u8>, s: int) -> Seq<Seq<u8>> {
    Seq::new(8, |i: int| spec_padded(data, 8 * s).subrange(i * s, (i + 1) * s))
}

/// The four parity shards over the given data shards.
pub open spec fn spec_parity_shards(datas: Seq<Seq<u8>>, s: int) -> Seq<Seq<u8>> {
    Seq::new(4, |i: int| Seq::new(s as nat, |j: int| rs_parity_byte(datas, 4, i, j)))
}

/// The twelve-shard codeword of a payload.
pub open spec fn spec_codeword(data: Seq<u8>) -> Seq<Seq<u8>> {
    let s = spec_shard_size(data.len() as int);
    spec_data_shards(data, s) + spec_parity_shards(spec_data_shards(data, s), s)
}

/// Every shard of the codeword has the shard size of its payload.
pub proof fn lemma_codeword_uniform(data: Seq<u8>, s: int)
    requires
        s == spec_shard_size(data.len() as int),
        0 <= s,
    ensures
        spec_codeword(data).len() == 12,
        forall|i: int| 0 <= i < 12 ==> (#[trigger] spec_codeword(data)[i]).len() == s,
        forall|i: int| 0 <= i < 8 ==> #[trigger] spec_codeword(data)[i]
            == spec_data_shards(data, s)[i],
{
    let cw = spec_codeword(data);
    assert forall|i: int| 0 <= i < 12 implies (#[trigger] cw[i]).len() == s by {
        if i < 8 {
            lemma_mul_step(i, s);
            lemma_mul_le(i + 1, 8, s);
            assert(cw[i] == spec_padded(data, 8 * s).subrange(i * s, (i + 1) * s));
        } else {
            assert(cw[i] == spec_parity_shards(spec_data_shards(data, s), s)[i - 8]);
        }
    }
}

/// Every data shard has the shard size as its length.
pub proof fn lemma_data_shard_len(data: Seq<u8>, s: int, i: int)
    requires
        0 <= s,
        0 <= i < 8,
    ensures
        spec_data_shards(data, s)[i].len() == s,
{
    lemma_mul_step(i, s);
    lemma_mul_le(i + 1, 8, s);
    assert(spec_data_shards(data, s)[i] == spec_padded(data, 8 * s).subrange(
        i * s, (i + 1) * s));
}

/// The byte at offset `i * s + j` of a data shard is the padded payload byte.
pub proof fn lemma_data_shard_index(data: Seq<u8>, s: int, i: int, j: int)
    requires
        0 <= s,
        0 <= i < 8,
        0 <= j < s,
    ensures
        spec_data_shards(data, s)[i].len() == s,
        spec_data_shards(data, s)[i][j] == spec_padded(data, 8 * s)[i * s + j],
{
    lemma_data_shard_len(data, s, i);
    lemma_mul_step(i, s);
    lemma_mul_le(i + 1, 8, s);
    assert(spec_data_shards(data, s)[i] == spec_padded(data, 8 * s).subrange(
        i * s, (i + 1) * s));
}

/// The encoded block: `original_len || shard_size`, big-endian, then the
/// twelve shards laid end to end.
pub open spec fn spec_rs_encode(data: Seq<u8>) -> Seq<u8> {
    let s = spec_shard_size(data.len() as int);
    spec_be32(data.len() as u32) + spec_be32(s as u32) + concat_shards(spec_codeword(data))
}

/// The decode of an encoded block: the error the decoder reports, or the
/// first eight shards laid end to end and cut to the recorded length.
pub open spec fn spec_rs_decode(e: Seq<u8>) -> Result<Seq<u8>, SonicPipeError> {
    if e.len() < 8 {
        Err(SonicPipeError::ErrorCorrection)
    } else {
        let orig = be32_val(e[0], e[1], e[2], e[3]);
        let s = be32_val(e[4], e[5], e[6], e[7]);
        if e.len() < 8 + 12 * s {
            Err(SonicPipeError::ErrorCorrection)
        } else if s == 0 {
            Err(SonicPipeError::ErrorCorrection)
        } else {
            Ok(e.subrange(8, 8 + 8 * s).take(vstd::math::min(orig, 8 * s)))
        }
    }
}

/// The fixed 8-data, 4-parity Reed-Solomon codec over GF(2^8).
pub struct ReedSolomonCodec {
    rs: RsCodecHandle,
    data_shards: usize,
    parity_shards: usize,
}

impl ReedSolomonCodec {
    /// The codec carries the fixed shard counts.
    pub closed spec fn wf(self) -> bool {
        &&& self.data_shards == 8
        &&& self.parity_shards == 4
        &&& rs_data_count(self.rs) == 8
        &&& rs_parity_count(self.rs) == 4
    }

    /// Creates the codec; with the fixed shard counts this always succeeds.
    pub fn new() -> (r: Result<ReedSolomonCodec, SonicPipeError>)
        ensures
            r matches Ok(c) && c.wf(),
    {
        match rs_new_codec(ECC_DATA_SHARDS, ECC_PARITY_SHARDS) {
            Ok(rs) => Ok(ReedSolomonCodec {
                rs,
                data_shards: ECC_DATA_SHARDS,
                parity_shards: ECC_PARITY_SHARDS,
            }),
            Err(_) => vstd::pervasive::unreached(),
        }
    }

    /// Encodes a payload: slices it into eight zero-padded data shards,
    /// computes four parity shards, and emits the header and all shards.
    /// Only an empty payload is rejected.
    pub fn encode(&self, data: &[u8]) -> (r: Result<Vec<u8>, SonicPipeError>)
        requires
            self.wf(),
            data@.len() < 0x80000000,
        ensures
            data@.len() == 0 ==> (r matches Err(e) && e == SonicPipeError::ErrorCorrection),
            data@.len() > 0 ==> (r matches Ok(v) && v@ == spec_rs_encode(data@)),
    {
        let len = data.len();
        let shard_size: usize = ((len as u64 + 7) / 8) as usize;
        let ghost s = spec_shard_size(len as int);
        proof {
            assert(shard_size == s);
            assert(8 * s <= len + 7 && len <= 8 * s) by {
                vstd::arithmetic::div_mod::lemma_fundamental_div_mod(len as int + 7, 8);
                vstd::arithmetic::div_mod::lemma_mod_bound(len as int + 7, 8);
            }
        }
        let ghost dshards = spec_data_shards(data@, s);
        let mut shards: Vec<Vec<u8>> = Vec::new();
        let mut i: usize = 0;
        while i < ECC_DATA_SHARDS
            invariant
                i <= 8,
                shards@.len() == i,
                forall|k: int| 0 <= k < i ==> (#[trigger] shards@[k])@ == dshards[k],
                self.wf(),
                data@.len() < 0x80000000,
                shard_size == s,
                s == spec_shard_size(data@.len() as int),
                dshards == spec_data_shards(data@, s),
                8 * s <= data@.len() + 7,
                data@.len() <= 8 * s,
                len == data@.len(),
            decreases 8 - i,
        {
            proof {
                assert(i * shard_size + shard_size <= 8 * s) by (nonlinear_arith)
                    requires i < 8, shard_size == s, s >= 0;
                assert(i * s >= 0) by (nonlinear_arith)
                    requires i >= 0, s >= 0;
            }
            let mut shard: Vec<u8> = Vec::new();
            let mut j: usize = 0;
            while j < shard_size
                invariant
                    j <= shard_size,
                    i < 8,
                    shard@ == dshards[i as int].take(j as int),
                    dshards == spec_data_shards(data@, s),
                    shard_size == s,
                    0 <= i * s,
                    i * s + s <= 8 * s,
                    8 * s <= data@.len() + 7,
                    data@.len() < 0x80000000,
                    len == data@.len(),
                decreases shard_size - j,
            {
                let idx: usize = i * shard_size + j;
                let b: u8 = if idx < len {
                    data[idx]
                } else {
                    0
                };
                proof {
                    let ii = i as int;
                    let jj = j as int;
                    lemma_data_shard_index(data@, s, ii, jj);
                    assert(dshards[ii].take(jj + 1) =~= dshards[ii].take(jj).push(
                        dshards[ii][jj]));
                }
                shard.push(b);
                j = j + 1;
            }
            proof {
                lemma_data_shard_len(data@, s, i as int);
                assert(dshards[i as int].take(s) =~= dshards[i as int]);
            }
            shards.push(shard);
            i = i + 1;
        }
        let mut k: usize = 0;
        while k < ECC_PARITY_SHARDS
            invariant
                k <= 4,
                shards@.len() == 8 + k,
                forall|t: int| 0 <= t < 8 ==> (#[trigger] shards@[t])@ == dshards[t],
                forall|t: int| 8 <= t < 8 + k ==> (#[trigger] shards@[t])@ == Seq::new(
                    s as nat, |j: int| 0u8),
                self.wf(),
                shard_size == s,
                s == spec_shard_size(data@.len() as int),
                dshards == spec_data_shards(data@, s),
                8 * s <= data@.len() + 7,
                data@.len() <= 8 * s,
                data@.len() < 0x80000000,
                len == data@.len(),
            decreases 4 - k,
        {
            let mut zshard: Vec<u8> = Vec::new();
            let mut j: usize = 0;
            while j < shard_size
                invariant
                    j <= shard_size,
                    zshard@ =~= Seq::new(j as nat, |t: int| 0u8),
                decreases shard_size - j,
            {
                zshard.push(0);
                proof {
                    assert(zshard@ =~= Seq::new(j as nat + 1, |t: int| 0u8));
                }
                j = j + 1;
            }
            shards.push(zshard);
            k = k + 1;
        }
        let ghost before = shards@;
        proof {
            assert forall|t: int| 0 <= t < 12 implies (#[trigger] before[t])@.len() == s by {
                if t < 8 {
                    lemma_data_shard_len(data@, s, t);
                }
            }
        }
        let enc_result = rs_encode_shards(&self.rs, &mut shards);
        if len == 0 {
            proof {
                assert(s == 0);
                assert(before[0]@.len() == 0);
                assert(enc_result is Err);
            }
            return Err(SonicPipeError::ErrorCorrection);
        }
        match enc_result {
            Err(_) => {
                proof {
                    assert(s > 0) by {
                        vstd::arithmetic::div_mod::lemma_div_is_ordered(
                            8, len as int + 7, 8);
                    }
                    assert(false);
                }
                Err(SonicPipeError::ErrorCorrection)
            },
            Ok(()) => {
                let ghost codeword = spec_codeword(data@);
                proof {
                    assert(s > 0) by {
                        vstd::arithmetic::div_mod::lemma_div_is_ordered(
                            8, len as int + 7, 8);
                    }
                    let datas = Seq::new(8nat, |t: int| before[t]@);
                    assert(datas =~= dshards);
                    lemma_codeword_uniform(data@, s);
                    assert forall|t: int| 0 <= t < 12 implies (#[trigger] shards@[t])@
                        == codeword[t] by {
                        if t < 8 {
                            assert(shards@[t]@ == before[t]@);
                        } else {
                            assert(shards@[t]@ == Seq::new(
                                s as nat, |j: int| rs_parity_byte(datas, 4, t - 8, j)));
                            assert(codeword[t] == spec_parity_shards(dshards, s)[t - 8]);
                        }
                    }
                }
                let mut out: Vec<u8> = crate::protocol::be32_bytes(len as u32);
                let second = crate::protocol::be32_bytes(shard_size as u32);
                let mut t: usize = 0;
                while t < second.len()
                    invariant
                        t <= second@.len(),
                        out@ == spec_be32(len as u32) + second@.take(t as int),
                        second@ == spec_be32(s as u32),
                        len == data@.len(),
                        s == spec_shard_size(data@.len() as int),
                    decreases second@.len() - t,
                {
                    out.push(second[t]);
                    proof {
                        assert(out@ =~= spec_be32(len as u32) + second@.take(t as int + 1));
                    }
                    t = t + 1;
                }
                let ghost header = spec_be32(len as u32) + spec_be32(s as u32);
                proof {
                    assert(second@.take(second@.len() as int) =~= second@);
                }
                let mut si: usize = 0;
                while si < shards.len()
                    invariant
                        si <= shards@.len(),
                        shards@.len() == 12,
                        forall|t: int| 0 <= t < 12 ==> (#[trigger] shards@[t])@ == codeword[t],
                        codeword == spec_codeword(data@),
                        out@ == header + concat_shards(codeword.take(si as int)),
                        header == spec_be32(len as u32) + spec_be32(s as u32),
                        len == data@.len(),
                        s == spec_shard_size(data@.len() as int),
                    decreases shards@.len() - si,
                {
                    let sh = &shards[si];
                    let mut j: usize = 0;
                    while j < sh.len()
                        invariant
                            j <= sh@.len(),
                            si < 12,
                            sh@ == codeword[si as int],
                            out@ == header + concat_shards(codeword.take(si as int))
                                + sh@.take(j as int),
                        decreases sh@.len() - j,
                    {
                        out.push(sh[j]);
                        proof {
                            assert(out@ =~= header + concat_shards(codeword.take(si as int))
                                + sh@.take(j as int + 1));
                        }
                        j = j + 1;
                    }
                    proof {
                        assert(sh@.take(sh@.len() as int) =~= sh@);
                        lemma_concat_shards_snoc(codeword, si as int);
                        assert(out@ =~= header + concat_shards(codeword.take(si as int + 1)));
                    }
                    si = si + 1;
                }
                proof {
                    assert(codeword.take(12) =~= codeword);
                    assert(out@ =~= spec_rs_encode(data@));
                }
                Ok(out)
            },
        }
    }

    /// Decodes an encoded block: checks the header against the buffer,
    /// presents all twelve shards to the reconstructor, and returns the data
    /// shards cut to the recorded length.
    pub fn decode(&self, encoded: &[u8]) -> (r: Result<Vec<u8>, SonicPipeError>)
        requires
            self.wf(),
        ensures
            match spec_rs_decode(encoded@) {
                Ok(d) => r matches Ok(v) && v@ == d,
                Err(e) => r matches Err(e2) && e2 == e,
            },
    {
        let elen: usize = encoded.len();
        if elen < 8 {
            return Err(SonicPipeError::ErrorCorrection);
        }
        let orig: u32 = (encoded[0] as u32) * 0x1000000 + (encoded[1] as u32) * 0x10000
            + (encoded[2] as u32) * 256 + (encoded[3] as u32);
        let s32: u32 = (encoded[4] as u32) * 0x1000000 + (encoded[5] as u32) * 0x10000
            + (encoded[6] as u32) * 256 + (encoded[7] as u32);
        if (elen as u64) < 8 + 12 * (s32 as u64) {
            return Err(SonicPipeError::ErrorCorrection);
        }
        let s: usize = s32 as usize;
        let mut shards: Vec<Option<Vec<u8>>> = Vec::new();
        let mut i: usize = 0;
        proof {
            assert(12 * (s as int) == 12 * (s32 as int));
        }
        while i < 12
            invariant
                i <= 12,
                shards@.len() == i,
                8 + 12 * (s as int) <= elen,
                elen == encoded@.len(),
                forall|k: int| 0 <= k < i ==> ((#[trigger] shards@[k]) matches Some(v) && v@
                    == encoded@.subrange(8 + k * s, 8 + k * s + s)),
            decreases 12 - i,
        {
            proof {
                lemma_mul_step(i as int, s as int);
                lemma_mul_le(i as int + 1, 12, s as int);
            }
            let start: usize = 8 + i * s;
            let piece = vstd::slice::slice_subrange(encoded, start, start + s);
            shards.push(Some(vstd::slice::slice_to_vec(piece)));
            i = i + 1;
        }
        let ghost before = shards@;
        proof {
            assert forall|k: int| 0 <= k < 12 implies ((#[trigger] before[k]) matches Some(v)
                && v@.len() == s) by {
                lemma_mul_step(k, s as int);
                lemma_mul_le(k + 1, 12, s as int);
                assert(shards@[k] matches Some(v) && v@ == encoded@.subrange(
                    8 + k * s, 8 + k * s + s));
            }
            assert(before[0]->0@.len() == s);
        }
        let rec = rs_reconstruct_shards(&self.rs, &mut shards);
        match rec {
            Err(_) => {
                proof {
                    assert(s == 0);
                }
                Err(SonicPipeError::ErrorCorrection)
            },
            Ok(()) => {
                proof {
                    assert(s > 0);
                }
                let mut result: Vec<u8> = Vec::new();
                let mut k: usize = 0;
                while k < ECC_DATA_SHARDS
                    invariant
                        k <= 8,
                        shards@ == before,
                        shards@.len() == 12,
                        8 + 12 * (s as int) <= elen,
                        elen == encoded@.len(),
                        forall|t: int| 0 <= t < 12 ==> ((#[trigger] before[t]) matches Some(v)
                            && v@ == encoded@.subrange(8 + t * s, 8 + t * s + s)),
                        result@ == encoded@.subrange(8, 8 + k * s),
                    decreases 8 - k,
                {
                    proof {
                        lemma_mul_step(k as int, s as int);
                        lemma_mul_le(k as int + 1, 12, s as int);
                    }
                    match &shards[k] {
                        Some(shard) => {
                            let mut j: usize = 0;
                            while j < shard.len()
                                invariant
                                    j <= shard@.len(),
                                    k < 8,
                                    shard@ == encoded@.subrange(
                                        8 + k * s, 8 + k * s + s),
                                    shard@.len() == s,
                                    8 + 12 * (s as int) <= elen,
                                    elen == encoded@.len(),
                                    result@ == encoded@.subrange(8, 8 + k * s)
                                        + shard@.take(j as int),
                                decreases shard@.len() - j,
                            {
                                result.push(shard[j]);
                                proof {
                                    assert(result@ =~= encoded@.subrange(8, 8 + k as int * s)
                                        + shard@.take(j as int + 1));
                                }
                                j = j + 1;
                            }
                            proof {
                                assert(shard@.take(s as int) =~= shard@);
                                lemma_mul_step(k as int, s as int);
                                assert(result@ =~= encoded@.subrange(
                                    8, 8 + (k as int + 1) * s));
                            }
                        },
                        None => {
                            proof {
                                assert(false);
                            }
                        },
                    }
                    k = k + 1;
                }
                proof {
                    lemma_mul_le(8, 12, s as int);
                }
                let take_len: usize = if (orig as u64) <= 8 * (s as u64) {
                    orig as usize
                } else {
                    8 * s
                };
                result.truncate(take_len);
                proof {
                    let d = spec_rs_decode(encoded@)->Ok_0;
                    assert(take_len == vstd::math::min(orig as int, 8 * (s as int)));
                    assert(result@ =~= d);
                }
                Ok(result)
            },
        }
    }
}

impl Default for ReedSolomonCodec {
    /// The codec with the fixed shard counts.
    fn default() -> (r: ReedSolomonCodec)
        ensures
            r.wf(),
    {
        match ReedSolomonCodec::new() {
            Ok(c) => c,
            Err(_) => vstd::pervasive::unreached(),
        }
    }
}

/// Reed-Solomon round trip without erasure: decoding an encoded block gives
/// back exactly the encoded payload.
pub proof fn lemma_rs_round_trip(data: Seq<u8>)
    requires
        1 <= data.len() < 0x80000000,
    ensures
        spec_rs_decode(spec_rs_encode(data)) == Ok::<_, SonicPipeError>(data),
{
    let len = data.len() as int;
    let s = spec_shard_size(len);
    let e = spec_rs_encode(data);
    let codeword = spec_codeword(data);
    assert(8 * s <= len + 7 && len <= 8 * s && s >= 1) by {
        vstd::arithmetic::div_mod::lemma_fundamental_div_mod(len + 7, 8);
        vstd::arithmetic::div_mod::lemma_mod_bound(len + 7, 8);
        vstd::arithmetic::div_mod::lemma_div_is_ordered(8, len + 7, 8);
    }
    lemma_codeword_uniform(data, s);
    lemma_concat_shards_uniform(codeword, s);
    assert(e.len() == 8 + 12 * s);
    lemma_be32_round_trip(len as u32);
    lemma_be32_round_trip(s as u32);
    assert(e[0] == spec_be32(len as u32)[0] && e[1] == spec_be32(len as u32)[1] && e[2]
        == spec_be32(len as u32)[2] && e[3] == spec_be32(len as u32)[3]);
    assert(e[4] == spec_be32(s as u32)[0] && e[5] == spec_be32(s as u32)[1] && e[6]
        == spec_be32(s as u32)[2] && e[7] == spec_be32(s as u32)[3]);
    assert(be32_val(e[0], e[1], e[2], e[3]) == len);
    assert(be32_val(e[4], e[5], e[6], e[7]) == s);
    lemma_mul_le(8, 12, s);
    let body = e.subrange(8, 8 + 8 * s);
    assert forall|k: int| 0 <= k < 8 * s implies body[k] == spec_padded(data, 8 * s)[k] by {
        assert(body[k] == concat_shards(codeword)[k]);
        assert(concat_shards(codeword)[k] == codeword[k / s][k % s]);
        assert(0 <= k / s < 8 && 0 <= k % s < s) by {
            vstd::arithmetic::div_mod::lemma_mod_bound(k, s);
            vstd::arithmetic::div_mod::lemma_div_pos_is_pos(k, s);
            assert(8 * s == s * 8) by (nonlinear_arith);
            vstd::arithmetic::div_mod::lemma_multiply_divide_lt(k, s, 8);
        }
        assert(codeword[k / s] == spec_data_shards(data, s)[k / s]);
        lemma_data_shard_index(data, s, k / s, k % s);
        assert((k / s) * s + k % s == k) by {
            vstd::arithmetic::div_mod::lemma_fundamental_div_mod(k, s);
        }
    }
    assert(vstd::math::min(len, 8 * s) == len);
    assert(body.take(len) =~= data);
    assert(spec_rs_decode(e) is Ok && spec_rs_decode(e)->Ok_0 == data);
}

} // verus!
