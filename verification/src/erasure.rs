//! Erasure coding of a payload into shards: the payload is framed and cut
//! into data shards, and a Reed-Solomon code adds the parity shards, so that
//! any set of as many shards as there are data shards gives the payload
//! back.

use vstd::prelude::*;
use vstd::arithmetic::div_mod::{
    lemma_fundamental_div_mod, lemma_fundamental_div_mod_converse, lemma_mod_bound,
};
use reed_solomon_erasure::galois_8::ReedSolomon;

verus! {

/// A Reed-Solomon codec of `reed_solomon_erasure` over bytes. Nothing is
/// known of what is inside.
#[verifier::external_body]
pub struct Codec {
    inner: ReedSolomon,
}

/// The number of data shards a codec was made for.
pub uninterp spec fn codec_data_shards(codec: Codec) -> nat;

/// The number of parity shards a codec was made for.
pub uninterp spec fn codec_parity_shards(codec: Codec) -> nat;

/// The parity shards that the code gives for `data`, `parity_shards` of
/// them.
pub uninterp spec fn rs_parity(data: Seq<Seq<u8>>, parity_shards: nat) -> Seq<Seq<u8>>;

/// All the shards as the code rebuilds them from those that are present,
/// the first `data_shards` of them being data shards.
pub uninterp spec fn rs_restored(shards: Seq<Option<Seq<u8>>>, data_shards: nat) -> Seq<Seq<u8>>;

/// Shards can be coded where there is a first one, it is not empty, and all
/// have its length.
pub open spec fn uniform(shards: Seq<Seq<u8>>) -> bool {
    &&& shards.len() > 0
    &&& shards[0].len() > 0
    &&& forall|i: int| 0 <= i < shards.len() ==> (#[trigger] shards[i]).len() == shards[0].len()
}

/// How many of the shards are present.
pub open spec fn present_count(shards: Seq<Option<Seq<u8>>>) -> nat
    decreases shards.len(),
{
    if shards.len() == 0 {
        0
    } else {
        present_count(shards.drop_last()) + if shards.last().is_some() {
            1nat
        } else {
            0nat
        }
    }
}

/// The shards that are present are not empty and have one length.
pub open spec fn present_uniform(shards: Seq<Option<Seq<u8>>>) -> bool {
    &&& forall|i: int|
        0 <= i < shards.len() && (#[trigger] shards[i]).is_some() ==> shards[i].unwrap().len() > 0
    &&& forall|i: int, j: int|
        0 <= i < shards.len() && 0 <= j < shards.len() && (#[trigger] shards[i]).is_some() && (
        #[trigger] shards[j]).is_some() ==> shards[i].unwrap().len() == shards[j].unwrap().len()
}

/// Every shard that is present is the shard of `full` at its position.
pub open spec fn agrees(shards: Seq<Option<Seq<u8>>>, full: Seq<Seq<u8>>) -> bool {
    &&& shards.len() == full.len()
    &&& forall|i: int|
        0 <= i < shards.len() && (#[trigger] shards[i]).is_some() ==> shards[i].unwrap() == full[i]
}

/// The data shards followed by the parity shards that the code gives for
/// them; the data shards alone where there is no parity shard.
pub open spec fn codeword(data: Seq<Seq<u8>>, parity_shards: nat) -> Seq<Seq<u8>> {
    if parity_shards == 0 {
        data
    } else {
        data + rs_parity(data, parity_shards)
    }
}

pub open spec fn shard_rows(v: Seq<Vec<u8>>) -> Seq<Seq<u8>> {
    v.map_values(|row: Vec<u8>| row@)
}

pub open spec fn shard_row(shard: Option<Vec<u8>>) -> Option<Seq<u8>> {
    match shard {
        Some(s) => Some(s@),
        None => None,
    }
}

pub open spec fn optional_rows(v: Seq<Option<Vec<u8>>>) -> Seq<Option<Seq<u8>>> {
    v.map_values(|shard: Option<Vec<u8>>| shard_row(shard))
}

/// Calls `ReedSolomon::new`, which makes a codec for the two counts, or
/// fails where one of them is zero or their sum is over 256, the order of
/// the field.
#[verifier::external_body]
fn new_codec(data_shards: usize, parity_shards: usize) -> (codec: Option<Codec>)
    requires
        data_shards + parity_shards <= usize::MAX,
    ensures
        codec.is_some() == (data_shards >= 1 && parity_shards >= 1 && data_shards + parity_shards
            <= 256),
        codec.is_some() ==> codec_data_shards(codec.unwrap()) == data_shards
            && codec_parity_shards(codec.unwrap()) == parity_shards,
{
    ReedSolomon::new(data_shards, parity_shards).ok().map(|inner| Codec { inner })
}

/// Calls `ReedSolomon::encode`, which overwrites the parity shards, those
/// after the data shards, with the parity of the data shards. It fails, and
/// then changes nothing, unless there are as many shards as the codec was
/// made for, the first is not empty and all have one length.
#[verifier::external_body]
fn fill_parity(codec: &Codec, shards: &mut Vec<Vec<u8>>) -> (done: bool)
    ensures
        done == (old(shards)@.len() == codec_data_shards(*codec) + codec_parity_shards(*codec)
            && uniform(shard_rows(old(shards)@))),
        done ==> shard_rows(final(shards)@) == shard_rows(old(shards)@).subrange(
            0,
            codec_data_shards(*codec) as int,
        ) + rs_parity(
            shard_rows(old(shards)@).subrange(0, codec_data_shards(*codec) as int),
            codec_parity_shards(*codec),
        ),
        done ==> final(shards)@.len() == old(shards)@.len() && uniform(shard_rows(final(shards)@))
            && shard_rows(final(shards)@)[0].len() == shard_rows(old(shards)@)[0].len(),
        !done ==> shard_rows(final(shards)@) == shard_rows(old(shards)@),
{
    codec.inner.encode(shards).is_ok()
}

/// Calls `ReedSolomon::verify`, which tells whether the parity shards are
/// the parity of the data shards. An error, which comes for shards that
/// `encode` would refuse, counts as no.
#[verifier::external_body]
fn parity_matches(codec: &Codec, shards: &Vec<Vec<u8>>) -> (ok: bool)
    ensures
        ok == (shards@.len() == codec_data_shards(*codec) + codec_parity_shards(*codec)
            && uniform(shard_rows(shards@)) && shard_rows(shards@).subrange(
            codec_data_shards(*codec) as int,
            shards@.len() as int,
        ) == rs_parity(
            shard_rows(shards@).subrange(0, codec_data_shards(*codec) as int),
            codec_parity_shards(*codec),
        )),
{
    codec.inner.verify(shards).unwrap_or(false)
}

/// Whether `ReedSolomon::reconstruct` accepts the shards: there are as many
/// as the codec was made for, those present are not empty and have one
/// length, and at least as many are present as there are data shards.
pub open spec fn restorable(shards: Seq<Option<Seq<u8>>>, data_shards: nat, parity_shards: nat) -> bool {
    &&& shards.len() == data_shards + parity_shards
    &&& present_uniform(shards)
    &&& present_count(shards) >= data_shards
}

/// Calls `ReedSolomon::reconstruct`, which fills in the shards that are
/// absent and leaves the others as they are. It fails, and then changes
/// nothing, unless `restorable` holds. What it fills in is a function of
/// the shards that are present. The last clause is the property of the
/// code that the crate is for: where at least as many shards are present
/// as there are data shards, and they are shards of the codeword of some
/// data, the call succeeds and what is rebuilt is that codeword.
#[verifier::external_body]
fn restore(codec: &Codec, shards: &mut Vec<Option<Vec<u8>>>) -> (done: bool)
    ensures
        done == restorable(
            optional_rows(old(shards)@),
            codec_data_shards(*codec),
            codec_parity_shards(*codec),
        ),
        !done ==> optional_rows(final(shards)@) == optional_rows(old(shards)@),
        done ==> final(shards)@.len() == old(shards)@.len() && rs_restored(
            optional_rows(old(shards)@),
            codec_data_shards(*codec),
        ).len() == old(shards)@.len() && agrees(
            optional_rows(old(shards)@),
            rs_restored(optional_rows(old(shards)@), codec_data_shards(*codec)),
        ) && forall|i: int|
            0 <= i < final(shards)@.len() ==> (#[trigger] final(shards)@[i]).is_some()
                && final(shards)@[i].unwrap()@ == rs_restored(
                optional_rows(old(shards)@),
                codec_data_shards(*codec),
            )[i],
        done ==> uniform(rs_restored(optional_rows(old(shards)@), codec_data_shards(*codec))),
        forall|data: Seq<Seq<u8>>|
            data.len() == codec_data_shards(*codec) && uniform(data) && present_count(
                optional_rows(old(shards)@),
            ) >= codec_data_shards(*codec) && #[trigger] agrees(
                optional_rows(old(shards)@),
                codeword(data, codec_parity_shards(*codec)),
            ) ==> done && rs_restored(optional_rows(old(shards)@), codec_data_shards(*codec))
                == codeword(data, codec_parity_shards(*codec)),
{
    codec.inner.reconstruct(shards).is_ok()
}

/// Why a payload could not be coded, or shards not decoded.
#[derive(Clone, Copy, Debug, PartialEq, Eq, Structural)]
pub enum ErasureError {
    /// There is no code for these numbers of shards and of faults.
    InvalidParameters,
    /// The length of the payload does not fit the frame.
    PayloadTooLarge,
    /// Fewer shards are present than there are data shards.
    TooFewShards,
    /// The shards that are present do not belong to one codeword.
    Inconsistent,
    /// The data shards do not hold a framed payload.
    Malformed,
}

/// The four bytes that stand for a length in a frame, most significant
/// first.
pub open spec fn length_header(len: nat) -> Seq<u8> {
    seq![
        ((len / 16777216) % 256) as u8,
        ((len / 65536) % 256) as u8,
        ((len / 256) % 256) as u8,
        (len % 256) as u8,
    ]
}

/// The length that four bytes of a frame stand for.
pub open spec fn header_length(header: Seq<u8>) -> nat {
    (header[0] * 16777216 + header[1] * 65536 + header[2] * 256 + header[3]) as nat
}

/// A payload in its frame: its length, then its bytes.
pub open spec fn framed(value: Seq<u8>) -> Seq<u8> {
    length_header(value.len()) + value
}

/// The length of each of `k` shards that together hold `total` bytes.
pub open spec fn shard_len(total: nat, k: nat) -> nat {
    if total == 0 || k == 0 {
        0
    } else {
        ((total - 1) / (k as int) + 1) as nat
    }
}

/// The byte of `flat` at `at`, or zero past its end.
pub open spec fn padded_byte(flat: Seq<u8>, at: int) -> u8 {
    if 0 <= at < flat.len() {
        flat[at]
    } else {
        0
    }
}

/// `flat` cut into `k` pieces of `size` bytes, with zeros after its end.
pub open spec fn pieces(flat: Seq<u8>, k: nat, size: nat) -> Seq<Seq<u8>> {
    Seq::new(k, |i: int| Seq::new(size, |j: int| padded_byte(flat, i * size + j)))
}

/// The data shards of a payload: its frame cut into `k` pieces of one
/// length, the last padded with zeros.
pub open spec fn data_shards(value: Seq<u8>, k: nat) -> Seq<Seq<u8>> {
    pieces(framed(value), k, shard_len(framed(value).len(), k))
}

/// Shards of one length put end to end.
pub open spec fn glued(data: Seq<Seq<u8>>) -> Seq<u8> {
    let size = data[0].len() as int;
    Seq::new(data.len() * data[0].len(), |at: int| data[at / size][at % size])
}

/// The payload in a frame, where the bytes hold one.
pub open spec fn unframed(flat: Seq<u8>) -> Option<Seq<u8>> {
    if flat.len() >= 4 && header_length(flat.subrange(0, 4)) + 4 <= flat.len() {
        Some(flat.subrange(4, 4 + header_length(flat.subrange(0, 4)) as int))
    } else {
        None
    }
}

/// The `n` shards of a payload for up to `f` faults: `f + 1` data shards
/// and the parity shards of the code for them.
pub open spec fn encoded(value: Seq<u8>, n: nat, f: nat) -> Seq<Seq<u8>> {
    codeword(data_shards(value, f + 1), (n - f - 1) as nat)
}

pub open spec fn unwrapped(shards: Seq<Option<Seq<u8>>>) -> Seq<Seq<u8>> {
    Seq::new(shards.len(), |i: int| shards[i].unwrap())
}

/// What decoding gives for `n` shards, some of them absent, coded for up to
/// `f` faults.
pub open spec fn decoded(shards: Seq<Option<Seq<u8>>>, n: nat, f: nat) -> Result<
    Seq<u8>,
    ErasureError,
> {
    let k = f + 1;
    let m = (n - k) as nat;
    if !(f < n <= 256) || shards.len() != n {
        Err(ErasureError::InvalidParameters)
    } else if present_count(shards) < k {
        Err(ErasureError::TooFewShards)
    } else if !present_uniform(shards) {
        Err(ErasureError::Inconsistent)
    } else {
        let full = if m == 0 {
            unwrapped(shards)
        } else {
            rs_restored(shards, k)
        };
        if m > 0 && full.subrange(k as int, n as int) != rs_parity(full.subrange(0, k as int), m) {
            Err(ErasureError::Inconsistent)
        } else {
            match unframed(glued(full.subrange(0, k as int))) {
                Some(value) => Ok(value),
                None => Err(ErasureError::Malformed),
            }
        }
    }
}

pub open spec fn payload_view(r: Result<Vec<u8>, ErasureError>) -> Result<Seq<u8>, ErasureError> {
    match r {
        Ok(v) => Ok(v@),
        Err(e) => Err(e),
    }
}

/// A length of less than 32 bits comes back out of its four bytes.
pub proof fn header_round_trip(len: nat)
    requires
        len < 4294967296,
    ensures
        header_length(length_header(len)) == len,
{
    let h = length_header(len);
    assert(h[0] == (len / 16777216) % 256);
    assert(h[1] == (len / 65536) % 256);
    assert(h[2] == (len / 256) % 256);
    assert(h[3] == len % 256);
}

/// Shards of the length that `shard_len` gives have room for all bytes.
pub proof fn shard_len_covers(total: nat, k: nat)
    requires
        total > 0,
        k > 0,
    ensures
        shard_len(total, k) > 0,
        k * shard_len(total, k) >= total,
{
    let q = (total - 1) / (k as int);
    lemma_fundamental_div_mod(total - 1, k as int);
    lemma_mod_bound(total - 1, k as int);
    assert(q >= 0) by (nonlinear_arith)
        requires
            total - 1 == k * q + ((total - 1) % (k as int)),
            0 <= (total - 1) % (k as int) < k,
            total >= 1,
            k > 0,
    ;
    assert(k * (q + 1) == k * q + k) by (nonlinear_arith);
}

/// The pieces that bytes are cut into are as many and as long as asked.
pub proof fn pieces_uniform(flat: Seq<u8>, k: nat, size: nat)
    requires
        k > 0,
        size > 0,
    ensures
        uniform(pieces(flat, k, size)),
        pieces(flat, k, size).len() == k,
        pieces(flat, k, size)[0].len() == size,
{
}

/// Cutting into pieces and putting them end to end gives the bytes back,
/// with the padding after them.
pub proof fn glued_pieces(flat: Seq<u8>, k: nat, size: nat)
    requires
        k > 0,
        size > 0,
        k * size >= flat.len(),
    ensures
        glued(pieces(flat, k, size)).len() == k * size,
        glued(pieces(flat, k, size)).subrange(0, flat.len() as int) == flat,
{
    let p = pieces(flat, k, size);
    let g = glued(p);
    assert(p[0].len() == size);
    assert forall|at: int| 0 <= at < flat.len() implies g[at] == flat[at] by {
        let i = at / (size as int);
        let j = at % (size as int);
        lemma_fundamental_div_mod(at, size as int);
        lemma_mod_bound(at, size as int);
        assert(0 <= i < k) by (nonlinear_arith)
            requires
                at == size * i + j,
                0 <= j < size,
                0 <= at < k * size,
                size > 0,
        ;
        assert(i * size + j == at) by (nonlinear_arith)
            requires
                at == size * i + j,
        ;
        assert(p[i][j] == padded_byte(flat, i * size + j));
    }
    assert(g.subrange(0, flat.len() as int) =~= flat);
}

/// A payload comes back out of its data shards.
pub proof fn frame_round_trip(value: Seq<u8>, k: nat)
    requires
        k > 0,
        value.len() + 4 <= u32::MAX,
    ensures
        uniform(data_shards(value, k)),
        data_shards(value, k).len() == k,
        unframed(glued(data_shards(value, k))) == Some(value),
{
    let flat = framed(value);
    let size = shard_len(flat.len(), k);
    shard_len_covers(flat.len(), k);
    pieces_uniform(flat, k, size);
    glued_pieces(flat, k, size);
    let g = glued(data_shards(value, k));
    header_round_trip(value.len());
    assert(g.subrange(0, 4) =~= g.subrange(0, flat.len() as int).subrange(0, 4));
    assert(flat.subrange(0, 4) =~= length_header(value.len()));
    let end = 4 + value.len() as int;
    assert(g.subrange(4, end) =~= g.subrange(0, flat.len() as int).subrange(4, end));
    assert(flat.subrange(4, end) =~= value);
}

/// A payload in its frame.
fn frame(value: &Vec<u8>) -> (flat: Vec<u8>)
    requires
        value@.len() + 4 <= u32::MAX,
    ensures
        flat@ == framed(value@),
{
    let len: usize = value.len();
    let mut flat: Vec<u8> = Vec::new();
    flat.push(((len / 16777216) % 256) as u8);
    flat.push(((len / 65536) % 256) as u8);
    flat.push(((len / 256) % 256) as u8);
    flat.push((len % 256) as u8);
    assert(flat@ =~= length_header(value@.len()));
    let mut i: usize = 0;
    while i < len
        invariant
            len == value@.len(),
            i <= len,
            flat@ == length_header(value@.len()) + value@.subrange(0, i as int),
        decreases len - i,
    {
        flat.push(value[i]);
        i += 1;
        assert(flat@ =~= length_header(value@.len()) + value@.subrange(0, i as int));
    }
    assert(value@.subrange(0, len as int) =~= value@);
    flat
}

/// `flat` cut into `k` pieces of `size` bytes, with zeros after its end.
fn cut(flat: &Vec<u8>, k: usize, size: usize) -> (shards: Vec<Vec<u8>>)
    requires
        k * size >= flat@.len(),
    ensures
        shard_rows(shards@) == pieces(flat@, k as nat, size as nat),
{
    let total = flat.len();
    let mut shards: Vec<Vec<u8>> = Vec::new();
    let mut pos: usize = 0;
    let mut i: usize = 0;
    let ghost mut base: int = 0;
    while i < k
        invariant
            total == flat@.len(),
            i <= k,
            base == i * size,
            pos == if base < total {
                base
            } else {
                total as int
            },
            shards@.len() == i,
            forall|a: int|
                0 <= a < i ==> (#[trigger] shards@[a])@ == pieces(flat@, k as nat, size as nat)[a],
        decreases k - i,
    {
        let mut shard: Vec<u8> = Vec::new();
        let mut j: usize = 0;
        while j < size
            invariant
                total == flat@.len(),
                j <= size,
                pos == if base + j < total {
                    base + j
                } else {
                    total as int
                },
                shard@.len() == j,
                forall|b: int| 0 <= b < j ==> shard@[b] == padded_byte(flat@, base + b),
            decreases size - j,
        {
            if pos < total {
                shard.push(flat[pos]);
                pos += 1;
            } else {
                shard.push(0u8);
            }
            j += 1;
        }
        assert(shard@ =~= pieces(flat@, k as nat, size as nat)[i as int]);
        shards.push(shard);
        proof {
            assert((i + 1) * size == i * size + size) by (nonlinear_arith);
            base = base + size;
        }
        i += 1;
    }
    assert(shard_rows(shards@) =~= pieces(flat@, k as nat, size as nat));
    shards
}

/// A shard of `size` zero bytes.
fn zero_shard(size: usize) -> (shard: Vec<u8>)
    ensures
        shard@.len() == size,
{
    let mut shard: Vec<u8> = Vec::new();
    let mut j: usize = 0;
    while j < size
        invariant
            j <= size,
            shard@.len() == j,
        decreases size - j,
    {
        shard.push(0u8);
        j += 1;
    }
    shard
}

/// Codes a payload into `n` shards of one length, for up to `f` faults:
/// any `f + 1` of the shards give the payload back. There must be more
/// shards than faults and at most 256, and the length of the payload with
/// its frame must fit in 32 bits.
pub fn encode(value: &Vec<u8>, n: usize, f: usize) -> (shards: Result<Vec<Vec<u8>>, ErasureError>)
    ensures
        !(f < n <= 256) ==> shards == Err::<Vec<Vec<u8>>, ErasureError>(
            ErasureError::InvalidParameters,
        ),
        f < n <= 256 && value@.len() + 4 > u32::MAX ==> shards == Err::<
            Vec<Vec<u8>>,
            ErasureError,
        >(ErasureError::PayloadTooLarge),
        f < n <= 256 && value@.len() + 4 <= u32::MAX ==> shards.is_ok() && shard_rows(
            shards.unwrap()@,
        ) == encoded(value@, n as nat, f as nat) && shards.unwrap()@.len() == n && uniform(
            shard_rows(shards.unwrap()@),
        ),
{
    if !(f < n && n <= 256) {
        return Err(ErasureError::InvalidParameters);
    }
    if value.len() > 0xffff_fffb {
        return Err(ErasureError::PayloadTooLarge);
    }
    let k: usize = f + 1;
    let m: usize = n - k;
    let flat = frame(value);
    let total = flat.len();
    let size: usize = (total - 1) / k + 1;
    proof {
        shard_len_covers(total as nat, k as nat);
        pieces_uniform(flat@, k as nat, size as nat);
    }
    let mut shards = cut(&flat, k, size);
    assert(shard_rows(shards@) == data_shards(value@, k as nat));
    if m == 0 {
        return Ok(shards);
    }
    let ghost data = shard_rows(shards@);
    assert forall|a: int| 0 <= a < k implies (#[trigger] shards@[a])@.len() == size by {
        assert(shard_rows(shards@)[a] == shards@[a]@);
    }
    assert(shard_rows(shards@).subrange(0, k as int) =~= data);
    let mut j: usize = 0;
    while j < m
        invariant
            j <= m,
            k + m <= 256,
            shards@.len() == k + j,
            uniform(data),
            data.len() == k,
            data[0].len() == size,
            shard_rows(shards@).subrange(0, k as int) == data,
            forall|a: int| 0 <= a < k + j ==> (#[trigger] shards@[a])@.len() == size,
        decreases m - j,
    {
        let ghost before = shard_rows(shards@);
        shards.push(zero_shard(size));
        assert(shard_rows(shards@).subrange(0, k as int) =~= before.subrange(0, k as int));
        j += 1;
    }
    let codec = match new_codec(k, m) {
        Some(codec) => codec,
        None => {
            return Err(ErasureError::InvalidParameters);
        },
    };
    assert(shard_rows(shards@)[0] == data[0]);
    assert(uniform(shard_rows(shards@)));
    let done = fill_parity(&codec, &mut shards);
    assert(done);
    assert(shard_rows(shards@).len() == n);
    Ok(shards)
}

/// No more shards are present than there are, and where as many are
/// present as there are, each is.
pub proof fn present_count_bounds(shards: Seq<Option<Seq<u8>>>)
    ensures
        present_count(shards) <= shards.len(),
        present_count(shards) == shards.len() ==> forall|i: int|
            0 <= i < shards.len() ==> (#[trigger] shards[i]).is_some(),
    decreases shards.len(),
{
    if shards.len() > 0 {
        present_count_bounds(shards.drop_last());
        if present_count(shards) == shards.len() {
            assert forall|i: int| 0 <= i < shards.len() implies (#[trigger] shards[i]).is_some() by {
                if i < shards.len() - 1 {
                    assert(shards.drop_last()[i] == shards[i]);
                }
            }
        }
    }
}

fn count_present(shards: &Vec<Option<Vec<u8>>>) -> (count: usize)
    ensures
        count == present_count(optional_rows(shards@)),
{
    let ghost rows = optional_rows(shards@);
    let mut count: usize = 0;
    let mut i: usize = 0;
    while i < shards.len()
        invariant
            i <= shards@.len(),
            rows == optional_rows(shards@),
            count == present_count(rows.subrange(0, i as int)),
            count <= i,
        decreases shards@.len() - i,
    {
        assert(rows.subrange(0, i + 1).drop_last() =~= rows.subrange(0, i as int));
        assert(rows.subrange(0, i + 1).last() == shard_row(shards@[i as int]));
        if shards[i].is_some() {
            count += 1;
        }
        i += 1;
    }
    assert(rows.subrange(0, i as int) =~= rows);
    count
}

fn check_uniform(shards: &Vec<Option<Vec<u8>>>) -> (ok: bool)
    ensures
        ok == present_uniform(optional_rows(shards@)),
{
    let ghost rows = optional_rows(shards@);
    let mut size: Option<usize> = None;
    let ghost mut first: int = 0;
    let mut i: usize = 0;
    while i < shards.len()
        invariant
            i <= shards@.len(),
            rows == optional_rows(shards@),
            present_uniform(rows.subrange(0, i as int)),
            size.is_none() ==> forall|a: int| 0 <= a < i ==> (#[trigger] rows[a]).is_none(),
            size.is_some() ==> 0 <= first < i && rows[first].is_some() && rows[first].unwrap().len()
                == size.unwrap(),
        decreases shards@.len() - i,
    {
        let ghost before = rows.subrange(0, i as int);
        let ghost after = rows.subrange(0, i + 1);
        assert(rows[i as int] == shard_row(shards@[i as int]));
        match &shards[i] {
            Some(shard) => {
                let len = shard.len();
                let fits = len > 0 && match size {
                    Some(s) => s == len,
                    None => true,
                };
                if !fits {
                    proof {
                        if present_uniform(rows) {
                            assert(rows[i as int].unwrap().len() > 0);
                            if size.is_some() {
                                assert(rows[first].unwrap().len() == rows[i as int].unwrap().len());
                            }
                        }
                    }
                    return false;
                }
                proof {
                    if size.is_none() {
                        first = i as int;
                    }
                    assert forall|a: int, b: int|
                        0 <= a < after.len() && 0 <= b < after.len() && (#[trigger] after[a]).is_some()
                            && (#[trigger] after[b]).is_some() implies after[a].unwrap().len()
                        == after[b].unwrap().len() by {
                        if a < i {
                            assert(before[a] == after[a]);
                            assert(before[first] == rows[first]);
                        }
                        if b < i {
                            assert(before[b] == after[b]);
                            assert(before[first] == rows[first]);
                        }
                    }
                    assert forall|a: int| 0 <= a < after.len() && (#[trigger] after[a]).is_some() implies after[a].unwrap().len()
                        > 0 by {
                        if a < i {
                            assert(before[a] == after[a]);
                        }
                    }
                }
                size = Some(len);
            },
            None => {
                proof {
                    assert forall|a: int, b: int|
                        0 <= a < after.len() && 0 <= b < after.len() && (#[trigger] after[a]).is_some()
                            && (#[trigger] after[b]).is_some() implies after[a].unwrap().len()
                        == after[b].unwrap().len() by {
                        assert(before[a] == after[a]);
                        assert(before[b] == after[b]);
                    }
                    assert forall|a: int| 0 <= a < after.len() && (#[trigger] after[a]).is_some() implies after[a].unwrap().len()
                        > 0 by {
                        assert(before[a] == after[a]);
                    }
                }
            },
        }
        i += 1;
    }
    assert(rows.subrange(0, i as int) =~= rows);
    true
}

fn unwrap_all(shards: Vec<Option<Vec<u8>>>) -> (full: Vec<Vec<u8>>)
    requires
        forall|i: int| 0 <= i < shards@.len() ==> (#[trigger] shards@[i]).is_some(),
    ensures
        shard_rows(full@) == unwrapped(optional_rows(shards@)),
{
    let ghost given = shards@;
    let mut full: Vec<Vec<u8>> = Vec::new();
    for shard in it: shards
        invariant
            it.seq() == given,
            forall|i: int| 0 <= i < given.len() ==> (#[trigger] given[i]).is_some(),
            full@.len() == it.index(),
            forall|i: int| 0 <= i < it.index() ==> (#[trigger] full@[i])@ == given[i].unwrap()@,
    {
        assert(shard == given[it.index() as int]);
        match shard {
            Some(s) => {
                full.push(s);
            },
            None => {},
        }
    }
    assert(shard_rows(full@) =~= unwrapped(optional_rows(given)));
    full
}

/// The first `k` shards put end to end.
fn glue(full: &Vec<Vec<u8>>, k: usize) -> (flat: Vec<u8>)
    requires
        1 <= k <= full@.len(),
        uniform(shard_rows(full@)),
    ensures
        flat@ == glued(shard_rows(full@).subrange(0, k as int)),
{
    let ghost data = shard_rows(full@).subrange(0, k as int);
    assert(data[0] == shard_rows(full@)[0]);
    let size = full[0].len();
    assert(shard_rows(full@)[0] == full@[0]@);
    let mut flat: Vec<u8> = Vec::new();
    let mut i: usize = 0;
    let ghost mut base: int = 0;
    while i < k
        invariant
            i <= k,
            k <= full@.len(),
            base == i * size,
            size > 0,
            size == data[0].len(),
            data == shard_rows(full@).subrange(0, k as int),
            uniform(shard_rows(full@)),
            shard_rows(full@)[0].len() == size,
            flat@.len() == base,
            forall|at: int|
                0 <= at < base ==> flat@[at] == data[at / (size as int)][at % (size as int)],
        decreases k - i,
    {
        let shard = &full[i];
        assert(shard_rows(full@)[i as int] == shard@);
        assert(data[i as int] == shard@);
        let mut j: usize = 0;
        while j < size
            invariant
                j <= size,
                i < k,
                size > 0,
                shard@.len() == size,
                data[i as int] == shard@,
                base == i * size,
                flat@.len() == base + j,
                forall|at: int|
                    0 <= at < base + j ==> flat@[at] == data[at / (size as int)][at % (size as int)],
            decreases size - j,
        {
            proof {
                lemma_fundamental_div_mod_converse(base + j, size as int, i as int, j as int);
            }
            flat.push(shard[j]);
            j += 1;
        }
        proof {
            assert((i + 1) * size == i * size + size) by (nonlinear_arith);
            base = base + size;
        }
        i += 1;
    }
    assert(flat@ =~= glued(data));
    flat
}

/// The payload in a frame, where the bytes hold one.
fn unframe(flat: &Vec<u8>) -> (value: Option<Vec<u8>>)
    ensures
        match value {
            Some(v) => unframed(flat@) == Some(v@),
            None => unframed(flat@).is_none(),
        },
{
    if flat.len() < 4 {
        return None;
    }
    let len: u64 = (flat[0] as u64) * 16777216 + (flat[1] as u64) * 65536 + (flat[2] as u64) * 256
        + (flat[3] as u64);
    assert(len == header_length(flat@.subrange(0, 4)));
    if len > (flat.len() - 4) as u64 {
        return None;
    }
    let end: usize = 4 + len as usize;
    let mut value: Vec<u8> = Vec::new();
    let mut i: usize = 4;
    while i < end
        invariant
            4 <= i <= end <= flat@.len(),
            value@ == flat@.subrange(4, i as int),
        decreases end - i,
    {
        value.push(flat[i]);
        i += 1;
        assert(value@ =~= flat@.subrange(4, i as int));
    }
    Some(value)
}

/// Gives back the payload from `n` shards coded for up to `f` faults,
/// some of which may be absent. It fails where fewer than `f + 1` shards
/// are present, and where those present do not belong to one codeword or
/// hold no framed payload. Shards of a coded payload, at least `f + 1` of
/// them, always give that payload.
pub fn decode(shards: Vec<Option<Vec<u8>>>, n: usize, f: usize) -> (value: Result<
    Vec<u8>,
    ErasureError,
>)
    ensures
        payload_view(value) == decoded(optional_rows(shards@), n as nat, f as nat),
        forall|payload: Seq<u8>|
            f < n <= 256 && shards@.len() == n && payload.len() + 4 <= u32::MAX && present_count(
                optional_rows(shards@),
            ) >= f + 1 && #[trigger] agrees(
                optional_rows(shards@),
                encoded(payload, n as nat, f as nat),
            ) ==> payload_view(value) == Ok::<Seq<u8>, ErasureError>(payload),
{
    let ghost rows = optional_rows(shards@);
    if !(f < n && n <= 256) || shards.len() != n {
        return Err(ErasureError::InvalidParameters);
    }
    let k: usize = f + 1;
    let m: usize = n - k;
    if count_present(&shards) < k {
        return Err(ErasureError::TooFewShards);
    }
    let full = if m == 0 {
        proof {
            present_count_bounds(rows);
            assert forall|payload: Seq<u8>|
                payload.len() + 4 <= u32::MAX && #[trigger] agrees(
                    rows,
                    encoded(payload, n as nat, f as nat),
                ) implies decoded(rows, n as nat, f as nat) == Ok::<Seq<u8>, ErasureError>(
                payload,
            ) by {
                frame_round_trip(payload, k as nat);
                let data = data_shards(payload, k as nat);
                assert(unwrapped(rows) =~= data);
                assert(data.subrange(0, k as int) =~= data);
                assert forall|i: int| 0 <= i < rows.len() implies (#[trigger] rows[i]).unwrap().len()
                    == data[0].len() by {}
            }
        }
        if !check_uniform(&shards) {
            return Err(ErasureError::Inconsistent);
        }
        assert forall|i: int| 0 <= i < shards@.len() implies (#[trigger] shards@[i]).is_some() by {
            assert(rows[i] == shard_row(shards@[i]));
        }
        unwrap_all(shards)
    } else {
        let codec = match new_codec(k, m) {
            Some(codec) => codec,
            None => {
                return Err(ErasureError::InvalidParameters);
            },
        };
        let mut work = shards;
        let done = restore(&codec, &mut work);
        proof {
            assert forall|payload: Seq<u8>|
                payload.len() + 4 <= u32::MAX && #[trigger] agrees(
                    rows,
                    encoded(payload, n as nat, f as nat),
                ) implies decoded(rows, n as nat, f as nat) == Ok::<Seq<u8>, ErasureError>(
                payload,
            ) by {
                frame_round_trip(payload, k as nat);
                let data = data_shards(payload, k as nat);
                assert(agrees(rows, codeword(data, m as nat)));
                let whole = rs_restored(rows, k as nat);
                assert(whole == data + rs_parity(data, m as nat));
                assert(whole.subrange(0, k as int) =~= data);
                assert(whole.subrange(k as int, n as int) =~= rs_parity(data, m as nat));
            }
        }
        if !done {
            return Err(ErasureError::Inconsistent);
        }
        let restored = unwrap_all(work);
        assert(shard_rows(restored@) =~= rs_restored(rows, k as nat));
        if !parity_matches(&codec, &restored) {
            return Err(ErasureError::Inconsistent);
        }
        restored
    };
    assert(uniform(shard_rows(full@))) by {
        if m == 0 {
            present_count_bounds(rows);
            assert(rows[0].is_some());
        }
    }
    let flat = glue(&full, k);
    match unframe(&flat) {
        Some(value) => Ok(value),
        None => Err(ErasureError::Malformed),
    }
}

} // verus!
