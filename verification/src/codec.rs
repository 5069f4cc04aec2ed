//! Reed–Solomon erasure coding of payloads into shards.
//!
//! A payload is cut into `k` data shards and extended by `n - k` parity
//! shards. Shard `r` belongs to replica `r`.

use crate::hash::bytes_eq;
use crate::params::MAX_NODES;
use reed_solomon_rs::fec::fec::{Share, FEC};
use vstd::prelude::*;

verus! {

/// The byte that fills a payload up to a multiple of `k`.
pub const PAD_BYTE: u8 = 0x5f;

/// The `n` shards of `data` under the `(k, n)` code.
pub uninterp spec fn rs_encode(k: nat, n: nat, data: Seq<u8>) -> Seq<Seq<u8>>;

/// The `k` data shards rebuilt from the pieces `pieces` at the positions
/// `numbers`, or `None` where the decoder reports an error.
pub uninterp spec fn rs_rebuild(k: nat, n: nat, numbers: Seq<usize>, pieces: Seq<Seq<u8>>) -> Option<
    Seq<Seq<u8>>,
>;

/// The payload that the error-correcting decoder returns for the pieces
/// `pieces` at the positions `numbers`, or `None` where it reports an error.
pub uninterp spec fn rs_decode(k: nat, n: nat, numbers: Seq<usize>, pieces: Seq<Seq<u8>>) -> Option<
    Seq<u8>,
>;

/// The byte strings that a vector of shards stands for.
pub open spec fn shards_view(v: Seq<Vec<u8>>) -> Seq<Seq<u8>> {
    Seq::new(v.len(), |i: int| v[i]@)
}

/// The byte strings that a vector of optional shards stands for.
pub open spec fn slots_view(v: Seq<Option<Vec<u8>>>) -> Seq<Option<Seq<u8>>> {
    Seq::new(
        v.len(),
        |i: int|
            match v[i] {
                Some(s) => Some(s@),
                None => None,
            },
    )
}

/// Length of one shard of a payload of `len` bytes: `ceil(len / k)`.
pub open spec fn shard_len(len: int, k: int) -> int {
    (len + k - 1) / k
}

/// `data` filled up with [`PAD_BYTE`] to `k` shards of equal length.
pub open spec fn padded(data: Seq<u8>, k: int) -> Seq<u8> {
    data + Seq::new((shard_len(data.len() as int, k) * k - data.len()) as nat, |i: int| PAD_BYTE)
}

/// The shards in order, one after the other.
pub open spec fn concat(pieces: Seq<Seq<u8>>) -> Seq<u8>
    decreases pieces.len(),
{
    if pieces.len() == 0 {
        Seq::empty()
    } else {
        concat(pieces.drop_last()) + pieces.last()
    }
}

/// Whether `(k, n)` is a code that the codec offers.
pub open spec fn code_ok(k: int, n: int) -> bool {
    1 <= k <= n <= MAX_NODES
}

/// Puts `data` at position `number` of `out`; a position outside `out` is
/// ignored.
pub fn store_piece(out: &mut Vec<Vec<u8>>, number: usize, data: Vec<u8>)
    ensures
        final(out)@ == if number < old(out).len() {
            old(out)@.update(number as int, data)
        } else {
            old(out)@
        },
{
    if number < out.len() {
        out[number] = data;
    }
}

/// Calls `FEC::new(k, n)` and `FEC::encode` of `reed_solomon_rs`, collecting
/// the shares by their number. Trusted: the shards are a function of `k`,
/// `n` and `data`; there are `n` of them, each `ceil(len / k)` bytes long,
/// and the first `k` are the payload, filled up with `_`, cut into `k`
/// pieces. Both calls succeed for every code with `1 <= k <= n <= 256`.
#[verifier::external_body]
fn fec_encode(k: usize, n: usize, data: &[u8]) -> (shards: Vec<Vec<u8>>)
    requires
        code_ok(k as int, n as int),
    ensures
        shards_view(shards@) == rs_encode(k as nat, n as nat, data@),
        shards.len() == n,
        forall|i: int|
            0 <= i < n ==> (#[trigger] shards@[i]).len() == shard_len(data@.len() as int, k as int),
        forall|i: int|
            0 <= i < k ==> (#[trigger] shards@[i])@ == padded(data@, k as int).subrange(
                i * shard_len(data@.len() as int, k as int),
                (i + 1) * shard_len(data@.len() as int, k as int),
            ),
{
    let fec = FEC::new(k, n).expect("the code is within the codec's range");
    let mut shards: Vec<Vec<u8>> = vec![Vec::new(); n];
    fec.encode(data, |s: Share| store_piece(&mut shards, s.number, s.data)).expect(
        "the codec pads its input",
    );
    shards
}

/// Whether the decoder can be handed the shares `(numbers[i], pieces[i])`
/// under the `(k, n)` code: the numbers are below `n` and ascend, the
/// pieces have one length, and there are more than `k` shares, or `k` of
/// which the first is a data shard. No number stands twice, but that the
/// first share may stand twice where no share is a data shard.
pub open spec fn can_rebuild(k: int, n: int, numbers: Seq<usize>, pieces: Seq<Seq<u8>>) -> bool {
    &&& code_ok(k, n)
    &&& numbers.len() == pieces.len()
    &&& numbers.len() >= k
    &&& numbers.len() > k || numbers[0] < k
    &&& forall|i: int| 0 <= i < numbers.len() ==> #[trigger] numbers[i] < n
    &&& forall|i: int, j: int| 1 <= i < j < numbers.len() ==> numbers[i] < numbers[j]
    &&& numbers.len() >= 2 ==> numbers[0] <= numbers[1]
    &&& numbers.len() >= 2 && numbers[0] == numbers[1] ==> numbers[0] >= k && pieces[0]
        == pieces[1]
    &&& forall|i: int| 0 <= i < pieces.len() ==> (#[trigger] pieces[i]).len() == pieces[0].len()
}

/// Calls `FEC::new(k, n)` and `FEC::rebuild` of `reed_solomon_rs` on the
/// shares `(numbers[i], pieces[i])`, collecting the `k` data shards by their
/// number. Trusted: the outcome is a function of the arguments. The
/// `requires` keeps away what `rebuild` cannot take: pieces of different
/// lengths, a number outside the code, a data shard given twice, and
/// exactly `k` shares none of which is a data shard. In the last case
/// `rebuild` counts its index from the end down below zero; with the first
/// share given twice it stops at zero and never reads the first copy.
#[verifier::external_body]
fn fec_rebuild(k: usize, n: usize, numbers: &Vec<usize>, pieces: &Vec<Vec<u8>>) -> (out: Option<
    Vec<Vec<u8>>,
>)
    requires
        can_rebuild(k as int, n as int, numbers@, shards_view(pieces@)),
    ensures
        match out {
            Some(d) => d.len() == k && rs_rebuild(
                k as nat,
                n as nat,
                numbers@,
                shards_view(pieces@),
            ) == Some(shards_view(d@)),
            None => rs_rebuild(k as nat, n as nat, numbers@, shards_view(pieces@)) is None,
        },
{
    let fec = FEC::new(k, n).ok()?;
    let shares: Vec<Share> = numbers.iter().zip(pieces.iter()).map(
        |(number, data)| Share { number: *number, data: data.clone() },
    ).collect();
    let mut out: Vec<Vec<u8>> = vec![Vec::new(); k];
    fec.rebuild(shares, |s: Share| store_piece(&mut out, s.number, s.data)).ok()?;
    Some(out)
}

/// Whether the error-correcting decoder can be handed the shares: as for
/// the plain decoder, and the first share stands twice only among `k + 1`.
pub open spec fn can_decode(k: int, n: int, numbers: Seq<usize>, pieces: Seq<Seq<u8>>) -> bool {
    &&& can_rebuild(k, n, numbers, pieces)
    &&& numbers.len() >= 2 && numbers[0] == numbers[1] ==> numbers.len() == k + 1
}

/// Calls `FEC::new(k, n)` and `FEC::decode` of `reed_solomon_rs` on the
/// shares `(numbers[i], pieces[i])`: the decoder corrects what it finds
/// wrong in the shares, as far as their number allows, and rebuilds the
/// payload from them. Trusted: the outcome is a function of the arguments.
/// The `requires` keeps away what `decode` cannot take: what `rebuild`
/// cannot take, and a share given twice among more than `k + 1`, of which
/// `correct` would read both copies.
#[verifier::external_body]
fn fec_decode(k: usize, n: usize, numbers: &Vec<usize>, pieces: &Vec<Vec<u8>>) -> (out: Option<
    Vec<u8>,
>)
    requires
        can_decode(k as int, n as int, numbers@, shards_view(pieces@)),
    ensures
        match out {
            Some(d) => rs_decode(k as nat, n as nat, numbers@, shards_view(pieces@)) == Some(d@),
            None => rs_decode(k as nat, n as nat, numbers@, shards_view(pieces@)) is None,
        },
{
    let fec = FEC::new(k, n).ok()?;
    let shares: Vec<Share> = numbers.iter().zip(pieces.iter()).map(
        |(number, data)| Share { number: *number, data: data.clone() },
    ).collect();
    fec.decode(Vec::new(), shares).ok()
}

/// Why a set of shards could not be turned back into the full set.
#[derive(Clone, Copy, PartialEq, Eq, Structural, Debug)]
pub enum CodecError {
    /// `(k, n)` is no code of the codec, or the number of slots is not `n`.
    BadParameters,
    /// Fewer than `k` shards are present.
    TooFewShards,
    /// The shards present do not all have the same length.
    LengthMismatch,
    /// The decoder reported an error.
    DecodeFailed,
    /// A shard present differs from the shard that the rebuilt payload has
    /// at its position.
    Inconsistent,
}

/// The positions below `upto` at which a shard is present, ascending.
pub open spec fn present_numbers(slots: Seq<Option<Seq<u8>>>, upto: int) -> Seq<usize>
    decreases upto,
{
    if upto <= 0 {
        Seq::empty()
    } else if slots[upto - 1] is Some {
        present_numbers(slots, upto - 1).push((upto - 1) as usize)
    } else {
        present_numbers(slots, upto - 1)
    }
}

/// The shards present at the positions below `upto`, by ascending position.
pub open spec fn present_pieces(slots: Seq<Option<Seq<u8>>>, upto: int) -> Seq<Seq<u8>>
    decreases upto,
{
    if upto <= 0 {
        Seq::empty()
    } else if slots[upto - 1] is Some {
        present_pieces(slots, upto - 1).push(slots[upto - 1].unwrap())
    } else {
        present_pieces(slots, upto - 1)
    }
}

/// Whether all pieces are as long as the first.
pub open spec fn uniform(pieces: Seq<Seq<u8>>) -> bool {
    forall|i: int| 0 <= i < pieces.len() ==> (#[trigger] pieces[i]).len() == pieces[0].len()
}

/// Whether every shard present in `slots` is the shard of `all` at its
/// position.
pub open spec fn agrees(slots: Seq<Option<Seq<u8>>>, all: Seq<Seq<u8>>) -> bool {
    forall|i: int|
        0 <= i < slots.len() && (#[trigger] slots[i]) is Some ==> slots[i].unwrap() == all[i]
}

/// Why the shards present in `slots` cannot be handed to the decoder, if
/// they cannot.
pub open spec fn refusal(slots: Seq<Option<Seq<u8>>>, k: int, n: int) -> Option<CodecError> {
    let numbers = present_numbers(slots, n);
    let pieces = present_pieces(slots, n);
    if !code_ok(k, n) || slots.len() != n {
        Some(CodecError::BadParameters)
    } else if numbers.len() < k {
        Some(CodecError::TooFewShards)
    } else if !uniform(pieces) {
        Some(CodecError::LengthMismatch)
    } else {
        None
    }
}

/// Whether exactly `k` shares are present and none of them is a data shard.
pub open spec fn parity_only(numbers: Seq<usize>, k: int) -> bool {
    numbers.len() == k && k >= 1 && numbers[0] >= k
}

/// The numbers of the shares as the decoder is handed them: those present,
/// and the first of them once more where they are `k` parity shards.
pub open spec fn handed_numbers(numbers: Seq<usize>, k: int) -> Seq<usize> {
    if parity_only(numbers, k) {
        seq![numbers[0]] + numbers
    } else {
        numbers
    }
}

/// The pieces of the shares as the decoder is handed them: those present,
/// and the first of them once more where they are `k` parity shards.
pub open spec fn handed_pieces(numbers: Seq<usize>, pieces: Seq<Seq<u8>>, k: int) -> Seq<Seq<u8>> {
    if parity_only(numbers, k) {
        seq![pieces[0]] + pieces
    } else {
        pieces
    }
}

/// The full set of shards that `slots` determines under the `(k, n)` code,
/// or the reason why there is none.
pub open spec fn reconstructed(slots: Seq<Option<Seq<u8>>>, k: int, n: int) -> Result<
    Seq<Seq<u8>>,
    CodecError,
> {
    let numbers = present_numbers(slots, n);
    let pieces = present_pieces(slots, n);
    match refusal(slots, k, n) {
        Some(e) => Err(e),
        None => match rs_rebuild(
            k as nat,
            n as nat,
            handed_numbers(numbers, k),
            handed_pieces(numbers, pieces, k),
        ) {
            None => Err(CodecError::DecodeFailed),
            Some(d) => checked(slots, rs_encode(k as nat, n as nat, concat(d))),
        },
    }
}

/// The payload that `slots` determines under the `(k, n)` code where the
/// decoder corrects wrong shards, or the reason why there is none.
pub open spec fn corrected(slots: Seq<Option<Seq<u8>>>, k: int, n: int) -> Result<
    Seq<u8>,
    CodecError,
> {
    let numbers = present_numbers(slots, n);
    let pieces = present_pieces(slots, n);
    match refusal(slots, k, n) {
        Some(e) => Err(e),
        None => match rs_decode(
            k as nat,
            n as nat,
            handed_numbers(numbers, k),
            handed_pieces(numbers, pieces, k),
        ) {
            None => Err(CodecError::DecodeFailed),
            Some(d) => Ok(d),
        },
    }
}

/// The full set `all` where every shard present in `slots` is the shard of
/// `all` at its position.
pub open spec fn checked(slots: Seq<Option<Seq<u8>>>, all: Seq<Seq<u8>>) -> Result<
    Seq<Seq<u8>>,
    CodecError,
> {
    if agrees(slots, all) {
        Ok(all)
    } else {
        Err(CodecError::Inconsistent)
    }
}

/// Copies a byte vector.
pub fn clone_bytes(v: &Vec<u8>) -> (r: Vec<u8>)
    ensures
        r@ == v@,
{
    let r = v.clone();
    assert(r@ =~= v@);
    r
}

/// Joins the first `count` shards.
pub fn concat_shards(shards: &Vec<Vec<u8>>, count: usize) -> (data: Vec<u8>)
    requires
        count <= shards.len(),
    ensures
        data@ == concat(shards_view(shards@).take(count as int)),
{
    let ghost sv = shards_view(shards@);
    let mut data: Vec<u8> = Vec::new();
    let mut i: usize = 0;
    while i < count
        invariant
            i <= count <= shards.len(),
            sv == shards_view(shards@),
            data@ == concat(sv.take(i as int)),
        decreases count - i,
    {
        data.extend_from_slice(shards[i].as_slice());
        proof {
            assert(sv.take(i + 1).drop_last() =~= sv.take(i as int));
            assert(sv.take(i + 1).last() == shards@[i as int]@);
            assert(data@ =~= concat(sv.take(i as int)) + shards@[i as int]@);
        }
        i += 1;
    }
    data
}

/// What holds of the shards `shards` of `data` under the `(k, n)` code: they
/// are the shards that the code gives, `n` of them, each `ceil(len / k)`
/// bytes long, and the first `k` joined are `data` filled up to a multiple
/// of `k`.
pub open spec fn encodes(shards: Seq<Vec<u8>>, data: Seq<u8>, k: int, n: int) -> bool {
    &&& shards_view(shards) == rs_encode(k as nat, n as nat, data)
    &&& shards.len() == n
    &&& forall|i: int| 0 <= i < n ==> (#[trigger] shards[i]).len() == shard_len(data.len() as int, k)
    &&& concat(shards_view(shards).take(k)) == padded(data, k)
}

/// Encodes `data` into `n` shards of which any `k` determine the rest.
pub fn encode(data: &[u8], k: usize, n: usize) -> (shards: Vec<Vec<u8>>)
    requires
        code_ok(k as int, n as int),
    ensures
        encodes(shards@, data@, k as int, n as int),
{
    let shards = fec_encode(k, n, data);
    proof {
        lemma_data_shards_join(shards_view(shards@), data@, k as int);
    }
    shards
}

/// Encodes `data` into `n` shards of which any `k` determine the rest.
/// Returns `None` exactly when `(k, n)` is no code of the codec.
pub fn get_shards(data: &[u8], k: usize, n: usize) -> (r: Option<Vec<Vec<u8>>>)
    ensures
        r.is_some() == code_ok(k as int, n as int),
        r matches Some(shards) ==> encodes(shards@, data@, k as int, n as int),
{
    if k < 1 || k > n || n > MAX_NODES {
        return None;
    }
    Some(encode(data, k, n))
}

/// `k` consecutive slices of equal length, joined, are the sequence they
/// were cut from.
pub proof fn lemma_data_shards_join(shards: Seq<Seq<u8>>, data: Seq<u8>, k: int)
    requires
        1 <= k <= shards.len(),
        forall|i: int|
            0 <= i < k ==> #[trigger] shards[i] == padded(data, k).subrange(
                i * shard_len(data.len() as int, k),
                (i + 1) * shard_len(data.len() as int, k),
            ),
    ensures
        concat(shards.take(k)) == padded(data, k),
{
    let len = shard_len(data.len() as int, k);
    let p = padded(data, k);
    assert(len * k >= data.len()) by (nonlinear_arith)
        requires
            len == (data.len() + k - 1) / k,
            k >= 1,
    ;
    assert(p.len() == len * k);
    lemma_slices_join(shards, p, len, k);
    assert(p.subrange(0, k * len) =~= p) by {
        assert(k * len == len * k) by (nonlinear_arith);
    }
}

/// Joining the first `j` slices of length `len` gives the first `j * len`
/// elements.
pub proof fn lemma_slices_join(shards: Seq<Seq<u8>>, p: Seq<u8>, len: int, j: int)
    requires
        0 <= j <= shards.len(),
        0 <= len,
        j * len <= p.len(),
        forall|i: int| 0 <= i < j ==> #[trigger] shards[i] == p.subrange(i * len, (i + 1) * len),
    ensures
        concat(shards.take(j)) == p.subrange(0, j * len),
    decreases j,
{
    if j == 0 {
        assert(j * len == 0) by (nonlinear_arith)
            requires
                j == 0,
        ;
        assert(concat(shards.take(0)) =~= p.subrange(0, 0));
    } else {
        assert((j - 1) * len <= j * len) by (nonlinear_arith)
            requires
                len >= 0,
        ;
        assert((j - 1) * len + len == j * len) by (nonlinear_arith);
        assert(0 <= (j - 1) * len) by (nonlinear_arith)
            requires
                len >= 0,
                j >= 1,
        ;
        assert(((j - 1) + 1) * len == j * len);
        lemma_slices_join(shards, p, len, j - 1);
        assert(shards[j - 1] == p.subrange((j - 1) * len, j * len));
        assert(shards.take(j).drop_last() =~= shards.take(j - 1));
        assert(shards.take(j).last() == shards[j - 1]);
        assert(p.subrange(0, (j - 1) * len) + p.subrange((j - 1) * len, j * len) =~= p.subrange(
            0,
            j * len,
        ));
        assert(concat(shards.take(j)) == concat(shards.take(j - 1)) + shards[j - 1]);
    }
}

/// The positions present below `upto` are below `upto` and ascending, and
/// there are as many pieces as positions.
pub proof fn lemma_present_ascending(slots: Seq<Option<Seq<u8>>>, upto: int)
    requires
        0 <= upto <= slots.len(),
        upto <= usize::MAX,
    ensures
        present_numbers(slots, upto).len() == present_pieces(slots, upto).len(),
        present_numbers(slots, upto).len() <= upto,
        forall|i: int|
            0 <= i < present_numbers(slots, upto).len() ==> {
                &&& (#[trigger] present_numbers(slots, upto)[i]) < upto
                &&& slots[present_numbers(slots, upto)[i] as int] == Some(
                    present_pieces(slots, upto)[i],
                )
            },
        forall|i: int, j: int|
            0 <= i < j < present_numbers(slots, upto).len() ==> present_numbers(slots, upto)[i]
                < present_numbers(slots, upto)[j],
    decreases upto,
{
    if upto > 0 {
        lemma_present_ascending(slots, upto - 1);
    }
}

/// Collects the shards present in `slots` with their positions.
pub fn collect_present(slots: &Vec<Option<Vec<u8>>>) -> (r: (Vec<usize>, Vec<Vec<u8>>))
    ensures
        r.0@ == present_numbers(slots_view(slots@), slots.len() as int),
        shards_view(r.1@) == present_pieces(slots_view(slots@), slots.len() as int),
{
    let ghost sv = slots_view(slots@);
    let mut numbers: Vec<usize> = Vec::new();
    let mut pieces: Vec<Vec<u8>> = Vec::new();
    let mut i: usize = 0;
    while i < slots.len()
        invariant
            i <= slots.len(),
            sv == slots_view(slots@),
            numbers@ == present_numbers(sv, i as int),
            shards_view(pieces@) == present_pieces(sv, i as int),
        decreases slots.len() - i,
    {
        let ghost before = shards_view(pieces@);
        match &slots[i] {
            Some(s) => {
                numbers.push(i);
                pieces.push(clone_bytes(s));
                assert(shards_view(pieces@) =~= before.push(s@));
            },
            None => {},
        }
        i += 1;
    }
    (numbers, pieces)
}

/// Whether all pieces are as long as the first.
pub fn all_same_length(pieces: &Vec<Vec<u8>>) -> (r: bool)
    ensures
        r == uniform(shards_view(pieces@)),
{
    let ghost pv = shards_view(pieces@);
    let mut i: usize = 0;
    while i < pieces.len()
        invariant
            i <= pieces.len(),
            pv == shards_view(pieces@),
            forall|j: int| 0 <= j < i ==> (#[trigger] pv[j]).len() == pv[0].len(),
        decreases pieces.len() - i,
    {
        if pieces[i].len() != pieces[0].len() {
            assert(pv[i as int].len() != pv[0].len());
            return false;
        }
        i += 1;
    }
    true
}

/// Whether every shard present in `slots` is the shard of `all` at its
/// position.
pub fn agrees_with(slots: &Vec<Option<Vec<u8>>>, all: &Vec<Vec<u8>>) -> (r: bool)
    requires
        slots.len() == all.len(),
    ensures
        r == agrees(slots_view(slots@), shards_view(all@)),
{
    let ghost sv = slots_view(slots@);
    let ghost av = shards_view(all@);
    let mut i: usize = 0;
    while i < slots.len()
        invariant
            i <= slots.len(),
            slots.len() == all.len(),
            sv == slots_view(slots@),
            av == shards_view(all@),
            forall|j: int| 0 <= j < i && (#[trigger] sv[j]) is Some ==> sv[j].unwrap() == av[j],
        decreases slots.len() - i,
    {
        match &slots[i] {
            Some(s) => {
                if !bytes_eq(s.as_slice(), all[i].as_slice()) {
                    assert(sv[i as int] is Some && sv[i as int].unwrap() != av[i as int]);
                    return false;
                }
            },
            None => {},
        }
        i += 1;
    }
    true
}

/// The shards present in `slots` with their positions, as the decoder
/// takes them, or the reason why the decoder cannot take them.
pub fn select_pieces(slots: &Vec<Option<Vec<u8>>>, k: usize, n: usize) -> (r: Result<
    (Vec<usize>, Vec<Vec<u8>>),
    CodecError,
>)
    ensures
        match r {
            Ok((numbers, pieces)) => {
                &&& refusal(slots_view(slots@), k as int, n as int) is None
                &&& numbers@ == present_numbers(slots_view(slots@), n as int)
                &&& shards_view(pieces@) == present_pieces(slots_view(slots@), n as int)
            },
            Err(e) => refusal(slots_view(slots@), k as int, n as int) == Some(e),
        },
{
    if k < 1 || k > n || n > MAX_NODES || slots.len() != n {
        return Err(CodecError::BadParameters);
    }
    let (numbers, pieces) = collect_present(slots);
    if numbers.len() < k {
        return Err(CodecError::TooFewShards);
    }
    if !all_same_length(&pieces) {
        return Err(CodecError::LengthMismatch);
    }
    Ok((numbers, pieces))
}

/// Accepts the full set `all` where every shard present in `slots` is the
/// shard of `all` at its position.
pub fn check_against(slots: &Vec<Option<Vec<u8>>>, all: Vec<Vec<u8>>) -> (r: Result<
    Vec<Vec<u8>>,
    CodecError,
>)
    requires
        slots.len() == all.len(),
    ensures
        match r {
            Ok(out) => checked(slots_view(slots@), shards_view(all@)) == Ok::<
                Seq<Seq<u8>>,
                CodecError,
            >(shards_view(out@)) && out == all,
            Err(e) => checked(slots_view(slots@), shards_view(all@)) == Err::<
                Seq<Seq<u8>>,
                CodecError,
            >(e),
        },
{
    if agrees_with(slots, &all) {
        Ok(all)
    } else {
        Err(CodecError::Inconsistent)
    }
}

/// The shards present in `slots` as the decoder is handed them: with their
/// positions, and the first of them twice where they are `k` parity shards,
/// of which the decoder needs one more than `k`.
pub fn hand_over(slots: &Vec<Option<Vec<u8>>>, k: usize, n: usize) -> (r: Result<
    (Vec<usize>, Vec<Vec<u8>>),
    CodecError,
>)
    ensures
        match r {
            Ok((numbers, pieces)) => {
                let present = present_numbers(slots_view(slots@), n as int);
                let held = present_pieces(slots_view(slots@), n as int);
                &&& refusal(slots_view(slots@), k as int, n as int) is None
                &&& numbers@ == handed_numbers(present, k as int)
                &&& shards_view(pieces@) == handed_pieces(present, held, k as int)
                &&& can_decode(k as int, n as int, numbers@, shards_view(pieces@))
            },
            Err(e) => refusal(slots_view(slots@), k as int, n as int) == Some(e),
        },
{
    let (numbers, pieces) = match select_pieces(slots, k, n) {
        Ok(selected) => selected,
        Err(e) => {
            return Err(e);
        },
    };
    let mut numbers = numbers;
    let mut pieces = pieces;
    let ghost present = numbers@;
    let ghost held = shards_view(pieces@);
    proof {
        lemma_present_ascending(slots_view(slots@), n as int);
    }
    if numbers.len() == k && numbers[0] >= k {
        let first = numbers[0];
        let copy = clone_bytes(&pieces[0]);
        numbers.insert(0, first);
        pieces.insert(0, copy);
        assert(numbers@ =~= seq![present[0]] + present);
        assert(shards_view(pieces@) =~= seq![held[0]] + held);
    }
    proof {
        let hn = numbers@;
        let hp = shards_view(pieces@);
        assert(hn == handed_numbers(present, k as int));
        assert(hp == handed_pieces(present, held, k as int));
        assert forall|i: int| 0 <= i < hp.len() implies (#[trigger] hp[i]).len() == hp[0].len() by {
            if parity_only(present, k as int) {
                if i > 0 {
                    assert(hp[i] == held[i - 1]);
                }
                assert(hp[0] == held[0]);
            }
        }
        assert forall|i: int| 0 <= i < hn.len() implies #[trigger] hn[i] < n by {
            if parity_only(present, k as int) && i > 0 {
                assert(hn[i] == present[i - 1]);
            }
        }
        assert forall|i: int, j: int| 1 <= i < j < hn.len() implies hn[i] < hn[j] by {
            if parity_only(present, k as int) {
                assert(hn[i] == present[i - 1] && hn[j] == present[j - 1]);
            }
        }
        if hn.len() >= 2 && hn[0] == hn[1] {
            if !parity_only(present, k as int) {
                assert(present[0] < present[1]);
            }
        }
        assert(can_decode(k as int, n as int, hn, hp));
    }
    Ok((numbers, pieces))
}

/// Rebuilds all `n` shards from the shards present in `slots`, and checks
/// every shard present against the result.
pub fn reconstruct_data(slots: &Vec<Option<Vec<u8>>>, k: usize, n: usize) -> (r: Result<
    Vec<Vec<u8>>,
    CodecError,
>)
    ensures
        match r {
            Ok(all) => reconstructed(slots_view(slots@), k as int, n as int) == Ok::<
                Seq<Seq<u8>>,
                CodecError,
            >(shards_view(all@)) && all.len() == n,
            Err(e) => reconstructed(slots_view(slots@), k as int, n as int) == Err::<
                Seq<Seq<u8>>,
                CodecError,
            >(e),
        },
{
    let (numbers, pieces) = match hand_over(slots, k, n) {
        Ok(handed) => handed,
        Err(e) => {
            return Err(e);
        },
    };
    match fec_rebuild(k, n, &numbers, &pieces) {
        None => Err(CodecError::DecodeFailed),
        Some(d) => {
            let data = concat_shards(&d, k);
            assert(shards_view(d@).take(k as int) =~= shards_view(d@));
            let all = fec_encode(k, n, data.as_slice());
            check_against(slots, all)
        },
    }
}

/// Decodes the payload from the shards present in `slots`, letting the
/// decoder correct wrong shards as far as their number allows. No shard is
/// compared with the result: the caller holds the payload against what it
/// knows of it.
pub fn decode_data(slots: &Vec<Option<Vec<u8>>>, k: usize, n: usize) -> (r: Result<
    Vec<u8>,
    CodecError,
>)
    ensures
        match r {
            Ok(data) => corrected(slots_view(slots@), k as int, n as int) == Ok::<
                Seq<u8>,
                CodecError,
            >(data@),
            Err(e) => corrected(slots_view(slots@), k as int, n as int) == Err::<
                Seq<u8>,
                CodecError,
            >(e),
        },
{
    let (numbers, pieces) = match hand_over(slots, k, n) {
        Ok(handed) => handed,
        Err(e) => {
            return Err(e);
        },
    };
    match fec_decode(k, n, &numbers, &pieces) {
        None => Err(CodecError::DecodeFailed),
        Some(data) => Ok(data),
    }
}

/// Each of the pieces of `len` elements is found in their join at its
/// place.
pub proof fn lemma_concat_pieces(pieces: Seq<Seq<u8>>, len: int)
    requires
        0 <= len,
        forall|i: int| 0 <= i < pieces.len() ==> (#[trigger] pieces[i]).len() == len,
    ensures
        concat(pieces).len() == pieces.len() * len,
        forall|i: int|
            0 <= i < pieces.len() ==> #[trigger] pieces[i] == concat(pieces).subrange(
                i * len,
                i * len + len,
            ),
    decreases pieces.len(),
{
    if pieces.len() == 0 {
        assert(pieces.len() * len == 0) by (nonlinear_arith)
            requires
                pieces.len() == 0,
        ;
    } else {
        let prev = pieces.drop_last();
        lemma_concat_pieces(prev, len);
        assert(prev.len() * len + len == pieces.len() * len) by (nonlinear_arith)
            requires
                prev.len() + 1 == pieces.len(),
        ;
        assert forall|i: int| 0 <= i < pieces.len() implies #[trigger] pieces[i] == concat(
            pieces,
        ).subrange(i * len, i * len + len) by {
            if i < prev.len() {
                assert(prev[i] == pieces[i]);
                assert(i * len + len <= prev.len() * len) by (nonlinear_arith)
                    requires
                        0 <= i < prev.len(),
                        0 <= len,
                ;
                assert(0 <= i * len) by (nonlinear_arith)
                    requires
                        0 <= i,
                        0 <= len,
                ;
                assert(concat(prev).subrange(i * len, i * len + len) =~= concat(pieces).subrange(
                    i * len,
                    i * len + len,
                ));
            } else {
                assert(pieces[i] == pieces.last());
                assert(i * len == prev.len() * len);
                assert(pieces.last() =~= concat(pieces).subrange(i * len, i * len + len));
            }
        }
    }
}

} // verus!
