//! Account derivation and the byte encodings it starts from.

use crate::primitives::{AccountId, AssetKind, AssetPair};
use vstd::bytes::{
    lemma_auto_spec_u128_to_from_le_bytes, spec_u128_from_le_bytes, spec_u128_to_le_bytes,
};
use vstd::prelude::*;

verus! {

/// The encoding of an asset: a tag byte, then the id's sixteen bytes with the
/// least significant first.
pub open spec fn asset_bytes(a: AssetKind) -> Seq<u8> {
    match a {
        AssetKind::Native => seq![0u8],
        AssetKind::WithId(id) => seq![1u8] + spec_u128_to_le_bytes(id),
    }
}

/// Bytewise dictionary order.
pub open spec fn lex_le(a: Seq<u8>, b: Seq<u8>) -> bool
    decreases a.len(),
{
    a.len() == 0 || (b.len() > 0 && (a[0] < b[0] || (a[0] == b[0] && lex_le(
        a.drop_first(),
        b.drop_first(),
    ))))
}

/// The pair with the asset whose encoding comes first in front.
pub open spec fn canonical(a: AssetKind, b: AssetKind) -> AssetPair {
    if lex_le(asset_bytes(a), asset_bytes(b)) {
        (a, b)
    } else {
        (b, a)
    }
}

/// The encoding of two byte strings, each behind its length.
pub open spec fn pair_key_bytes(a: Seq<u8>, b: Seq<u8>) -> Seq<u8> {
    seq![(4 * a.len()) as u8] + a + seq![(4 * b.len()) as u8] + b
}

/// The first twenty bytes of `"modl"`, the pallet id and the seed, filled up
/// with zeroes.
pub open spec fn sub_account_bytes(pallet_id: Seq<u8>, seed: Seq<u8>) -> Seq<u8> {
    let all = seq![0x6du8, 0x6f, 0x64, 0x6c] + pallet_id + seed;
    Seq::new(
        20,
        |i: int|
            if i < all.len() {
                all[i]
            } else {
                0u8
            },
    )
}

/// The account whose bytes are `b`.
pub open spec fn account_with(b: Seq<u8>) -> AccountId {
    choose|a: AccountId| a.bytes@ == b
}

/// An account is the one with its bytes.
pub proof fn lemma_account_with(a: AccountId)
    ensures
        account_with(a.bytes@) == a,
{
    let c = account_with(a.bytes@);
    assert(c.bytes@ == a.bytes@);
    assert(c.bytes =~= a.bytes);
}

/// Any twenty bytes are an account.
pub(crate) proof fn lemma_some_account(b: Seq<u8>)
    requires
        b.len() == 20,
    ensures
        exists|a: AccountId| a.bytes@ == b,
{
    let a = AccountId {
        bytes: [
            b[0],
            b[1],
            b[2],
            b[3],
            b[4],
            b[5],
            b[6],
            b[7],
            b[8],
            b[9],
            b[10],
            b[11],
            b[12],
            b[13],
            b[14],
            b[15],
            b[16],
            b[17],
            b[18],
            b[19],
        ],
    };
    assert(a.bytes@ =~= b);
}

/// The 256-bit BLAKE2b digest of `data`.
pub uninterp spec fn blake2_256_of(data: Seq<u8>) -> Seq<u8>;

/// `Encode::encode` of `frame_support`'s `NativeOrWithId<u128>`: one byte for
/// the variant, then the id as a little-endian `u128`.
#[verifier::external_body]
pub(crate) fn encode_asset(asset: &AssetKind) -> (r: Vec<u8>)
    ensures
        r@ == asset_bytes(*asset),
{
    parity_scale_codec::Encode::encode(
        &match *asset {
            AssetKind::Native => frame_support::traits::fungible::NativeOrWithId::<u128>::Native,
            AssetKind::WithId(id) => frame_support::traits::fungible::NativeOrWithId::WithId(id),
        },
    )
}

/// `Encode::encode` of a pair of byte vectors: each vector's length in compact
/// form (one byte, four times the length, below 64), then its bytes.
#[verifier::external_body]
fn encode_pair_key(a: &Vec<u8>, b: &Vec<u8>) -> (r: Vec<u8>)
    requires
        a@.len() < 64,
        b@.len() < 64,
    ensures
        r@ == pair_key_bytes(a@, b@),
{
    parity_scale_codec::Encode::encode(&(a, b))
}

/// `sp_io::hashing::blake2_256`: a digest of 32 bytes that depends on the data
/// alone.
#[verifier::external_body]
fn blake2_256(data: &Vec<u8>) -> (r: [u8; 32])
    ensures
        r@ == blake2_256_of(data@),
{
    sp_io::hashing::blake2_256(data)
}

/// `AccountIdConversion::into_sub_account_truncating` of `sp_runtime` for a
/// `PalletId` and a seed of raw bytes, read as a twenty-byte account: the tag
/// `"modl"`, the pallet id and the seed, cut off or filled up with zeroes.
#[verifier::external_body]
pub(crate) fn into_sub_account_truncating<const N: usize>(
    pallet_id: [u8; 8],
    seed: [u8; N],
) -> (r: AccountId)
    ensures
        r.bytes@ == sub_account_bytes(pallet_id@, seed@),
{
    AccountId {
        bytes: sp_runtime::traits::AccountIdConversion::<[u8; 20]>::into_sub_account_truncating(
            &frame_support::PalletId(pallet_id),
            seed,
        ),
    }
}

/// Whether `a` comes at or before `b` in dictionary order.
pub(crate) fn bytes_le(a: &Vec<u8>, b: &Vec<u8>) -> (r: bool)
    ensures
        r == lex_le(a@, b@),
{
    let mut i: usize = 0;
    proof {
        assert(a@.subrange(0, a@.len() as int) =~= a@);
        assert(b@.subrange(0, b@.len() as int) =~= b@);
    }
    while i < a.len()
        invariant
            0 <= i <= a@.len(),
            i <= b@.len(),
            lex_le(a@, b@) == lex_le(
                a@.subrange(i as int, a@.len() as int),
                b@.subrange(i as int, b@.len() as int),
            ),
        decreases a@.len() - i,
    {
        let ghost ta = a@.subrange(i as int, a@.len() as int);
        let ghost tb = b@.subrange(i as int, b@.len() as int);
        if i >= b.len() {
            return false;
        }
        if a[i] < b[i] {
            return true;
        }
        if a[i] > b[i] {
            return false;
        }
        proof {
            assert(ta.drop_first() =~= a@.subrange(i + 1, a@.len() as int));
            assert(tb.drop_first() =~= b@.subrange(i + 1, b@.len() as int));
        }
        i = i + 1;
    }
    true
}

/// Whether the encoding of `a` comes at or before that of `b`.
pub(crate) fn in_order(a: &AssetKind, b: &AssetKind) -> (r: bool)
    ensures
        r == lex_le(asset_bytes(*a), asset_bytes(*b)),
{
    bytes_le(&encode_asset(a), &encode_asset(b))
}

/// Seed of a pair's pool account.
pub open spec fn pair_seed(pair: AssetPair) -> Seq<u8> {
    blake2_256_of(pair_key_bytes(asset_bytes(pair.0), asset_bytes(pair.1)))
}

proof fn lemma_asset_bytes_len(a: AssetKind)
    ensures
        1 <= asset_bytes(a).len() <= 17,
{
    lemma_auto_spec_u128_to_from_le_bytes();
}

/// The encoding of `pair` that its accounts are derived from.
fn pair_key(pair: &AssetPair) -> (r: Vec<u8>)
    ensures
        r@ == pair_key_bytes(asset_bytes(pair.0), asset_bytes(pair.1)),
{
    proof {
        lemma_asset_bytes_len(pair.0);
        lemma_asset_bytes_len(pair.1);
    }
    encode_pair_key(&encode_asset(&pair.0), &encode_asset(&pair.1))
}

/// The account derived from a digest of `pair`'s encoding.
pub(crate) fn hashed_pair_account(pallet_id: [u8; 8], pair: &AssetPair) -> (r: AccountId)
    ensures
        r.bytes@ == sub_account_bytes(pallet_id@, pair_seed(*pair)),
{
    into_sub_account_truncating(pallet_id, blake2_256(&pair_key(pair)))
}

/// The account derived from `pair`'s encoding itself, of which eight bytes fit.
pub(crate) fn plain_pair_account(pallet_id: [u8; 8], pair: &AssetPair) -> (r: AccountId)
    ensures
        r.bytes@ == sub_account_bytes(
            pallet_id@,
            pair_key_bytes(asset_bytes(pair.0), asset_bytes(pair.1)),
        ),
{
    let key = pair_key(pair);
    let mut seed: [u8; 8] = [0, 0, 0, 0, 0, 0, 0, 0];
    let mut i: usize = 0;
    while i < 8 && i < key.len()
        invariant
            0 <= i <= 8,
            i <= key@.len(),
            forall|j: int| 0 <= j < 8 ==> seed@[j] == if j < i { key@[j] } else { 0u8 },
        decreases 8 - i,
    {
        seed[i] = key[i];
        i = i + 1;
    }
    assert(pallet_id@.len() == 8 && seed@.len() == 8);
    assert(sub_account_bytes(pallet_id@, seed@) =~= sub_account_bytes(pallet_id@, key@));
    into_sub_account_truncating(pallet_id, seed)
}

/// Dictionary order runs one way or the other, and both only between equals.
pub proof fn lemma_lex_total(a: Seq<u8>, b: Seq<u8>)
    ensures
        lex_le(a, b) || lex_le(b, a),
        lex_le(a, b) && lex_le(b, a) ==> a == b,
    decreases a.len(),
{
    if a.len() > 0 && b.len() > 0 {
        lemma_lex_total(a.drop_first(), b.drop_first());
        if lex_le(a, b) && lex_le(b, a) {
            assert(a =~= seq![a[0]] + a.drop_first());
            assert(b =~= seq![b[0]] + b.drop_first());
        }
    } else if a.len() == 0 && b.len() == 0 {
        assert(a =~= b);
    }
}

/// Different assets have different encodings.
pub proof fn lemma_asset_bytes_injective(a: AssetKind, b: AssetKind)
    requires
        asset_bytes(a) == asset_bytes(b),
    ensures
        a == b,
{
    lemma_auto_spec_u128_to_from_le_bytes();
    assert(asset_bytes(a)[0] == asset_bytes(b)[0]);
    match (a, b) {
        (AssetKind::WithId(x), AssetKind::WithId(y)) => {
            assert(spec_u128_to_le_bytes(x).len() == 16 && spec_u128_to_le_bytes(y).len() == 16);
            assert(asset_bytes(a).drop_first() =~= spec_u128_to_le_bytes(x));
            assert(asset_bytes(b).drop_first() =~= spec_u128_to_le_bytes(y));
            assert(spec_u128_from_le_bytes(spec_u128_to_le_bytes(x)) == x);
        },
        _ => {
            assert(a is Native <==> asset_bytes(a)[0] == 0);
            assert(b is Native <==> asset_bytes(b)[0] == 0);
        },
    }
}

/// Two assets are in canonical order exactly where the first one's encoding does not
/// come after the second one's.
pub proof fn lemma_pair_order(a: AssetKind, b: AssetKind)
    ensures
        canonical(a, b) == (a, b) <==> lex_le(asset_bytes(a), asset_bytes(b)),
{
    lemma_lex_total(asset_bytes(a), asset_bytes(b));
}

/// `x` has the smaller byte where the two first differ, or is the beginning of `y`.
pub open spec fn comes_before(x: Seq<u8>, y: Seq<u8>) -> bool {
    exists|i: int|
        #![trigger x.take(i)]
        0 <= i <= x.len() && i < y.len() && x.take(i) == y.take(i) && (i < x.len() ==> x[i]
            < y[i])
}

/// The canonical form puts the asset first whose encoding has the smaller byte where
/// the two first differ, or is the other one's beginning.
pub proof fn law_canonical_goes_by_encoding(a: AssetKind, b: AssetKind)
    requires
        a != b,
    ensures
        comes_before(asset_bytes(canonical(a, b).0), asset_bytes(canonical(a, b).1)),
{
    lemma_lex_total(asset_bytes(a), asset_bytes(b));
    if asset_bytes(a) == asset_bytes(b) {
        lemma_asset_bytes_injective(a, b);
    }
    let (p, q) = canonical(a, b);
    lemma_first_difference(asset_bytes(p), asset_bytes(q));
}

/// Where two strings in dictionary order first differ.
proof fn lemma_first_difference(x: Seq<u8>, y: Seq<u8>)
    requires
        lex_le(x, y),
        x != y,
    ensures
        comes_before(x, y),
    decreases x.len(),
{
    if x.len() == 0 || x[0] < y[0] {
        assert(x.take(0) =~= y.take(0));
        assert(y.len() > 0) by {
            if y.len() == 0 {
                assert(x =~= y);
            }
        }
    } else {
        let (u, v) = (x.drop_first(), y.drop_first());
        assert(x =~= seq![x[0]] + u);
        assert(y =~= seq![y[0]] + v);
        lemma_first_difference(u, v);
        let i = choose|i: int|
            #![trigger u.take(i)]
            0 <= i <= u.len() && i < v.len() && u.take(i) == v.take(i) && (i < u.len() ==> u[i]
                < v[i]);
        assert(x.take(i + 1) =~= seq![x[0]] + u.take(i));
        assert(y.take(i + 1) =~= seq![y[0]] + v.take(i));
        if i < u.len() {
            assert(x[i + 1] == u[i] && y[i + 1] == v[i]);
        }
    }
}

/// A pair has one canonical form, whichever way round it is given, and taking
/// it again changes nothing.
pub proof fn law_canonical_pair(a: AssetKind, b: AssetKind)
    ensures
        canonical(a, b) == canonical(b, a),
        canonical(canonical(a, b).0, canonical(a, b).1) == canonical(a, b),
        canonical(a, b) == (a, b) || canonical(a, b) == (b, a),
{
    lemma_lex_total(asset_bytes(a), asset_bytes(b));
    if asset_bytes(a) == asset_bytes(b) {
        lemma_asset_bytes_injective(a, b);
    }
}

} // verus!
