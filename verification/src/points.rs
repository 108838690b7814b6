use vstd::prelude::*;
use crate::scalar::Scalar;
use ark_bn254::{Bn254, Fr, G1Affine, G1Projective, G2Affine};
use ark_ec::pairing::Pairing;
use ark_ec::{AffineRepr, CurveGroup, VariableBaseMSM};
use ark_ff::{BigInt, PrimeField};
use ark_serialize::{CanonicalDeserialize, CanonicalSerialize};
use ark_poly::EvaluationDomain;
use ark_std::Zero;

verus! {

/// A point of the curve group G1, the shape of a commitment, a proof, and
/// the commitment-key entries. The point is opaque: the engine moves it
/// between the trusted group operations below and never reads its
/// coordinates.
#[verifier::external_body]
pub struct G1Point {
    p: G1Affine,
}

impl Clone for G1Point {
    /// Relies on the curve point being a plain value: the clone is the
    /// same point.
    #[verifier::external_body]
    fn clone(&self) -> (r: Self)
        ensures
            r == *self,
    {
        G1Point { p: self.p }
    }
}

/// A point of the extension-field curve group G2, the shape of the
/// verification-key entries. Opaque, as G1Point is.
#[verifier::external_body]
pub struct G2Point {
    p: G2Affine,
}

impl Clone for G2Point {
    /// Relies on the curve point being a plain value: the clone is the
    /// same point.
    #[verifier::external_body]
    fn clone(&self) -> (r: Self)
        ensures
            r == *self,
    {
        G2Point { p: self.p }
    }
}

/// The inverse discrete Fourier transform of a sequence of G1 points over
/// the radix-2 evaluation domain whose size is the sequence length.
pub uninterp spec fn ifft_g1_of(points: Seq<G1Point>) -> Seq<G1Point>;

/// The multi-scalar multiplication of G1 bases by scalar residues.
pub uninterp spec fn msm_g1_of(bases: Seq<G1Point>, scalars: Seq<nat>) -> G1Point;

/// The G1 generator multiplied by a scalar residue.
pub uninterp spec fn g1_gen_mul_of(v: nat) -> G1Point;

/// The G2 generator multiplied by a scalar residue.
pub uninterp spec fn g2_gen_mul_of(v: nat) -> G2Point;

/// The difference of two G1 points.
pub uninterp spec fn g1_sub_of(a: G1Point, b: G1Point) -> G1Point;

/// The difference of two G2 points.
pub uninterp spec fn g2_sub_of(a: G2Point, b: G2Point) -> G2Point;

/// Whether the pairing product e(a1, G2 generator) * e(-b1, b2) is the
/// identity of the target group.
pub uninterp spec fn pairing_check_of(a1: G1Point, b1: G1Point, b2: G2Point) -> bool;

/// The G1 point a 32-byte compressed encoding stands for, if the encoding
/// is valid.
pub uninterp spec fn g1_decode_of(bytes: Seq<u8>) -> Option<G1Point>;

/// The G2 point a 64-byte compressed encoding stands for, if the encoding
/// is valid.
pub uninterp spec fn g2_decode_of(bytes: Seq<u8>) -> Option<G2Point>;

/// The 32-byte compressed encoding of a G1 point.
pub uninterp spec fn g1_encode_of(p: G1Point) -> Seq<u8>;

/// Relies on ark_poly's GeneralEvaluationDomain inverse FFT over G1: the
/// transform is a function of the input points alone, and returns as many
/// points as it is given. A radix-2 domain of the points' length exists
/// for every power of two up to the largest supported domain size.
#[verifier::external_body]
pub fn ifft_g1_points(points: &Vec<G1Point>) -> (r: Vec<G1Point>)
    requires
        crate::pow2::is_pow2(points@.len()),
        points@.len() <= crate::roots::MAX_DOMAIN_SIZE,
    ensures
        r@ == ifft_g1_of(points@),
        r@.len() == points@.len(),
{
    let domain = ark_poly::GeneralEvaluationDomain::<Fr>::new(points.len())
        .expect("a radix-2 domain of every supported power-of-two size exists");
    let projective: Vec<G1Projective> = points.iter().map(|g| G1Projective::from(g.p)).collect();
    let result = domain.ifft(&projective);
    result.iter().map(|g| G1Point { p: g.into_affine() }).collect()
}

/// Relies on ark_ec's variable-base multi-scalar multiplication over G1,
/// which succeeds whenever bases and scalars have equal lengths.
#[verifier::external_body]
pub fn msm_g1(bases: &Vec<G1Point>, scalars: &Vec<Scalar>) -> (r: G1Point)
    requires
        bases@.len() == scalars@.len(),
        forall|i: int| 0 <= i < scalars@.len() ==> (#[trigger] scalars@[i]).wf(),
    ensures
        r == msm_g1_of(bases@, scalars@.map_values(|s: Scalar| s.value())),
{
    let frs: Vec<Fr> = scalars
        .iter()
        .map(|s| Fr::from_bigint(BigInt::new([s.l0, s.l1, s.l2, s.l3])).unwrap())
        .collect();
    let points: Vec<G1Affine> = bases.iter().map(|g| g.p).collect();
    let res = G1Projective::msm(points.as_slice(), frs.as_slice())
        .expect("bases and scalars have equal lengths");
    G1Point { p: res.into_affine() }
}

/// Relies on ark scalar multiplication of the fixed G1 generator.
#[verifier::external_body]
pub fn g1_gen_mul(s: &Scalar) -> (r: G1Point)
    requires
        s.wf(),
    ensures
        r == g1_gen_mul_of(s.value()),
{
    let f = Fr::from_bigint(BigInt::new([s.l0, s.l1, s.l2, s.l3])).unwrap();
    G1Point { p: (G1Affine::generator() * f).into_affine() }
}

/// Relies on ark scalar multiplication of the fixed G2 generator.
#[verifier::external_body]
pub fn g2_gen_mul(s: &Scalar) -> (r: G2Point)
    requires
        s.wf(),
    ensures
        r == g2_gen_mul_of(s.value()),
{
    let f = Fr::from_bigint(BigInt::new([s.l0, s.l1, s.l2, s.l3])).unwrap();
    G2Point { p: (G2Affine::generator() * f).into_affine() }
}

/// Relies on ark group subtraction in G1.
#[verifier::external_body]
pub fn g1_point_sub(a: &G1Point, b: &G1Point) -> (r: G1Point)
    ensures
        r == g1_sub_of(*a, *b),
{
    G1Point { p: (a.p - b.p).into_affine() }
}

/// Relies on ark group subtraction in G2.
#[verifier::external_body]
pub fn g2_point_sub(a: &G2Point, b: &G2Point) -> (r: G2Point)
    ensures
        r == g2_sub_of(*a, *b),
{
    G2Point { p: (a.p - b.p).into_affine() }
}

/// Relies on Bn254::multi_pairing over the pairs (a1, G2 generator) and
/// (-b1, b2), and on the target group's zero test: true exactly when the
/// pairing product is the identity.
#[verifier::external_body]
pub fn pairings_verify(a1: &G1Point, b1: &G1Point, b2: &G2Point) -> (r: bool)
    ensures
        r == pairing_check_of(*a1, *b1, *b2),
{
    let neg_b1 = -b1.p;
    let p = [a1.p, neg_b1];
    let q = [G2Affine::generator(), b2.p];
    let result = Bn254::multi_pairing(p, q);
    result.is_zero()
}

/// Relies on ark_serialize's compressed G1 decoding, a function of the 32
/// input bytes alone, which also validates the encoding.
#[verifier::external_body]
pub fn g1_decode_at(bytes: &Vec<u8>, off: usize) -> (r: Option<G1Point>)
    requires
        off + 32 <= bytes@.len(),
    ensures
        r == g1_decode_of(bytes@.subrange(off as int, off as int + 32)),
{
    G1Affine::deserialize_compressed(&bytes[off..off + 32]).ok().map(|p| G1Point { p })
}

/// Relies on ark_serialize's compressed G2 decoding, a function of the 64
/// input bytes alone, which also validates the encoding.
#[verifier::external_body]
pub fn g2_decode_at(bytes: &Vec<u8>, off: usize) -> (r: Option<G2Point>)
    requires
        off + 64 <= bytes@.len(),
    ensures
        r == g2_decode_of(bytes@.subrange(off as int, off as int + 64)),
{
    G2Affine::deserialize_compressed(&bytes[off..off + 64]).ok().map(|p| G2Point { p })
}

/// Relies on ark_serialize's compressed G1 encoding, a function of the
/// point alone: 32 bytes for every G1 point.
#[verifier::external_body]
pub fn g1_encode(p: &G1Point) -> (r: Vec<u8>)
    ensures
        r@ == g1_encode_of(*p),
        r@.len() == 32,
{
    let mut out: Vec<u8> = Vec::new();
    p.p.serialize_compressed(&mut out).expect("writing to a vector cannot fail");
    out
}

} // verus!
