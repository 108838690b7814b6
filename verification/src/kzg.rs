use vstd::prelude::*;
use crate::errors::KzgError;
use crate::points::{
    g1_decode_of, g1_gen_mul, g1_gen_mul_of, g1_point_sub, g1_sub_of, g2_decode_of, g2_gen_mul,
    g2_gen_mul_of, g2_point_sub, g2_sub_of, ifft_g1_of, ifft_g1_points, msm_g1, msm_g1_of,
    pairing_check_of, pairings_verify, G1Point, G2Point,
};
use crate::pow2::{
    div_ceil_spec, div_ceil_u64, is_pow2, is_pow2_u64, log2, log2_u64, next_pow2, next_pow2_u64,
};
use crate::roots::{
    expand_root_of_unity, get_primitive_roots_of_unity, lemma_table_wf, primitive_root_values,
    MAX_DOMAIN_SIZE,
};
use crate::scalar::{
    fr_add, fr_div, fr_modulus, fr_mul, fr_pow, fr_sub, lemma_fr_sub_zero_iff,
    lemma_value_injective, Scalar,
};

verus! {

/// Number of bytes a scalar field element occupies in an encoded blob.
pub const BYTES_PER_FIELD_ELEMENT: u64 = 32;

/// The per-configuration encoding parameters: how a blob is cut into
/// chunks, and the FFT width those choices call for.
#[derive(Clone, Copy, Debug, PartialEq, Eq, Structural)]
pub struct Params {
    pub chunk_length: u64,
    pub num_chunks: u64,
    pub max_fft_width: u64,
    pub completed_setup: bool,
}

/// A polynomial in evaluation form: its values over the active evaluation
/// domain, one canonical scalar per domain point.
pub struct Polynomial {
    pub elements: Vec<Scalar>,
}

impl Polynomial {
    /// The residues the evaluations stand for.
    pub open spec fn values(self) -> Seq<nat> {
        self.elements@.map_values(|s: Scalar| s.value())
    }

    /// Every evaluation is a canonical residue.
    pub open spec fn wf(self) -> bool {
        forall|i: int| 0 <= i < self.elements@.len() ==> (#[trigger] self.elements@[i]).wf()
    }

    /// Wraps evaluation-form values.
    pub fn new(elements: Vec<Scalar>) -> (r: Polynomial)
        ensures
            r.elements@ == elements@,
    {
        Polynomial { elements }
    }

    /// The number of evaluations.
    pub fn len(&self) -> (r: usize)
        ensures
            r == self.elements@.len(),
    {
        self.elements.len()
    }
}

/// The commitment engine: the SRS vectors of a trusted setup, the active
/// encoding parameters, and the expanded roots of unity of the active
/// evaluation domain.
pub struct Kzg {
    pub g1: Vec<G1Point>,
    pub g2: Vec<G2Point>,
    pub params: Params,
    pub srs_order: u64,
    pub expanded_roots_of_unity: Vec<Scalar>,
}

/// The commitment a polynomial's evaluations map to under a commitment
/// key: the multi-scalar multiplication of the Lagrange-basis key for the
/// evaluations' domain size.
pub open spec fn commitment_value(g1: Seq<G1Point>, evals: Seq<nat>) -> G1Point {
    msm_g1_of(ifft_g1_of(g1.take(evals.len() as int)), evals)
}

/// The closed-form quotient value at the evaluation point itself: the sum,
/// over the domain points other than `z`, of (eval - y) * w / ((z - w) * z).
pub open spec fn domain_quotient_sum(
    evals: Seq<nat>,
    roots: Seq<nat>,
    z: int,
    y: int,
    n: int,
) -> int
    decreases n,
{
    if n <= 0 {
        0
    } else {
        let prev = domain_quotient_sum(evals, roots, z, y, n - 1);
        if roots[n - 1] == z {
            prev
        } else {
            fr_add(
                prev,
                fr_div(
                    fr_mul(fr_sub(evals[n - 1] as int, y), roots[n - 1] as int),
                    fr_mul(fr_sub(z, roots[n - 1] as int), z),
                ),
            )
        }
    }
}

/// The quotient polynomial's evaluation at domain point `i` for an opening
/// at domain point `idx`: the singular closed form where the point is the
/// evaluation point itself, the plain difference quotient elsewhere.
pub open spec fn quotient_value(evals: Seq<nat>, roots: Seq<nat>, idx: int, i: int) -> int {
    if roots[i] == roots[idx] {
        domain_quotient_sum(evals, roots, roots[idx] as int, evals[idx] as int, roots.len() as int)
    } else {
        fr_div(
            fr_sub(evals[i] as int, evals[idx] as int),
            fr_sub(roots[i] as int, roots[idx] as int),
        )
    }
}

/// The full evaluation vector of the quotient polynomial for an opening at
/// domain point `idx`.
pub open spec fn quotient_values(evals: Seq<nat>, roots: Seq<nat>, idx: int) -> Seq<nat> {
    Seq::new(evals.len(), |i: int| quotient_value(evals, roots, idx, i) as nat)
}

/// The proof point an opening at domain point `idx` commits to: the
/// commitment to the quotient polynomial under the same commitment key.
pub open spec fn proof_value(g1: Seq<G1Point>, evals: Seq<nat>, roots: Seq<nat>, idx: int) -> G1Point {
    commitment_value(g1, quotient_values(evals, roots, idx))
}

/// The G2 element the verifier pairs against: the secret-shifted entry
/// when the verification vector is long enough to hold one past the
/// table-sized prefix, the leading entry otherwise.
pub open spec fn g2_tau_of(g2: Seq<G2Point>) -> G2Point {
    if g2.len() > 28 {
        g2[1]
    } else {
        g2[0]
    }
}

/// The boolean outcome of the pairing equality the verifier checks.
pub open spec fn verify_outcome(g2: Seq<G2Point>, commitment: G1Point, proof: G1Point, value: nat, z: nat) -> bool {
    pairing_check_of(
        g1_sub_of(commitment, g1_gen_mul_of(value)),
        proof,
        g2_sub_of(g2_tau_of(g2), g2_gen_mul_of(z)),
    )
}

/// The integer eight little-endian bytes stand for.
pub open spec fn u64le(b: Seq<u8>, off: int) -> nat {
    (b[off] as nat) + (b[off + 1] as nat) * 0x100 + (b[off + 2] as nat) * 0x1_0000 + (b[off
        + 3] as nat) * 0x100_0000 + (b[off + 4] as nat) * 0x1_0000_0000 + (b[off + 5] as nat)
        * 0x100_0000_0000 + (b[off + 6] as nat) * 0x1_0000_0000_0000 + (b[off + 7] as nat)
        * 0x100_0000_0000_0000
}

/// The integer 32 little-endian bytes stand for.
pub open spec fn scalar_le(b: Seq<u8>, off: int) -> nat {
    u64le(b, off) + u64le(b, off + 8) * 0x1_0000_0000_0000_0000 + u64le(b, off + 16)
        * 0x1_0000_0000_0000_0000_0000_0000_0000_0000 + u64le(b, off + 24)
        * 0x1_0000_0000_0000_0000_0000_0000_0000_0000_0000_0000_0000_0000
}

/// Offset of the G2 count within an SRS payload: past the G1 count and the
/// 32-byte G1 encodings.
pub open spec fn payload_g2_off(b: Seq<u8>) -> int {
    8 + 32 * (u64le(b, 0) as int)
}

/// Offset of the encoding parameters: past the G2 count and the 64-byte G2
/// encodings.
pub open spec fn payload_params_off(b: Seq<u8>) -> int {
    payload_g2_off(b) + 8 + 64 * (u64le(b, payload_g2_off(b)) as int)
}

/// Offset of the SRS order: past the three parameter words and the
/// completed flag.
pub open spec fn payload_srs_off(b: Seq<u8>) -> int {
    payload_params_off(b) + 25
}

/// Offset of the expanded-roots count.
pub open spec fn payload_roots_off(b: Seq<u8>) -> int {
    payload_srs_off(b) + 8
}

/// Where the payload must end: past the 32-byte scalar encodings.
pub open spec fn payload_end(b: Seq<u8>) -> int {
    payload_roots_off(b) + 8 + 32 * (u64le(b, payload_roots_off(b)) as int)
}

/// A well-formed SRS payload: counts and lengths agree exactly, every
/// point and scalar encoding is valid, the flag byte is boolean, the G1
/// count matches the declared SRS order, and at least two verification
/// points are present.
pub open spec fn payload_wf(b: Seq<u8>) -> bool {
    &&& b.len() >= 8
    &&& payload_g2_off(b) + 8 <= b.len()
    &&& payload_roots_off(b) + 8 <= b.len()
    &&& payload_end(b) == b.len()
    &&& forall|i: int|
        0 <= i < u64le(b, 0) ==> (#[trigger] g1_decode_of(
            b.subrange(8 + 32 * i, 8 + 32 * i + 32),
        )) is Some
    &&& forall|i: int|
        0 <= i < u64le(b, payload_g2_off(b)) ==> (#[trigger] g2_decode_of(
            b.subrange(
                payload_g2_off(b) + 8 + 64 * i,
                payload_g2_off(b) + 8 + 64 * i + 64,
            ),
        )) is Some
    &&& forall|i: int|
        0 <= i < u64le(b, payload_roots_off(b)) ==> #[trigger] scalar_le(
            b,
            payload_roots_off(b) + 8 + 32 * i,
        ) < fr_modulus()
    &&& (b[payload_params_off(b) + 24] == 0 || b[payload_params_off(b) + 24] == 1)
    &&& u64le(b, payload_srs_off(b)) == u64le(b, 0)
    &&& u64le(b, payload_g2_off(b)) >= 2
}

/// What a successful payload parse yields: every field of the engine is
/// pinned by the bytes alone.
pub open spec fn parsed_payload(b: Seq<u8>, k: Kzg) -> bool {
    &&& k.g1@.len() == u64le(b, 0)
    &&& forall|i: int|
        0 <= i < k.g1@.len() ==> #[trigger] k.g1@[i] == g1_decode_of(
            b.subrange(8 + 32 * i, 8 + 32 * i + 32),
        )->Some_0
    &&& k.g2@.len() == u64le(b, payload_g2_off(b))
    &&& forall|i: int|
        0 <= i < k.g2@.len() ==> #[trigger] k.g2@[i] == g2_decode_of(
            b.subrange(
                payload_g2_off(b) + 8 + 64 * i,
                payload_g2_off(b) + 8 + 64 * i + 64,
            ),
        )->Some_0
    &&& k.params.chunk_length == u64le(b, payload_params_off(b))
    &&& k.params.num_chunks == u64le(b, payload_params_off(b) + 8)
    &&& k.params.max_fft_width == u64le(b, payload_params_off(b) + 16)
    &&& k.params.completed_setup == (b[payload_params_off(b) + 24] == 1)
    &&& k.srs_order == u64le(b, payload_srs_off(b))
    &&& k.expanded_roots_of_unity@.len() == u64le(b, payload_roots_off(b))
    &&& forall|i: int|
        0 <= i < k.expanded_roots_of_unity@.len() ==> (
        #[trigger] k.expanded_roots_of_unity@[i]).value() == scalar_le(
            b,
            payload_roots_off(b) + 8 + 32 * i,
        )
}

/// Reads a machine word from eight little-endian bytes.
pub fn read_u64_le(bytes: &Vec<u8>, off: usize) -> (r: u64)
    requires
        off + 8 <= bytes@.len(),
    ensures
        r == u64le(bytes@, off as int),
{
    let n = bytes.len();
    (bytes[off] as u64) + (bytes[off + 1] as u64) * 0x100 + (bytes[off + 2] as u64) * 0x1_0000 + (
    bytes[off + 3] as u64) * 0x100_0000 + (bytes[off + 4] as u64) * 0x1_0000_0000 + (bytes[off
        + 5] as u64) * 0x100_0000_0000 + (bytes[off + 6] as u64) * 0x1_0000_0000_0000 + (bytes[off
        + 7] as u64) * 0x100_0000_0000_0000
}

/// The evaluation-domain size a pair of chunk minimums calls for: the
/// power-of-two-rounded product, doubled when the chunk length rounds to
/// one, since a length-1 chunk needs a domain sized by chunk count alone.
pub open spec fn domain_size_of(mcl: nat, mnc: nat) -> nat {
    let cl = next_pow2(mcl);
    let nc = next_pow2(mnc);
    if cl == 1 {
        2 * nc
    } else {
        cl * nc
    }
}

/// When a chunk-based derivation succeeds: the rounded product fits below
/// the SRS order, the domain exponent is within the primitive-roots table,
/// and the table root cycles within the largest supported domain.
pub open spec fn setup_ok_cond(srs_order: nat, mcl: nat, mnc: nat) -> bool {
    let e = log2(domain_size_of(mcl, mnc));
    &&& next_pow2(mcl) * next_pow2(mnc) < srs_order
    &&& e <= 28
    &&& exists|j: nat|
        1 <= j <= MAX_DOMAIN_SIZE && fr_pow(primitive_root_values()[e as int] as int, j) == 1
}

/// What a chunk-based derivation leaves behind: on failure the engine is
/// unchanged; on success the SRS is untouched, the parameters hold the
/// rounded configuration, and the expanded roots are exactly the powers of
/// the table root of the domain's exponent, up to (and not including) the
/// power that cycles back to one.
pub open spec fn setup_outcome(pre: Kzg, post: Kzg, mcl: nat, mnc: nat, ok: bool) -> bool {
    let cl = next_pow2(mcl);
    let nc = next_pow2(mnc);
    let e = log2(domain_size_of(mcl, mnc));
    let rv = primitive_root_values()[e as int] as int;
    let n = post.expanded_roots_of_unity@.len();
    &&& ok == setup_ok_cond(pre.srs_order as nat, mcl, mnc)
    &&& !ok ==> post == pre
    &&& ok ==> {
        &&& post.g1@ == pre.g1@
        &&& post.g2@ == pre.g2@
        &&& post.srs_order == pre.srs_order
        &&& post.params == (Params {
            chunk_length: cl as u64,
            num_chunks: nc as u64,
            max_fft_width: (cl * nc) as u64,
            completed_setup: true,
        })
        &&& n >= 1
        &&& forall|i: int|
            0 <= i < n ==> (#[trigger] post.expanded_roots_of_unity@[i]).wf()
                && post.expanded_roots_of_unity@[i].value() == fr_pow(rv, i as nat)
        &&& fr_pow(rv, n as nat) == 1
        &&& forall|i: int| 1 <= i < n ==> post.expanded_roots_of_unity@[i].value() != 1
    }
}

/// Deserializing equal payloads yields engines with equal fields: setup is
/// a pure function of its input bytes, with no hidden state.
pub proof fn lemma_setup_deterministic(b1: Seq<u8>, b2: Seq<u8>, k1: Kzg, k2: Kzg)
    requires
        b1 == b2,
        parsed_payload(b1, k1),
        parsed_payload(b2, k2),
    ensures
        k1.g1@ == k2.g1@,
        k1.g2@ == k2.g2@,
        k1.params == k2.params,
        k1.srs_order == k2.srs_order,
        k1.expanded_roots_of_unity@.map_values(|s: Scalar| s.value())
            == k2.expanded_roots_of_unity@.map_values(|s: Scalar| s.value()),
{
    assert(k1.g1@ =~= k2.g1@);
    assert(k1.g2@ =~= k2.g2@);
    assert(k1.expanded_roots_of_unity@.map_values(|s: Scalar| s.value())
        =~= k2.expanded_roots_of_unity@.map_values(|s: Scalar| s.value()));
}

/// Committing is a pure function of the commitment key and the
/// evaluations: equal inputs give the same commitment point, with no
/// hidden randomness.
pub proof fn lemma_commit_deterministic(
    g1a: Seq<G1Point>,
    evalsa: Seq<nat>,
    g1b: Seq<G1Point>,
    evalsb: Seq<nat>,
)
    requires
        g1a == g1b,
        evalsa == evalsb,
    ensures
        commitment_value(g1a, evalsa) == commitment_value(g1b, evalsb),
{
}

/// Proving is a pure function of the commitment key, the evaluations, the
/// domain and the index: equal inputs give the same proof point.
pub proof fn lemma_proof_deterministic(
    g1a: Seq<G1Point>,
    evalsa: Seq<nat>,
    rootsa: Seq<nat>,
    g1b: Seq<G1Point>,
    evalsb: Seq<nat>,
    rootsb: Seq<nat>,
    idx: int,
)
    requires
        g1a == g1b,
        evalsa == evalsb,
        rootsa == rootsb,
    ensures
        proof_value(g1a, evalsa, rootsa, idx) == proof_value(g1b, evalsb, rootsb, idx),
{
}

/// A successful chunk derivation leaves both parameters as exact powers of
/// two, no smaller than the requested minimums, with their product below
/// the SRS order.
pub proof fn lemma_params_rounded(pre: Kzg, post: Kzg, mcl: nat, mnc: nat)
    requires
        setup_outcome(pre, post, mcl, mnc, true),
    ensures
        is_pow2(post.params.chunk_length as nat),
        is_pow2(post.params.num_chunks as nat),
        post.params.chunk_length >= mcl,
        post.params.num_chunks >= mnc,
        (post.params.chunk_length as nat) * (post.params.num_chunks as nat) < pre.srs_order,
{
    crate::pow2::lemma_next_pow2_bounds(mcl);
    crate::pow2::lemma_next_pow2_bounds(mnc);
    let cl = next_pow2(mcl);
    let nc = next_pow2(mnc);
    assert(cl <= cl * nc && nc <= cl * nc) by (nonlinear_arith)
        requires
            cl >= 1,
            nc >= 1,
    ;
}

/// When either minimum exceeds 2^63, its power-of-two rounding reaches
/// 2^64, so the rounded product cannot fit below any machine-word SRS
/// order.
proof fn lemma_rounded_product_huge(mcl: nat, mnc: nat)
    requires
        mcl > 0x8000_0000_0000_0000 || mnc > 0x8000_0000_0000_0000,
    ensures
        next_pow2(mcl) * next_pow2(mnc) >= 0x1_0000_0000_0000_0000,
{
    crate::pow2::lemma_next_pow2_bounds(mcl);
    crate::pow2::lemma_next_pow2_bounds(mnc);
    crate::pow2::lemma_pow2_63_is_pow2();
    if mcl > 0x8000_0000_0000_0000 {
        crate::pow2::lemma_pow2_ordering(0x8000_0000_0000_0000nat, next_pow2(mcl));
        assert(next_pow2(mcl) * next_pow2(mnc) >= 0x1_0000_0000_0000_0000 * 1) by (
        nonlinear_arith)
            requires
                next_pow2(mcl) >= 0x1_0000_0000_0000_0000,
                next_pow2(mnc) >= 1,
        ;
    } else {
        crate::pow2::lemma_pow2_ordering(0x8000_0000_0000_0000nat, next_pow2(mnc));
        assert(next_pow2(mcl) * next_pow2(mnc) >= 1 * 0x1_0000_0000_0000_0000) by (
        nonlinear_arith)
            requires
                next_pow2(mnc) >= 0x1_0000_0000_0000_0000,
                next_pow2(mcl) >= 1,
        ;
    }
}

impl Kzg {
    /// The SRS vectors are consistent and every held scalar is canonical.
    pub open spec fn wf(self) -> bool {
        &&& self.g1@.len() == self.srs_order
        &&& self.g2@.len() >= 2
        &&& forall|i: int|
            0 <= i < self.expanded_roots_of_unity@.len() ==> (
            #[trigger] self.expanded_roots_of_unity@[i]).wf()
    }

    /// A copy of the commitment-key points.
    pub fn get_g1_points(&self) -> (r: Vec<G1Point>)
        ensures
            r@ == self.g1@,
    {
        let mut out: Vec<G1Point> = Vec::new();
        let mut i: usize = 0;
        while i < self.g1.len()
            invariant
                i == out@.len(),
                i <= self.g1@.len(),
                forall|j: int| 0 <= j < i ==> out@[j] == self.g1@[j],
            decreases self.g1@.len() - i,
        {
            out.push(self.g1[i].clone());
            i = i + 1;
        }
        proof {
            assert(out@ =~= self.g1@);
        }
        out
    }

    /// A copy of the verification-key points.
    pub fn get_g2_points(&self) -> (r: Vec<G2Point>)
        ensures
            r@ == self.g2@,
    {
        let mut out: Vec<G2Point> = Vec::new();
        let mut i: usize = 0;
        while i < self.g2.len()
            invariant
                i == out@.len(),
                i <= self.g2@.len(),
                forall|j: int| 0 <= j < i ==> out@[j] == self.g2@[j],
            decreases self.g2@.len() - i,
        {
            out.push(self.g2[i].clone());
            i = i + 1;
        }
        proof {
            assert(out@ =~= self.g2@);
        }
        out
    }

    /// The `i`th point of the active evaluation domain, if the domain is
    /// that large.
    pub fn get_nth_root_of_unity(&self, i: usize) -> (r: Option<&Scalar>)
        ensures
            r is Some <==> i < self.expanded_roots_of_unity@.len(),
            r is Some ==> *r->Some_0 == self.expanded_roots_of_unity@[i as int],
    {
        if i < self.expanded_roots_of_unity.len() {
            Some(&self.expanded_roots_of_unity[i])
        } else {
            None
        }
    }

    /// Projects the first `length` SRS points into the evaluation basis of
    /// the domain of that size: the commitment key in Lagrange form. Fails
    /// exactly when `length` is not a power of two, is beyond the largest
    /// supported domain, or exceeds the SRS.
    pub fn g1_ifft(&self, length: usize) -> (r: Result<Vec<G1Point>, KzgError>)
        ensures
            r is Ok <==> (is_pow2(length as nat) && length <= MAX_DOMAIN_SIZE && length
                <= self.g1@.len()),
            r is Ok ==> r->Ok_0@ == ifft_g1_of(self.g1@.take(length as int)),
            r is Ok ==> r->Ok_0@.len() == length,
    {
        if !is_pow2_u64(length as u64) {
            return Err(
                KzgError::FftError("length provided is not a power of 2".to_string()),
            );
        }
        if length as u64 > MAX_DOMAIN_SIZE || length > self.g1.len() {
            return Err(
                KzgError::FftError(
                    "length provided exceeds the available commitment key".to_string(),
                ),
            );
        }
        let mut prefix: Vec<G1Point> = Vec::new();
        let mut i: usize = 0;
        while i < length
            invariant
                i == prefix@.len(),
                i <= length,
                length <= self.g1@.len(),
                forall|j: int| 0 <= j < i ==> prefix@[j] == self.g1@[j],
            decreases length - i,
        {
            prefix.push(self.g1[i].clone());
            i = i + 1;
        }
        proof {
            assert(prefix@ =~= self.g1@.take(length as int));
        }
        Ok(ifft_g1_points(&prefix))
    }

    /// Commits to a polynomial: multi-scalar-multiplies the Lagrange-basis
    /// commitment key for the polynomial's domain size by its evaluations.
    /// Fails exactly when the polynomial is longer than the commitment
    /// key, or its length is no supported domain size.
    pub fn commit(&self, polynomial: &Polynomial) -> (r: Result<G1Point, KzgError>)
        requires
            polynomial.wf(),
        ensures
            r is Ok <==> (polynomial.elements@.len() <= self.g1@.len() && is_pow2(
                polynomial.elements@.len(),
            ) && polynomial.elements@.len() <= MAX_DOMAIN_SIZE),
            r is Ok ==> r->Ok_0 == commitment_value(self.g1@, polynomial.values()),
    {
        if polynomial.len() > self.g1.len() {
            return Err(
                KzgError::SerializationError("polynomial length is not correct".to_string()),
            );
        }
        let bases = match self.g1_ifft(polynomial.len()) {
            Ok(b) => b,
            Err(e) => {
                return Err(e);
            },
        };
        let res = msm_g1(&bases, &polynomial.elements);
        proof {
            assert(polynomial.elements@.map_values(|s: Scalar| s.value()) == polynomial.values());
        }
        Ok(res)
    }

    /// Checks a proof against a commitment, a claimed value and an
    /// evaluation point, through the two-pairing equality. Malformed
    /// inputs fail the equality and yield false; there is no error path.
    pub fn verify_kzg_proof(
        &self,
        commitment: &G1Point,
        proof: &G1Point,
        value_fr: &Scalar,
        z_fr: &Scalar,
    ) -> (r: bool)
        requires
            self.g2@.len() >= 1,
            value_fr.wf(),
            z_fr.wf(),
        ensures
            r == verify_outcome(self.g2@, *commitment, *proof, value_fr.value(), z_fr.value()),
    {
        let g2_tau = if self.g2.len() > 28 {
            self.g2[1].clone()
        } else {
            self.g2[0].clone()
        };
        let value_g1 = g1_gen_mul(value_fr);
        let commit_minus_value = g1_point_sub(commitment, &value_g1);
        let z_g2 = g2_gen_mul(z_fr);
        let x_minus_z = g2_point_sub(&g2_tau, &z_g2);
        pairings_verify(&commit_minus_value, proof, &x_minus_z)
    }

    /// The closed-form quotient evaluation at the opening point itself:
    /// sums (eval - y) * w / ((z - w) * z) over the other domain points.
    fn compute_quotient_eval_on_domain(
        z_fr: &Scalar,
        eval_fr: &Vec<Scalar>,
        value_fr: &Scalar,
        roots_of_unities: &Vec<Scalar>,
    ) -> (r: Scalar)
        requires
            z_fr.wf(),
            z_fr.value() != 0,
            value_fr.wf(),
            eval_fr@.len() == roots_of_unities@.len(),
            forall|i: int| 0 <= i < eval_fr@.len() ==> (#[trigger] eval_fr@[i]).wf(),
            forall|i: int| 0 <= i < roots_of_unities@.len() ==> (
            #[trigger] roots_of_unities@[i]).wf(),
        ensures
            r.wf(),
            r.value() == domain_quotient_sum(
                eval_fr@.map_values(|s: Scalar| s.value()),
                roots_of_unities@.map_values(|s: Scalar| s.value()),
                z_fr.value() as int,
                value_fr.value() as int,
                roots_of_unities@.len() as int,
            ),
    {
        let ghost evals = eval_fr@.map_values(|s: Scalar| s.value());
        let ghost rootsv = roots_of_unities@.map_values(|s: Scalar| s.value());
        let mut quotient = Scalar::zero();
        let mut i: usize = 0;
        while i < roots_of_unities.len()
            invariant
                z_fr.wf(),
                z_fr.value() != 0,
                value_fr.wf(),
                eval_fr@.len() == roots_of_unities@.len(),
                forall|k: int| 0 <= k < eval_fr@.len() ==> (#[trigger] eval_fr@[k]).wf(),
                forall|k: int| 0 <= k < roots_of_unities@.len() ==> (
                #[trigger] roots_of_unities@[k]).wf(),
                i <= roots_of_unities@.len(),
                evals == eval_fr@.map_values(|s: Scalar| s.value()),
                rootsv == roots_of_unities@.map_values(|s: Scalar| s.value()),
                quotient.wf(),
                quotient.value() == domain_quotient_sum(
                    evals,
                    rootsv,
                    z_fr.value() as int,
                    value_fr.value() as int,
                    i as int,
                ),
            decreases roots_of_unities@.len() - i,
        {
            let omega_i = roots_of_unities[i];
            if omega_i == *z_fr {
                proof {
                    assert(rootsv[i as int] == z_fr.value());
                }
            } else {
                proof {
                    lemma_value_injective(omega_i, *z_fr);
                    lemma_fr_sub_zero_iff(z_fr.value(), omega_i.value());
                }
                let fi = eval_fr[i].sub(value_fr);
                let numerator = fi.mul(&omega_i);
                let denom_diff = z_fr.sub(&omega_i);
                let denominator = denom_diff.mul(z_fr);
                let temp = numerator.div(&denominator);
                quotient = quotient.add(&temp);
            }
            i = i + 1;
        }
        quotient
    }

    /// Builds the opening proof of a polynomial at the domain point of the
    /// given index: the commitment to the quotient polynomial, whose value
    /// at the opening point itself is taken in closed form. Fails exactly
    /// when the configuration is not completed, the lengths disagree, the
    /// index is out of range, the opening point is the zero scalar, or the
    /// length is no supported domain size within the commitment key.
    pub fn compute_kzg_proof(
        &self,
        polynomial: &Polynomial,
        index: u64,
        root_of_unities: &Vec<Scalar>,
    ) -> (r: Result<G1Point, KzgError>)
        requires
            polynomial.wf(),
            forall|i: int| 0 <= i < root_of_unities@.len() ==> (
            #[trigger] root_of_unities@[i]).wf(),
        ensures
            r is Ok <==> (self.params.completed_setup && polynomial.elements@.len()
                == root_of_unities@.len() && index < root_of_unities@.len()
                && root_of_unities@[index as int].value() != 0 && is_pow2(
                polynomial.elements@.len(),
            ) && polynomial.elements@.len() <= MAX_DOMAIN_SIZE && polynomial.elements@.len()
                <= self.g1@.len()),
            r is Ok ==> r->Ok_0 == proof_value(
                self.g1@,
                polynomial.values(),
                root_of_unities@.map_values(|s: Scalar| s.value()),
                index as int,
            ),
    {
        if !self.params.completed_setup {
            return Err(
                KzgError::GenericError(
                    "setup is not complete, run the data_setup functions".to_string(),
                ),
            );
        }
        if polynomial.len() != root_of_unities.len() {
            return Err(
                KzgError::GenericError(
                    "inconsistent length between blob and root of unities".to_string(),
                ),
            );
        }
        if index >= root_of_unities.len() as u64 {
            return Err(
                KzgError::GenericError(
                    "the evaluation index is out of range for the domain".to_string(),
                ),
            );
        }
        let usized_index = index as usize;
        let value_fr = polynomial.elements[usized_index];
        let z_fr = root_of_unities[usized_index];
        if z_fr.is_zero() {
            return Err(
                KzgError::GenericError(
                    "the opening point must be a nonzero domain element".to_string(),
                ),
            );
        }
        let ghost evals = polynomial.elements@.map_values(|s: Scalar| s.value());
        let ghost rootsv = root_of_unities@.map_values(|s: Scalar| s.value());

        let mut quotient_poly: Vec<Scalar> = Vec::new();
        let mut i: usize = 0;
        while i < root_of_unities.len()
            invariant
                polynomial.wf(),
                forall|k: int| 0 <= k < root_of_unities@.len() ==> (
                #[trigger] root_of_unities@[k]).wf(),
                polynomial.elements@.len() == root_of_unities@.len(),
                usized_index < root_of_unities@.len(),
                value_fr == polynomial.elements@[usized_index as int],
                z_fr == root_of_unities@[usized_index as int],
                z_fr.wf(),
                z_fr.value() != 0,
                value_fr.wf(),
                evals == polynomial.elements@.map_values(|s: Scalar| s.value()),
                rootsv == root_of_unities@.map_values(|s: Scalar| s.value()),
                i <= root_of_unities@.len(),
                i == quotient_poly@.len(),
                forall|k: int|
                    0 <= k < i ==> (#[trigger] quotient_poly@[k]).wf() && quotient_poly@[k].value()
                        == quotient_values(evals, rootsv, usized_index as int)[k],
            decreases root_of_unities@.len() - i,
        {
            let omega_i = root_of_unities[i];
            let denom = omega_i.sub(&z_fr);
            proof {
                lemma_fr_sub_zero_iff(omega_i.value(), z_fr.value());
            }
            if denom.is_zero() {
                let q = Self::compute_quotient_eval_on_domain(
                    &z_fr,
                    &polynomial.elements,
                    &value_fr,
                    root_of_unities,
                );
                proof {
                    assert(rootsv[i as int] == rootsv[usized_index as int]);
                }
                quotient_poly.push(q);
            } else {
                let poly_shift_i = polynomial.elements[i].sub(&value_fr);
                let q = poly_shift_i.div(&denom);
                quotient_poly.push(q);
            }
            i = i + 1;
        }
        let g1_lagrange = match self.g1_ifft(polynomial.len()) {
            Ok(b) => b,
            Err(e) => {
                return Err(e);
            },
        };
        let res = msm_g1(&g1_lagrange, &quotient_poly);
        proof {
            assert(quotient_poly@.map_values(|s: Scalar| s.value()) =~= quotient_values(
                evals,
                rootsv,
                usized_index as int,
            ));
            assert(evals.len() == polynomial.elements@.len());
        }
        Ok(res)
    }

    /// Deserializes an SRS payload: the G1 commitment key, the G2
    /// verification key, the encoding parameters, the SRS order and the
    /// expanded roots the payload was saved with. Validates the encoding
    /// explicitly: fails exactly when a length, count, point, scalar or
    /// flag byte is out of shape, when the G1 count disagrees with the
    /// declared SRS order, or when fewer than two G2 points are present.
    pub fn setup(bytes: &Vec<u8>) -> (r: Result<Kzg, KzgError>)
        ensures
            r is Ok <==> payload_wf(bytes@),
            r is Ok ==> parsed_payload(bytes@, r->Ok_0),
            r is Ok ==> r->Ok_0.wf(),
    {
        if bytes.len() < 8 {
            return Err(KzgError::SerializationError("the payload is too short".to_string()));
        }
        let n1 = read_u64_le(bytes, 0);
        let mut off: usize = 8;
        let mut g1: Vec<G1Point> = Vec::new();
        let mut i: u64 = 0;
        while i < n1
            invariant
                bytes@.len() >= 8,
                n1 == u64le(bytes@, 0),
                i <= n1,
                off == 8 + 32 * (i as int),
                off <= bytes@.len(),
                i as int == g1@.len(),
                forall|j: int|
                    0 <= j < i ==> (#[trigger] g1_decode_of(
                        bytes@.subrange(8 + 32 * j, 8 + 32 * j + 32),
                    )) is Some && g1@[j] == g1_decode_of(
                        bytes@.subrange(8 + 32 * j, 8 + 32 * j + 32),
                    )->Some_0,
            decreases n1 - i,
        {
            if bytes.len() - off < 32 {
                proof {
                    if payload_wf(bytes@) {
                        assert(payload_g2_off(bytes@) + 8 <= bytes@.len());
                        assert(false);
                    }
                }
                return Err(
                    KzgError::SerializationError(
                        "the payload ends inside the G1 points".to_string(),
                    ),
                );
            }
            match crate::points::g1_decode_at(bytes, off) {
                Some(p) => g1.push(p),
                None => {
                    return Err(
                        KzgError::SerializationError(
                            "the payload holds an invalid G1 point".to_string(),
                        ),
                    );
                },
            }
            off = off + 32;
            i = i + 1;
        }
        proof {
            assert(off == payload_g2_off(bytes@));
        }
        if bytes.len() - off < 8 {
            return Err(
                KzgError::SerializationError("the payload ends before the G2 count".to_string()),
            );
        }
        let n2 = read_u64_le(bytes, off);
        off = off + 8;
        let mut g2: Vec<G2Point> = Vec::new();
        let mut i2: u64 = 0;
        while i2 < n2
            invariant
                bytes@.len() >= 8,
                n1 == u64le(bytes@, 0),
                n2 == u64le(bytes@, payload_g2_off(bytes@)),
                payload_g2_off(bytes@) + 8 <= bytes@.len(),
                i2 <= n2,
                off == payload_g2_off(bytes@) + 8 + 64 * (i2 as int),
                off <= bytes@.len(),
                i2 as int == g2@.len(),
                forall|j: int|
                    0 <= j < i2 ==> (#[trigger] g2_decode_of(
                        bytes@.subrange(
                            payload_g2_off(bytes@) + 8 + 64 * j,
                            payload_g2_off(bytes@) + 8 + 64 * j + 64,
                        ),
                    )) is Some && g2@[j] == g2_decode_of(
                        bytes@.subrange(
                            payload_g2_off(bytes@) + 8 + 64 * j,
                            payload_g2_off(bytes@) + 8 + 64 * j + 64,
                        ),
                    )->Some_0,
            decreases n2 - i2,
        {
            if bytes.len() - off < 64 {
                proof {
                    if payload_wf(bytes@) {
                        assert(payload_roots_off(bytes@) + 8 <= bytes@.len());
                        assert(false);
                    }
                }
                return Err(
                    KzgError::SerializationError(
                        "the payload ends inside the G2 points".to_string(),
                    ),
                );
            }
            match crate::points::g2_decode_at(bytes, off) {
                Some(p) => g2.push(p),
                None => {
                    return Err(
                        KzgError::SerializationError(
                            "the payload holds an invalid G2 point".to_string(),
                        ),
                    );
                },
            }
            off = off + 64;
            i2 = i2 + 1;
        }
        proof {
            assert(off == payload_params_off(bytes@));
        }
        if n2 < 2 {
            return Err(
                KzgError::SerializationError(
                    "the payload holds fewer than two G2 points".to_string(),
                ),
            );
        }
        if bytes.len() - off < 25 {
            proof {
                if payload_wf(bytes@) {
                    assert(payload_roots_off(bytes@) + 8 <= bytes@.len());
                    assert(false);
                }
            }
            return Err(
                KzgError::SerializationError(
                    "the payload ends inside the encoding parameters".to_string(),
                ),
            );
        }
        let chunk_length = read_u64_le(bytes, off);
        let num_chunks = read_u64_le(bytes, off + 8);
        let max_fft_width = read_u64_le(bytes, off + 16);
        let completed_byte = bytes[off + 24];
        if completed_byte > 1 {
            return Err(
                KzgError::SerializationError(
                    "the payload holds an invalid completed flag".to_string(),
                ),
            );
        }
        off = off + 25;
        if bytes.len() - off < 8 {
            proof {
                if payload_wf(bytes@) {
                    assert(payload_roots_off(bytes@) + 8 <= bytes@.len());
                    assert(false);
                }
            }
            return Err(
                KzgError::SerializationError("the payload ends before the SRS order".to_string()),
            );
        }
        let srs_order = read_u64_le(bytes, off);
        if srs_order != n1 {
            return Err(
                KzgError::SerializationError(
                    "the payload's G1 count disagrees with its SRS order".to_string(),
                ),
            );
        }
        off = off + 8;
        proof {
            assert(off == payload_roots_off(bytes@));
        }
        if bytes.len() - off < 8 {
            return Err(
                KzgError::SerializationError(
                    "the payload ends before the expanded-roots count".to_string(),
                ),
            );
        }
        let n3 = read_u64_le(bytes, off);
        off = off + 8;
        let mut roots: Vec<Scalar> = Vec::new();
        let mut i3: u64 = 0;
        while i3 < n3
            invariant
                bytes@.len() >= 8,
                n3 == u64le(bytes@, payload_roots_off(bytes@)),
                payload_roots_off(bytes@) + 8 <= bytes@.len(),
                i3 <= n3,
                off == payload_roots_off(bytes@) + 8 + 32 * (i3 as int),
                off <= bytes@.len(),
                i3 as int == roots@.len(),
                forall|j: int|
                    0 <= j < i3 ==> (#[trigger] roots@[j]).wf() && roots@[j].value() == scalar_le(
                        bytes@,
                        payload_roots_off(bytes@) + 8 + 32 * j,
                    ),
            decreases n3 - i3,
        {
            if bytes.len() - off < 32 {
                proof {
                    if payload_wf(bytes@) {
                        assert(payload_end(bytes@) == bytes@.len());
                        assert(false);
                    }
                }
                return Err(
                    KzgError::SerializationError(
                        "the payload ends inside the expanded roots".to_string(),
                    ),
                );
            }
            let l0 = read_u64_le(bytes, off);
            let l1 = read_u64_le(bytes, off + 8);
            let l2 = read_u64_le(bytes, off + 16);
            let l3 = read_u64_le(bytes, off + 24);
            match Scalar::new_checked(l0, l1, l2, l3) {
                Some(s) => {
                    proof {
                        assert(s.value() == scalar_le(bytes@, off as int));
                    }
                    roots.push(s);
                },
                None => {
                    proof {
                        if payload_wf(bytes@) {
                            assert(scalar_le(bytes@, payload_roots_off(bytes@) + 8 + 32 * (
                            i3 as int)) < fr_modulus());
                            assert(false);
                        }
                    }
                    return Err(
                        KzgError::SerializationError(
                            "the payload holds a non-canonical scalar".to_string(),
                        ),
                    );
                },
            }
            off = off + 32;
            i3 = i3 + 1;
        }
        if off != bytes.len() {
            proof {
                assert(off == payload_end(bytes@));
            }
            return Err(
                KzgError::SerializationError(
                    "the payload length does not match its counts".to_string(),
                ),
            );
        }
        let kzg = Kzg {
            g1,
            g2,
            params: Params {
                chunk_length,
                num_chunks,
                max_fft_width,
                completed_setup: completed_byte == 1,
            },
            srs_order,
            expanded_roots_of_unity: roots,
        };
        proof {
            assert(bytes@.len() >= 8);
            assert(payload_g2_off(bytes@) + 8 <= bytes@.len());
            assert(payload_roots_off(bytes@) + 8 <= bytes@.len());
            assert(payload_end(bytes@) == bytes@.len());
            assert(forall|i: int| 0 <= i < u64le(bytes@, 0) ==> (#[trigger] g1_decode_of(bytes@.subrange(8 + 32 * i, 8 + 32 * i + 32))) is Some);
            assert(forall|i: int| 0 <= i < u64le(bytes@, payload_g2_off(bytes@)) ==> (#[trigger] g2_decode_of(bytes@.subrange(payload_g2_off(bytes@) + 8 + 64 * i, payload_g2_off(bytes@) + 8 + 64 * i + 64))) is Some);
            assert forall|i: int| 0 <= i < u64le(bytes@, payload_roots_off(bytes@)) implies #[trigger] scalar_le(bytes@, payload_roots_off(bytes@) + 8 + 32 * i) < fr_modulus() by {
                assert(kzg.expanded_roots_of_unity@[i].wf());
            }
            assert(bytes@[payload_params_off(bytes@) + 24] == 0 || bytes@[payload_params_off(bytes@) + 24] == 1);
            assert(u64le(bytes@, payload_srs_off(bytes@)) == u64le(bytes@, 0));
            assert(u64le(bytes@, payload_g2_off(bytes@)) >= 2);
            assert(payload_wf(bytes@));
            assert(parsed_payload(bytes@, kzg));
        }
        Ok(kzg)
    }

    /// Derives fresh encoding parameters from minimum chunk counts: rounds
    /// both up to powers of two, validates the configuration against the
    /// SRS order and the primitive-roots table, and expands the matching
    /// evaluation domain. On failure the engine is left unchanged.
    pub fn data_setup_mins(&mut self, min_chunk_length: u64, min_num_chunks: u64) -> (r: Result<
        (),
        KzgError,
    >)
        ensures
            setup_outcome(
                *old(self),
                *final(self),
                min_chunk_length as nat,
                min_num_chunks as nat,
                r is Ok,
            ),
    {
        proof {
            crate::pow2::lemma_next_pow2_bounds(min_chunk_length as nat);
            crate::pow2::lemma_next_pow2_bounds(min_num_chunks as nat);
        }
        if min_chunk_length > 0x8000_0000_0000_0000 || min_num_chunks > 0x8000_0000_0000_0000 {
            proof {
                lemma_rounded_product_huge(min_chunk_length as nat, min_num_chunks as nat);
            }
            return Err(
                KzgError::SerializationError(
                    "the supplied encoding parameters are not valid with respect to the SRS."
                        .to_string(),
                ),
            );
        }
        let chunk_length = next_pow2_u64(min_chunk_length);
        let num_chunks = next_pow2_u64(min_num_chunks);
        proof {
            assert((chunk_length as int) * (num_chunks as int)
                < 0x1_0000_0000_0000_0000_0000_0000_0000_0000) by (nonlinear_arith)
                requires
                    chunk_length <= 0x8000_0000_0000_0000,
                    num_chunks <= 0x8000_0000_0000_0000,
            ;
        }
        let prod128: u128 = (chunk_length as u128) * (num_chunks as u128);
        if prod128 >= self.srs_order as u128 {
            return Err(
                KzgError::SerializationError(
                    "the supplied encoding parameters are not valid with respect to the SRS."
                        .to_string(),
                ),
            );
        }
        let number_of_evaluations = chunk_length * num_chunks;
        proof {
            crate::pow2::lemma_pow2_mul(chunk_length as nat, num_chunks as nat);
        }
        let mut log2_of_evals = log2_u64(number_of_evaluations);
        proof {
            crate::pow2::lemma_log2_pow2(log2_of_evals as nat);
        }
        let max_fft_width = number_of_evaluations;
        if chunk_length == 1 {
            proof {
                crate::pow2::lemma_log2_pow2((log2_of_evals + 1) as nat);
            }
            log2_of_evals = log2_of_evals + 1;
        }
        if log2_of_evals > 28 {
            return Err(
                KzgError::SerializationError(
                    "the required root of unity exceeds the precomputed table".to_string(),
                ),
            );
        }
        let table = get_primitive_roots_of_unity();
        proof {
            lemma_table_wf();
        }
        let found_root_of_unity = table[log2_of_evals as usize];
        let mut expanded_roots_of_unity = match expand_root_of_unity(&found_root_of_unity) {
            Ok(v) => v,
            Err(e) => {
                    return Err(e);
            },
        };
        let _dropped = expanded_roots_of_unity.pop();
        self.params = Params {
            chunk_length,
            num_chunks,
            max_fft_width,
            completed_setup: true,
        };
        self.expanded_roots_of_unity = expanded_roots_of_unity;
        proof {
            let mcl = min_chunk_length as nat;
            let mnc = min_num_chunks as nat;
            let cl = next_pow2(mcl);
            let nc = next_pow2(mnc);
            let e = log2(domain_size_of(mcl, mnc));
            let rv = primitive_root_values()[e as int] as int;
            let n = self.expanded_roots_of_unity@.len();
            assert(cl == chunk_length);
            assert(nc == num_chunks);
            assert(e == log2_of_evals);
            assert(rv == found_root_of_unity.value());
            assert(setup_ok_cond(old(self).srs_order as nat, mcl, mnc));
        }
        Ok(())
    }

    /// Derives fresh encoding parameters from a blob size: divides the
    /// padded byte size into field elements, spreads them over the nodes,
    /// and delegates to the chunk-based derivation.
    pub fn data_setup_custom(&mut self, num_of_nodes: u64, padded_input_data_size: u64) -> (r:
        Result<(), KzgError>)
        requires
            num_of_nodes >= 1,
        ensures
            setup_outcome(
                *old(self),
                *final(self),
                div_ceil_spec(
                    div_ceil_spec(padded_input_data_size as nat, BYTES_PER_FIELD_ELEMENT as nat),
                    num_of_nodes as nat,
                ),
                num_of_nodes as nat,
                r is Ok,
            ),
    {
        let floor = BYTES_PER_FIELD_ELEMENT;
        let len_of_data_in_elements = div_ceil_u64(padded_input_data_size, floor);
        let min_num_chunks = div_ceil_u64(len_of_data_in_elements, num_of_nodes);
        self.data_setup_mins(min_num_chunks, num_of_nodes)
    }

    /// Builds the opening proof against the engine's own expanded roots of
    /// unity.
    pub fn compute_kzg_proof_with_roots_of_unity(
        &self,
        polynomial: &Polynomial,
        index: u64,
    ) -> (r: Result<G1Point, KzgError>)
        requires
            self.wf(),
            polynomial.wf(),
        ensures
            r is Ok <==> (self.params.completed_setup && polynomial.elements@.len()
                == self.expanded_roots_of_unity@.len() && index
                < self.expanded_roots_of_unity@.len()
                && self.expanded_roots_of_unity@[index as int].value() != 0 && is_pow2(
                polynomial.elements@.len(),
            ) && polynomial.elements@.len() <= MAX_DOMAIN_SIZE && polynomial.elements@.len()
                <= self.g1@.len()),
            r is Ok ==> r->Ok_0 == proof_value(
                self.g1@,
                polynomial.values(),
                self.expanded_roots_of_unity@.map_values(|s: Scalar| s.value()),
                index as int,
            ),
    {
        self.compute_kzg_proof(polynomial, index, &self.expanded_roots_of_unity)
    }
}

} // verus!
