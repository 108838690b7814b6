use vstd::prelude::*;
use crate::errors::KzgError;
use crate::scalar::{fr_modulus, fr_mul, fr_pow, Scalar};

verus! {

/// Largest evaluation-domain size the scheme supports: 2^28, the order of
/// the last entry of the primitive-roots table.
pub const MAX_DOMAIN_SIZE: u64 = 0x1000_0000;

/// The shipped primitive-roots table, limb form: entry `k` is a primitive
/// 2^k-th root of unity of the scalar field. These are named constants of
/// the protocol, bit-exact with the canonical field.
pub open spec fn primitive_root_limbs() -> Seq<Scalar> {
    seq![
        Scalar { l0: 1, l1: 0, l2: 0, l3: 0 },
        Scalar { l0: 4891460686036598784, l1: 2896914383306846353, l2: 13281191951274694749, l3: 3486998266802970665 },
        Scalar { l0: 2527087222397613622, l1: 6695204439272418284, l2: 327476452638867716, l3: 3486998266802970665 },
        Scalar { l0: 10704402425919135360, l1: 5936434144913852938, l2: 17049394741569908534, l3: 3112970176132370210 },
        Scalar { l0: 12760115869041182219, l1: 11055769604441701272, l2: 2048662040769024140, l3: 2380201477744082766 },
        Scalar { l0: 4534364320199676624, l1: 11247974383505828637, l2: 10842451344304943785, l3: 704024743550620626 },
        Scalar { l0: 15822547390047388218, l1: 5090979784920605886, l2: 14000806642677820914, l3: 1447929602671906762 },
        Scalar { l0: 11317061033624672273, l1: 2146903538426596473, l2: 16094987232344622048, l3: 1650355948196268433 },
        Scalar { l0: 14453002906517207670, l1: 7023718024139043376, l2: 17331575720852783024, l3: 554159777355432964 },
        Scalar { l0: 9888356262503077838, l1: 16730919078578367861, l2: 18428778117559158389, l3: 1089287402140675931 },
        Scalar { l0: 1295231164603062546, l1: 4159771074203146155, l2: 16987221740319371747, l3: 503587051935343648 },
        Scalar { l0: 14990892138116034274, l1: 13312970452735684810, l2: 12971070440946883953, l3: 178513978866336811 },
        Scalar { l0: 2037726488899540026, l1: 8570747871144680377, l2: 134492760481370281, l3: 662545464149659919 },
        Scalar { l0: 5378594887492817680, l1: 15212020320748318070, l2: 8420921063925371, l3: 31432055529778786 },
        Scalar { l0: 12513816448973172357, l1: 13018005335927991014, l2: 2255830314307594408, l3: 3284907887559304321 },
        Scalar { l0: 12192467936159919355, l1: 155983510951534601, l2: 103989586739080144, l3: 3250374553247014033 },
        Scalar { l0: 15087775233214268343, l1: 1641667745675509373, l2: 7249316272930938111, l3: 67187630906928453 },
        Scalar { l0: 2841305553363228901, l1: 365614731812479246, l2: 14082910820695433715, l3: 2015411323404765442 },
        Scalar { l0: 9567545175896342752, l1: 14227021851996246461, l2: 6629710949923774029, l3: 1863853281588889281 },
        Scalar { l0: 6637559829441244349, l1: 3481942500310468410, l2: 5873418851262023957, l3: 2477233939078171218 },
        Scalar { l0: 5999407858879526999, l1: 12421321615888692383, l2: 2832916697199010563, l3: 2743358069261914211 },
        Scalar { l0: 12882679250960823587, l1: 6410035656685935843, l2: 4765394507826527372, l3: 2156530982351265050 },
        Scalar { l0: 12064543440463545470, l1: 17012944649580374971, l2: 14817070057475047957, l3: 1934629495612430759 },
        Scalar { l0: 13064173989021140381, l1: 6233199863045921055, l2: 7745012067293438265, l3: 148898490380240717 },
        Scalar { l0: 2028293168271393883, l1: 1467625613274850966, l2: 9596654050255193119, l3: 909634523159679186 },
        Scalar { l0: 17063381693978129178, l1: 8873981638024286830, l2: 11644904980285164756, l3: 3058875137825915375 },
        Scalar { l0: 2051879287397454354, l1: 6943234193189566894, l2: 77669474422529354, l3: 1182008650693047218 },
        Scalar { l0: 237279305830403140, l1: 13007017166795668898, l2: 6856003240715543396, l3: 331831521350773736 },
        Scalar { l0: 11229192882073836016, l1: 4624371214017703636, l2: 63235024940837564, l3: 3043318377369730693 },
    ]
}

/// The integers the table entries stand for.
pub open spec fn primitive_root_values() -> Seq<nat> {
    primitive_root_limbs().map_values(|s: Scalar| s.value())
}

/// Every table entry is a canonical residue.
pub proof fn lemma_table_wf()
    ensures
        forall|k: int| 0 <= k < 29 ==> (#[trigger] primitive_root_limbs()[k]).wf(),
{
    assert forall|k: int| 0 <= k < 29 implies (#[trigger] primitive_root_limbs()[k]).wf() by {
        if k < 15 {
            if k < 8 {
                assert(k == 0 || k == 1 || k == 2 || k == 3 || k == 4 || k == 5 || k == 6 || k
                    == 7);
            } else {
                assert(k == 8 || k == 9 || k == 10 || k == 11 || k == 12 || k == 13 || k == 14);
            }
        } else {
            if k < 22 {
                assert(k == 15 || k == 16 || k == 17 || k == 18 || k == 19 || k == 20 || k == 21);
            } else {
                assert(k == 22 || k == 23 || k == 24 || k == 25 || k == 26 || k == 27 || k == 28);
            }
        }
    }
}

/// Builds the fixed table of primitive roots of unity, entry `k` of order
/// 2^k, for `k` up to 28.
pub fn get_primitive_roots_of_unity() -> (r: Vec<Scalar>)
    ensures
        r@ == primitive_root_limbs(),
        r@.len() == 29,
{
    let mut v: Vec<Scalar> = Vec::new();
    v.push(Scalar { l0: 1, l1: 0, l2: 0, l3: 0 });
    v.push(Scalar { l0: 4891460686036598784, l1: 2896914383306846353, l2: 13281191951274694749, l3: 3486998266802970665 });
    v.push(Scalar { l0: 2527087222397613622, l1: 6695204439272418284, l2: 327476452638867716, l3: 3486998266802970665 });
    v.push(Scalar { l0: 10704402425919135360, l1: 5936434144913852938, l2: 17049394741569908534, l3: 3112970176132370210 });
    v.push(Scalar { l0: 12760115869041182219, l1: 11055769604441701272, l2: 2048662040769024140, l3: 2380201477744082766 });
    v.push(Scalar { l0: 4534364320199676624, l1: 11247974383505828637, l2: 10842451344304943785, l3: 704024743550620626 });
    v.push(Scalar { l0: 15822547390047388218, l1: 5090979784920605886, l2: 14000806642677820914, l3: 1447929602671906762 });
    v.push(Scalar { l0: 11317061033624672273, l1: 2146903538426596473, l2: 16094987232344622048, l3: 1650355948196268433 });
    v.push(Scalar { l0: 14453002906517207670, l1: 7023718024139043376, l2: 17331575720852783024, l3: 554159777355432964 });
    v.push(Scalar { l0: 9888356262503077838, l1: 16730919078578367861, l2: 18428778117559158389, l3: 1089287402140675931 });
    v.push(Scalar { l0: 1295231164603062546, l1: 4159771074203146155, l2: 16987221740319371747, l3: 503587051935343648 });
    v.push(Scalar { l0: 14990892138116034274, l1: 13312970452735684810, l2: 12971070440946883953, l3: 178513978866336811 });
    v.push(Scalar { l0: 2037726488899540026, l1: 8570747871144680377, l2: 134492760481370281, l3: 662545464149659919 });
    v.push(Scalar { l0: 5378594887492817680, l1: 15212020320748318070, l2: 8420921063925371, l3: 31432055529778786 });
    v.push(Scalar { l0: 12513816448973172357, l1: 13018005335927991014, l2: 2255830314307594408, l3: 3284907887559304321 });
    v.push(Scalar { l0: 12192467936159919355, l1: 155983510951534601, l2: 103989586739080144, l3: 3250374553247014033 });
    v.push(Scalar { l0: 15087775233214268343, l1: 1641667745675509373, l2: 7249316272930938111, l3: 67187630906928453 });
    v.push(Scalar { l0: 2841305553363228901, l1: 365614731812479246, l2: 14082910820695433715, l3: 2015411323404765442 });
    v.push(Scalar { l0: 9567545175896342752, l1: 14227021851996246461, l2: 6629710949923774029, l3: 1863853281588889281 });
    v.push(Scalar { l0: 6637559829441244349, l1: 3481942500310468410, l2: 5873418851262023957, l3: 2477233939078171218 });
    v.push(Scalar { l0: 5999407858879526999, l1: 12421321615888692383, l2: 2832916697199010563, l3: 2743358069261914211 });
    v.push(Scalar { l0: 12882679250960823587, l1: 6410035656685935843, l2: 4765394507826527372, l3: 2156530982351265050 });
    v.push(Scalar { l0: 12064543440463545470, l1: 17012944649580374971, l2: 14817070057475047957, l3: 1934629495612430759 });
    v.push(Scalar { l0: 13064173989021140381, l1: 6233199863045921055, l2: 7745012067293438265, l3: 148898490380240717 });
    v.push(Scalar { l0: 2028293168271393883, l1: 1467625613274850966, l2: 9596654050255193119, l3: 909634523159679186 });
    v.push(Scalar { l0: 17063381693978129178, l1: 8873981638024286830, l2: 11644904980285164756, l3: 3058875137825915375 });
    v.push(Scalar { l0: 2051879287397454354, l1: 6943234193189566894, l2: 77669474422529354, l3: 1182008650693047218 });
    v.push(Scalar { l0: 237279305830403140, l1: 13007017166795668898, l2: 6856003240715543396, l3: 331831521350773736 });
    v.push(Scalar { l0: 11229192882073836016, l1: 4624371214017703636, l2: 63235024940837564, l3: 3043318377369730693 });
    proof {
        assert(v@ =~= primitive_root_limbs());
    }
    v
}

/// Enumerates the cyclic subgroup generated by a root of unity: the
/// sequence of its powers, starting at one and stopping as soon as the
/// power cycles back to one, with that repeated trailing one kept as the
/// last element. Fails, instead of looping forever, if the powers do not
/// cycle within the largest supported domain size.
pub fn expand_root_of_unity(root_of_unity: &Scalar) -> (r: Result<Vec<Scalar>, KzgError>)
    requires
        root_of_unity.wf(),
    ensures
        r is Ok <==> (exists|j: nat|
            1 <= j <= MAX_DOMAIN_SIZE && fr_pow(root_of_unity.value() as int, j) == 1),
        r is Ok ==> r->Ok_0@.len() >= 2,
        r is Ok ==> forall|k: int|
            0 <= k < r->Ok_0@.len() ==> (#[trigger] r->Ok_0@[k]).wf() && r->Ok_0@[k].value()
                == fr_pow(root_of_unity.value() as int, k as nat),
        r is Ok ==> r->Ok_0@[r->Ok_0@.len() - 1].value() == 1,
        r is Ok ==> forall|k: int| 1 <= k < r->Ok_0@.len() - 1 ==> (#[trigger] r->Ok_0@[
            k]).value() != 1,
{
    let mut roots: Vec<Scalar> = Vec::new();
    roots.push(Scalar::one());
    roots.push(*root_of_unity);
    let mut i: usize = 1;
    proof {
        assert(fr_pow(root_of_unity.value() as int, 0) == 1);
        assert(root_of_unity.value() as int * 1 == root_of_unity.value() as int);
        vstd::arithmetic::div_mod::lemma_small_mod(root_of_unity.value(), fr_modulus());
        assert(fr_pow(root_of_unity.value() as int, 1) == root_of_unity.value());
    }
    while i < (MAX_DOMAIN_SIZE as usize) && !roots[i].is_one()
        invariant
            root_of_unity.wf(),
            i + 1 == roots@.len(),
            1 <= i <= MAX_DOMAIN_SIZE,
            forall|k: int|
                0 <= k < roots@.len() ==> (#[trigger] roots@[k]).wf() && roots@[k].value()
                    == fr_pow(root_of_unity.value() as int, k as nat),
            forall|k: int| 1 <= k < roots@.len() - 1 ==> (#[trigger] roots@[k]).value() != 1,
        decreases MAX_DOMAIN_SIZE - i,
    {
        let next = roots[i].mul(root_of_unity);
        proof {
            assert(fr_pow(root_of_unity.value() as int, (i + 1) as nat) == fr_mul(
                root_of_unity.value() as int,
                fr_pow(root_of_unity.value() as int, i as nat),
            ));
        }
        roots.push(next);
        i = i + 1;
    }
    if roots[i].is_one() {
        proof {
            assert(1 <= i as nat <= MAX_DOMAIN_SIZE && fr_pow(
                root_of_unity.value() as int,
                i as nat,
            ) == 1);
        }
        Ok(roots)
    } else {
        assert(i == MAX_DOMAIN_SIZE);
        assert forall|j: nat| 1 <= j <= MAX_DOMAIN_SIZE implies fr_pow(
            root_of_unity.value() as int,
            j,
        ) != 1 by {
            assert(roots@[j as int].value() == fr_pow(root_of_unity.value() as int, j));
        }
        Err(
            KzgError::GenericError(
                "the root of unity does not cycle within the supported domain".to_string(),
            ),
        )
    }
}

} // verus!
