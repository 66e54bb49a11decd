use hypertile::group::GroupElt;
use hypertile::permutation::Permutation;

fn perm_eq(a: &Permutation, b: &Permutation) -> bool {
    a.func == b.func
}

fn sample_permutations() -> Vec<Permutation> {
    let e = Permutation::identity();
    let r = Permutation::rotation();
    let t = Permutation::translation();
    let tr = t.multiply(&r);
    let rt = r.multiply(&t);
    let trt = tr.multiply(&t);
    let rtr = rt.multiply(&r);
    let long = trt.multiply(&rtr);
    vec![e, r, t, tr, rt, trt, rtr, long]
}

#[test]
fn multiply_is_associative_on_sampled_elements() {
    let samples = sample_permutations();
    for a in &samples {
        for b in &samples {
            for c in &samples {
                let left = a.multiply(b).multiply(c);
                let right = a.multiply(&b.multiply(c));
                assert!(perm_eq(&left, &right));
            }
        }
    }
}

#[test]
fn rotation_order_is_exactly_four() {
    let e = Permutation::identity();
    let r = Permutation::rotation();
    let r2 = r.multiply(&r);
    let r3 = r2.multiply(&r);
    let r4 = r3.multiply(&r);
    assert!(perm_eq(&r4, &e));
    assert!(!perm_eq(&r3, &e));
    assert!(!perm_eq(&r2, &e));
    assert!(!perm_eq(&r, &e));
}

#[test]
fn canonical_id_is_rotation_invariant() {
    let r = Permutation::rotation();
    for p in &sample_permutations() {
        let rotated = p.multiply(&r);
        assert_eq!(p.repr(), rotated.repr());
        let twice = rotated.multiply(&r);
        assert_eq!(p.repr(), twice.repr());
    }
}

#[test]
fn generator_identifiers_are_fixed() {
    let mut identity = GroupElt::identity();
    assert_eq!(identity.get_id(), 0);
    let mut rotation = GroupElt::rotation();
    assert_eq!(rotation.get_id(), 0);
    // The translation generator's raw rank and the least rank over its
    // rotation class.
    assert_eq!(Permutation::translation().to_int(), 213991);
    let mut translation = GroupElt::translation();
    assert_eq!(translation.get_id(), 106858);
}

#[test]
fn lehmer_rank_is_zero_only_for_identity() {
    assert_eq!(Permutation::identity().to_int(), 0);
    assert_ne!(Permutation::rotation().to_int(), 0);
    assert_ne!(Permutation::translation().to_int(), 0);
}

#[test]
fn lehmer_ranks_distinguish_sampled_elements() {
    let samples = sample_permutations();
    for i in 0..samples.len() {
        for j in 0..samples.len() {
            if perm_eq(&samples[i], &samples[j]) {
                assert_eq!(samples[i].to_int(), samples[j].to_int());
            } else {
                assert_ne!(samples[i].to_int(), samples[j].to_int());
            }
        }
    }
}
