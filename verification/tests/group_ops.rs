use hypertile::group::GroupElt;
use hypertile::matrix::{Mat4, Sq3, ENTRY_BOUND};

fn mat_eq(a: &Mat4, b: &Mat4) -> bool {
    for i in 0..16 {
        if a.m[i] != b.m[i] {
            return false;
        }
    }
    true
}

#[test]
fn make_repr_converges_from_every_rotation_of_a_class() {
    let rot = GroupElt::rotation();
    let base = GroupElt::translation();
    let mut expected: Option<u32> = None;
    let mut reprs: Vec<[usize; 9]> = Vec::new();
    let mut element = base;
    for _ in 0..4 {
        let mut copy = element;
        copy.make_repr();
        let mut normalized = copy;
        let id = normalized.get_id();
        // Every member of the class reaches the same identifier, and the
        // representative's own rank equals it.
        assert_eq!(normalized.perm.to_int(), id);
        match expected {
            None => expected = Some(id),
            Some(e) => assert_eq!(id, e),
        }
        reprs.push(normalized.perm.func);
        element = element.multiply(&rot).expect("rotation stays in range");
    }
    // All four rotations normalize to the same representative permutation.
    for w in reprs.windows(2) {
        assert_eq!(w[0], w[1]);
    }
}

#[test]
fn right_multiply_by_rotation_keeps_identifier() {
    let rot = GroupElt::rotation();
    let mut e = GroupElt::translation();
    let id = e.get_id();
    assert!(e.right_multiply_in_place(&rot));
    assert_eq!(e.id, Some(id));
    assert_eq!(e.get_id(), id);
}

#[test]
fn right_multiply_by_translation_invalidates_identifier() {
    let trans = GroupElt::translation();
    let mut e = GroupElt::identity();
    assert_eq!(e.get_id(), 0);
    assert!(e.right_multiply_in_place(&trans));
    assert_eq!(e.id, None);
    assert_eq!(e.get_id(), 106858);
}

#[test]
fn multiply_leaves_identifier_unknown() {
    let t = GroupElt::translation();
    let r = GroupElt::rotation();
    let p = t.multiply(&r).expect("small product stays in range");
    assert_eq!(p.id, None);
}

#[test]
fn permute_only_keeps_address_and_drops_pose() {
    let t = GroupElt::translation();
    let moved = t.multiply(&t).expect("small product stays in range");
    let addressed = moved.permute_only();
    assert_eq!(addressed.perm.func, moved.perm.func);
    assert_eq!(addressed.id, moved.id);
    assert!(mat_eq(&addressed.matrix, &Mat4::identity()));
}

#[test]
fn lorentz_inverse_undoes_a_group_matrix() {
    let t = GroupElt::translation();
    let r = GroupElt::rotation();
    let e = t.multiply(&r).unwrap().multiply(&t).unwrap();
    let inv = e.matrix.lorentz_inverse();
    let product = e.matrix.multiply(&inv).expect("product stays in range");
    assert!(mat_eq(&product, &Mat4::identity()));
    let product_rev = inv.multiply(&e.matrix).expect("product stays in range");
    assert!(mat_eq(&product_rev, &Mat4::identity()));
}

#[test]
fn repeated_translation_eventually_reports_range_exhaustion() {
    let t = GroupElt::translation();
    let mut e = GroupElt::identity();
    let mut overflowed = false;
    for _ in 0..64 {
        // While products are accepted, every entry stays inside the bound.
        for entry in &e.matrix.m {
            assert!(entry.a.abs() <= ENTRY_BOUND && entry.b.abs() <= ENTRY_BOUND);
        }
        match e.multiply(&t) {
            Some(next) => e = next,
            None => {
                overflowed = true;
                break;
            }
        }
    }
    assert!(overflowed);
}

#[test]
fn translation_matrix_is_the_exact_boost() {
    let t = GroupElt::translation();
    // One translation: cosh = 2, sinh = √3 in the y–w block.
    assert_eq!(t.matrix.m[5], Sq3 { a: 2, b: 0 });
    assert_eq!(t.matrix.m[7], Sq3 { a: 0, b: 1 });
    // Two translations compose to cosh = 7, sinh = 4√3 exactly.
    let t2 = t.multiply(&t).unwrap();
    assert_eq!(t2.matrix.m[5], Sq3 { a: 7, b: 0 });
    assert_eq!(t2.matrix.m[7], Sq3 { a: 0, b: 4 });
    assert_eq!(t2.matrix.m[13], Sq3 { a: 0, b: 4 });
    assert_eq!(t2.matrix.m[15], Sq3 { a: 7, b: 0 });
    assert_eq!(t2.matrix.m[0], Sq3 { a: 1, b: 0 });
    assert_eq!(t2.matrix.m[10], Sq3 { a: 1, b: 0 });
}

#[test]
fn rotation_matrix_has_order_four() {
    let r = GroupElt::rotation();
    let mut m = Mat4::identity();
    for _ in 0..4 {
        m = m.multiply(&r.matrix).expect("rotation stays in range");
    }
    assert!(mat_eq(&m, &Mat4::identity()));
}
