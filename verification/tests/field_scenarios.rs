//! End-to-end streaming scenarios: the engine does the exact group
//! bookkeeping while the test plays the role of the caller, measuring
//! hyperbolic distances in floating point from the engine's exact
//! matrices.

use hypertile::field::{Proximity, TileField};
use hypertile::matrix::Mat4;

const SQ3: f64 = 1.7320508075688772;

fn matf(m: &Mat4) -> [[f64; 4]; 4] {
    let mut out = [[0.0; 4]; 4];
    for r in 0..4 {
        for c in 0..4 {
            let e = m.m[4 * r + c];
            out[r][c] = e.a as f64 + e.b as f64 * SQ3;
        }
    }
    out
}

fn apply(m: &[[f64; 4]; 4], v: [f64; 4]) -> [f64; 4] {
    let mut out = [0.0; 4];
    for r in 0..4 {
        for c in 0..4 {
            out[r] += m[r][c] * v[c];
        }
    }
    out
}

fn point_distance(a: [f64; 4], b: [f64; 4]) -> f64 {
    let arg = a[3] * b[3] - a[0] * b[0] - a[1] * b[1];
    if arg < 1.0 { 0.0 } else { arg.acosh() }
}

fn tile_distance(m: &Mat4, pos: [f64; 4]) -> f64 {
    let center = apply(&matf(m), [0.0, 0.0, 0.0, 1.0]);
    point_distance(center, pos)
}

fn classify(m: &Mat4, pos: [f64; 4]) -> Proximity {
    let d = tile_distance(m, pos);
    if d < 1.3 {
        let mf = matf(m);
        let corners = [
            apply(&mf, [1.0, 1.0, 0.0, SQ3]),
            apply(&mf, [1.0, -1.0, 0.0, SQ3]),
            apply(&mf, [-1.0, -1.0, 0.0, SQ3]),
            apply(&mf, [-1.0, 1.0, 0.0, SQ3]),
        ];
        let mut dist = [0.0f64; 4];
        for i in 0..4 {
            dist[i] = (corners[i][3] * pos[3] - corners[i][0] * pos[0] - corners[i][1] * pos[1])
                .acosh();
        }
        let mut edges = [false; 4];
        for i in 0..4 {
            edges[i] = dist[i] < dist[(i + 1) % 4];
        }
        Proximity::Near { edges }
    } else if d > 2.8 {
        Proximity::Far
    } else {
        Proximity::Middle
    }
}

fn verdicts(field: &TileField, pos: [f64; 4]) -> Vec<Proximity> {
    field.tiles.iter().map(|t| classify(&t.get_mat(), pos)).collect()
}

fn step_forward(pos: &mut [f64; 4], dir: &mut [f64; 3], d: f64) {
    let (ch, sh) = (d.cosh(), d.sinh());
    let new_pos = [
        pos[0] * ch + dir[0] * sh,
        pos[1] * ch + dir[1] * sh,
        pos[2],
        pos[3] * ch + dir[2] * sh,
    ];
    let new_dir = [
        pos[0] * sh + dir[0] * ch,
        pos[1] * sh + dir[1] * ch,
        pos[3] * sh + dir[2] * ch,
    ];
    *pos = new_pos;
    *dir = new_dir;
}

fn assert_no_duplicate_codes(field: &TileField) {
    for i in 0..field.codes.len() {
        for j in (i + 1)..field.codes.len() {
            assert_ne!(field.codes[i], field.codes[j]);
        }
    }
}

#[test]
fn forward_walk_spawns_the_translation_neighbor() {
    let mut field = TileField::new();
    assert_eq!(field.codes, vec![0u32]);
    let mut pos = [0.0, 0.0, 0.0, 1.0];
    let mut dir = [0.0, 1.0, 0.0];
    let mut spawned = false;
    for _ in 0..1000 {
        step_forward(&mut pos, &mut dir, 0.005);
        let prox = verdicts(&field, pos);
        assert!(field.update(&prox));
        assert_no_duplicate_codes(&field);
        if field.codes.len() > 1 {
            spawned = true;
            break;
        }
    }
    assert!(spawned);
    // Crossing the forward edge of the identity tile spawns the class of
    // one translation in the forward frame.
    assert!(field.codes.contains(&106858));
}

#[test]
fn backward_walk_spawns_the_opposite_neighbor() {
    let mut field = TileField::new();
    let mut pos = [0.0, 0.0, 0.0, 1.0];
    let mut dir = [0.0, -1.0, 0.0];
    for _ in 0..1000 {
        step_forward(&mut pos, &mut dir, 0.005);
        let prox = verdicts(&field, pos);
        assert!(field.update(&prox));
        if field.codes.len() > 1 {
            break;
        }
    }
    assert!(field.codes.contains(&5167));
}

#[test]
fn drifting_far_triggers_a_consistent_recenter() {
    let mut field = TileField::new();
    let mut pos = [0.0, 0.0, 0.0, 1.0];
    let mut dir = [0.0, 1.0, 0.0];
    let mut steps = 0usize;
    while (pos[3] as f64).acosh() <= 3.7 {
        step_forward(&mut pos, &mut dir, 0.005);
        let prox = verdicts(&field, pos);
        assert!(field.update(&prox));
        assert_no_duplicate_codes(&field);
        steps += 1;
        assert!(steps < 5000);
    }
    assert!(field.tiles.len() > 1);

    // The caller finds the nearest tile and re-expresses the camera in its
    // frame before asking the field to relabel everything.
    let mut closest = 0usize;
    let mut min_dist = f64::MAX;
    for (i, t) in field.tiles.iter().enumerate() {
        let d = tile_distance(&t.get_mat(), pos);
        if d < min_dist {
            min_dist = d;
            closest = i;
        }
    }
    let closest_id = field.codes[closest];

    // Record another surviving tile and its distance, to check that the
    // relabeling preserved relative geometry.
    let other = if closest == 0 { 1 } else { 0 };
    let other_id = field.codes[other];
    let other_dist = tile_distance(&field.tiles[other].get_mat(), pos);

    let inv = field.tiles[closest].get_mat().lorentz_inverse();
    let invf = matf(&inv);
    let new_pos = apply(&invf, pos);
    let dir4 = [dir[0], dir[1], 0.0, dir[2]];
    let new_dir4 = apply(&invf, dir4);

    assert!(field.recenter(closest));
    assert_no_duplicate_codes(&field);

    // The chosen tile is the new origin: it sits first, keeps its
    // identifier, and its address matrix is the identity, so the camera's
    // distance to it is unchanged and the origin drift is gone.
    assert_eq!(field.codes[0], closest_id);
    let identity = Mat4::identity();
    for i in 0..16 {
        assert_eq!(field.tiles[0].get_mat().m[i], identity.m[i]);
    }
    let recentered_dist = tile_distance(&field.tiles[0].get_mat(), new_pos);
    assert!((recentered_dist - min_dist).abs() < 1e-6);
    assert!((new_pos[3] as f64).acosh() < 3.7);
    // The direction stays a unit spacelike vector under the form.
    let form = new_dir4[3] * new_dir4[3] - new_dir4[0] * new_dir4[0] - new_dir4[1] * new_dir4[1];
    assert!((form + 1.0).abs() < 1e-6);

    // The other recorded tile survives under a new, non-origin address
    // that preserves its distance from the (re-based) camera.
    let new_index = field.codes.iter().position(|&c| c == other_id);
    if let Some(idx) = new_index {
        let relabeled = tile_distance(&field.tiles[idx].get_mat(), new_pos);
        assert!((relabeled - other_dist).abs() < 1e-6);
        let mut differs = false;
        for i in 0..16 {
            if field.tiles[idx].get_mat().m[i] != identity.m[i] {
                differs = true;
            }
        }
        assert!(differs);
    } else {
        panic!("a tile near the walk was dropped by the relabeling pass");
    }
}

#[test]
fn tile_center_distance_is_symmetric_and_zero_at_the_center() {
    let t = hypertile::group::GroupElt::translation();
    let t2 = t.multiply(&t).unwrap();
    let a = apply(&matf(&t.matrix), [0.0, 0.0, 0.0, 1.0]);
    let b = apply(&matf(&t2.matrix), [0.0, 0.0, 0.0, 1.0]);
    assert_eq!(point_distance(a, b), point_distance(b, a));
    assert!(point_distance(a, b) > 0.0);
    assert!(point_distance(a, a).abs() < 1e-6);
    assert!(point_distance(b, b).abs() < 1e-6);
}
