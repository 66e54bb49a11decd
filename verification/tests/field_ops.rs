use hypertile::field::{Proximity, TileField};
use hypertile::group::GroupElt;
use hypertile::matrix::Mat4;
use hypertile::tile::Tile;

fn two_tile_field() -> TileField {
    let mut field = TileField::new();
    let t = GroupElt::translation();
    let neighbor_code = GroupElt::identity().multiply(&t).unwrap();
    let mut neighbor = Tile::new(neighbor_code);
    let id = neighbor.get_code();
    field.tiles.push(neighbor);
    field.codes.push(id);
    field
}

#[test]
fn update_with_middle_verdicts_changes_nothing() {
    let mut field = two_tile_field();
    let before = field.codes.clone();
    assert!(field.update(&vec![Proximity::Middle, Proximity::Middle]));
    assert_eq!(field.codes, before);
    assert_eq!(field.tiles.len(), 2);
}

#[test]
fn update_culls_far_tiles() {
    let mut field = two_tile_field();
    let far_id = field.codes[1];
    assert!(field.update(&vec![Proximity::Middle, Proximity::Far]));
    assert_eq!(field.codes, vec![0u32]);
    assert!(!field.codes.contains(&far_id));
    assert_eq!(field.tiles.len(), 1);
}

#[test]
fn update_spawns_from_near_tiles_without_duplicates() {
    let mut field = two_tile_field();
    let edges = [true, true, true, true];
    assert!(field.update(&vec![
        Proximity::Near { edges },
        Proximity::Near { edges },
    ]));
    for i in 0..field.codes.len() {
        for j in (i + 1)..field.codes.len() {
            assert_ne!(field.codes[i], field.codes[j]);
        }
    }
    // The identity tile's four neighbors all appear; one of them is the
    // second tile itself, which must not be spawned again.
    assert!(field.codes.contains(&106858));
    assert!(field.codes.contains(&98002));
    assert!(field.codes.contains(&5167));
    assert!(field.codes.contains(&52573));
}

#[test]
fn update_reports_range_exhaustion_and_leaves_the_set() {
    let t = GroupElt::translation();
    let mut code = GroupElt::identity();
    loop {
        match code.multiply(&t) {
            Some(next) => code = next,
            None => break,
        }
    }
    let mut far_out = Tile::new(code);
    let id = far_out.get_code();
    let mut field = TileField {
        tiles: vec![far_out],
        codes: vec![id],
    };
    let before_mat = field.tiles[0].get_mat();
    let ok = field.update(&vec![Proximity::Near { edges: [true; 4] }]);
    assert!(!ok);
    assert_eq!(field.codes, vec![id]);
    assert_eq!(field.tiles.len(), 1);
    for i in 0..16 {
        assert_eq!(field.tiles[0].get_mat().m[i], before_mat.m[i]);
    }
}

#[test]
fn recenter_on_the_starting_tile_keeps_it_at_the_origin() {
    let mut field = TileField::new();
    assert!(field.recenter(0));
    assert_eq!(field.codes, vec![0u32]);
    let identity = Mat4::identity();
    for i in 0..16 {
        assert_eq!(field.tiles[0].get_mat().m[i], identity.m[i]);
    }
}
