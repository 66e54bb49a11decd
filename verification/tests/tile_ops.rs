use hypertile::group::GroupElt;
use hypertile::mapdata::get_map_data;
use hypertile::tile::Tile;

// The classes across the four edges of the identity tile, in edge order.
const IDENTITY_NEIGHBORS: [u32; 4] = [106858, 98002, 5167, 52573];

#[test]
fn map_data_is_the_shared_quad() {
    let (vertices, indices) = get_map_data(0);
    assert_eq!(vertices.len(), 128);
    assert_eq!(indices.len(), 24);
    let (v2, i2) = get_map_data(106858);
    assert_eq!(vertices, v2);
    assert_eq!(indices, i2);
}

#[test]
fn new_tile_normalizes_and_carries_geometry() {
    let mut tile = Tile::new(GroupElt::identity());
    assert_eq!(tile.get_code(), 0);
    assert_eq!(tile.get_vertices().len(), 128);
    assert_eq!(tile.get_indices().len(), 24);
    assert_eq!(tile.get_size(), 6);
}

#[test]
fn update_neighbors_spawns_exactly_the_marked_edges() {
    let tile = Tile::new(GroupElt::identity());
    let existing = [0u32];
    let (tiles, ids) = tile
        .update_neighbors(&[true, false, false, false], &existing)
        .expect("identity neighborhood stays in range");
    assert_eq!(ids, vec![IDENTITY_NEIGHBORS[0]]);
    assert_eq!(tiles.len(), 1);

    let (tiles, ids) = tile
        .update_neighbors(&[false, false, true, false], &existing)
        .expect("identity neighborhood stays in range");
    assert_eq!(ids, vec![IDENTITY_NEIGHBORS[2]]);
    assert_eq!(tiles.len(), 1);

    let (tiles, ids) = tile
        .update_neighbors(&[true, true, true, true], &existing)
        .expect("identity neighborhood stays in range");
    assert_eq!(ids, IDENTITY_NEIGHBORS.to_vec());
    assert_eq!(tiles.len(), 4);
    for (t, id) in tiles.iter().zip(ids.iter()) {
        let mut t = *t;
        assert_eq!(t.get_code(), *id);
    }
}

#[test]
fn update_neighbors_never_spawns_an_existing_class() {
    let tile = Tile::new(GroupElt::identity());
    let existing = [0u32, IDENTITY_NEIGHBORS[2]];
    let (tiles, ids) = tile
        .update_neighbors(&[true, true, true, true], &existing)
        .expect("identity neighborhood stays in range");
    assert_eq!(tiles.len(), 3);
    assert!(!ids.contains(&IDENTITY_NEIGHBORS[2]));
    for id in &ids {
        assert!(!existing.contains(id));
    }
}

#[test]
fn update_neighbors_reports_range_exhaustion() {
    // Drive a tile far out until a proposed neighbor's matrix cannot be
    // represented.
    let t = GroupElt::translation();
    let mut code = GroupElt::identity();
    loop {
        match code.multiply(&t) {
            Some(next) => code = next,
            None => break,
        }
    }
    let tile = Tile::new(code);
    assert!(tile.update_neighbors(&[true, true, true, true], &[]).is_none());
}

#[test]
fn move_to_lists_the_four_translation_neighbors() {
    let mut tile = Tile::new(GroupElt::identity());
    let target = tile.centered_code();
    let neighbors = tile
        .move_to(target)
        .expect("identity neighborhood stays in range");
    assert_eq!(neighbors.len(), 4);
    let mut ids: Vec<u32> = Vec::new();
    for n in &neighbors {
        let mut n = *n;
        ids.push(n.get_id());
        // Each returned address is normalized: its own rank is its class
        // identifier.
        assert_eq!(n.perm.to_int(), n.get_id());
    }
    assert_eq!(ids, IDENTITY_NEIGHBORS.to_vec());
}

#[test]
fn centered_code_keeps_address_only() {
    let t = GroupElt::translation();
    let code = GroupElt::identity().multiply(&t).unwrap();
    let mut tile = Tile::new(code);
    let centered = tile.centered_code();
    assert_eq!(centered.perm.func, tile.code.perm.func);
    let identity = hypertile::matrix::Mat4::identity();
    for i in 0..16 {
        assert_eq!(centered.matrix.m[i], identity.m[i]);
    }
    let mut c = centered;
    assert_eq!(c.get_id(), tile.get_code());
}
