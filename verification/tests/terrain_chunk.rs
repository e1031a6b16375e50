use voxel_terrain::chunk::{chunk_extent, Chunk};
use voxel_terrain::terrain::{
    color_of, material_at, pack, rgb, solid, world_of, HeightMap, Material,
};
use voxel_terrain::{K, N};

fn flat_height_map(extent: usize, h: i64) -> HeightMap {
    HeightMap::from_data(vec![h; extent * extent], extent)
}

#[test]
fn chunk_extent_shrinks_with_lod() {
    assert_eq!(chunk_extent(0), N);
    assert_eq!(chunk_extent(1), N / 2);
    assert_eq!(chunk_extent(K), 1);
}

#[test]
fn world_coordinates_scale_with_lod() {
    assert_eq!(world_of(3, 0, 0), 3);
    assert_eq!(world_of(3, 2, 0), 12);
    assert_eq!(world_of(3, 2, -100), -88);
    // The same world point is sampled by local coordinate 8 at full detail
    // and local coordinate 2 at two levels coarser.
    assert_eq!(world_of(8, 0, 640), world_of(2, 2, 640));
}

#[test]
fn materials_follow_height_thresholds() {
    assert_eq!(material_at(5, 4), Material::Air);
    assert_eq!(material_at(0, 4), Material::Water);
    assert_eq!(material_at(1, 4), Material::Water);
    assert_eq!(material_at(2, 4), Material::Sand);
    assert_eq!(material_at(4, 4), Material::Sand);
    assert_eq!(material_at(5, 10), Material::Grass);
    assert!(!solid(Material::Air));
    assert!(solid(Material::Water));
    assert!(solid(Material::Grass));
}

#[test]
fn colors_pack_material_channels() {
    assert_eq!(pack(1, 2, 3), 1 | (2 << 8) | (3 << 16));
    assert_eq!(rgb(255, 0, 0), 255);
    assert_eq!(color_of(Material::Water), 16724787);
    assert_eq!(color_of(Material::Sand), 8434370);
    assert_eq!(color_of(Material::Grass), 3245915);
}

#[test]
fn chunk_generation_is_deterministic() {
    let lod = 4;
    let e = chunk_extent(lod);
    let heights = flat_height_map(e, 20);
    let key = (1, -2, 0);
    let c1 = Chunk::new(key, lod, &heights);
    let c2 = Chunk::new(key, lod, &heights);
    assert_eq!(c1.lod, c2.lod);
    let (v1, n1, p1) = c1.mesh();
    let (v2, n2, p2) = c2.mesh();
    assert_eq!(n1, n2);
    assert_eq!(p1, p2);
    for i in 0..n1 {
        assert_eq!(v1[i], v2[i]);
    }
    for (x, y, z) in c1.shell.coordinates() {
        assert_eq!(*c1.shell.at(x, y, z), *c2.shell.at(x, y, z));
        assert_eq!(*c1.color.at(x, y, z), *c2.color.at(x, y, z));
    }
}

#[test]
fn chunk_world_footprint_is_lod_invariant() {
    let key = (2, 3, 0);
    let fine_lod = 4;
    let coarse_lod = K;
    let fine = Chunk::new(key, fine_lod, &flat_height_map(chunk_extent(fine_lod), 5));
    let coarse = Chunk::new(key, coarse_lod, &flat_height_map(chunk_extent(coarse_lod), 5));
    let (_, _, pf) = fine.mesh();
    let (_, _, pc) = coarse.mesh();
    assert_eq!((pf.tx, pf.ty, pf.tz), (pc.tx, pc.ty, pc.tz));
    assert_eq!((pf.tx, pf.ty, pf.tz), (128, 192, 0));
    let fine_size = fine.shell.extent() as u64 * pf.scale;
    let coarse_size = coarse.shell.extent() as u64 * pc.scale;
    assert_eq!(fine_size, N as u64);
    assert_eq!(coarse_size, N as u64);
}

#[test]
fn submerged_chunk_has_no_exposed_faces() {
    // A chunk whose column heights exceed every cell is solid everywhere;
    // after pruning and boundary suppression nothing is emitted.
    let lod = 4;
    let e = chunk_extent(lod);
    let heights = flat_height_map(e, 1000);
    let c = Chunk::new((0, 0, 0), lod, &heights);
    let (_, count, _) = c.mesh();
    assert_eq!(count, 0);
}

#[test]
fn surface_chunk_emits_top_faces() {
    // Columns filled up to world height 20 inside a ground-level chunk at
    // full resolution: the top face of each surface voxel is interior to the
    // chunk and must be meshed.
    let lod = 0;
    let e = chunk_extent(lod);
    let heights = flat_height_map(e, 20);
    let c = Chunk::new((0, 0, 0), lod, &heights);
    let (verts, count, placement) = c.mesh();
    // One exposed face per column, two triangles of three vertices each.
    assert_eq!(count, e * e * 6);
    assert_eq!(placement.scale, 1);
    // All emitted vertices lie on the exposed surface z = 21.
    for v in verts.iter() {
        assert_eq!(v.pz, 21);
        assert_eq!((v.nx, v.ny, v.nz), (0, 0, -1));
    }
}
