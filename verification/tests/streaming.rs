use voxel_terrain::chunk::{chunk_extent, Chunk};
use voxel_terrain::stream::{isqrt, required_set, Tasks, World};
use voxel_terrain::terrain::HeightMap;
use voxel_terrain::K;

fn tiny_chunk(key: (i64, i64, i64), lod: usize) -> Chunk {
    let e = chunk_extent(lod);
    let heights = HeightMap::from_data(vec![10; e * e], e);
    Chunk::new(key, lod, &heights)
}

#[test]
fn isqrt_rounds_down() {
    assert_eq!(isqrt(0), 0);
    assert_eq!(isqrt(1), 1);
    assert_eq!(isqrt(15), 3);
    assert_eq!(isqrt(16), 4);
    assert_eq!(isqrt(24), 4);
    assert_eq!(isqrt(25), 5);
}

#[test]
fn required_set_grades_lod_with_distance() {
    let req = required_set((0, 0, 0), K, 0);
    // The viewer's own column is required at full detail, in both layers.
    assert_eq!(req.get((0, 0, 0)).copied(), Some(0));
    assert_eq!(req.get((0, 0, 1)).copied(), Some(0));
    // A column at planar distance five is required at level five.
    assert_eq!(req.get((3, 4, 0)).copied(), Some(5));
    // Columns outside the generation radius are not required at all.
    assert!(req.get((7, 0, 0)).is_none());
    assert!(req.get((0, 0, 2)).is_none());
    assert!(req.get((0, 0, -1)).is_none());
}

#[test]
fn required_set_respects_max_lod() {
    let req = required_set((5, -3, 0), 2, 0);
    assert_eq!(req.get((5, -3, 0)).copied(), Some(0));
    assert_eq!(req.get((5, -1, 0)).copied(), Some(2));
    // Level three would be needed at distance three: past the cap, the
    // column is simply not required.
    assert!(req.get((5, 0, 0)).is_none());
}

#[test]
fn no_duplicate_in_flight_work() {
    let mut tasks = Tasks::new();
    tasks.claim((1, 2, 0), 0);
    tasks.claim((1, 2, 0), 2);
    // A second claim for the same key supersedes the first entry instead of
    // adding one: the in-progress table never holds two entries per key.
    assert_eq!(tasks.in_progress.len(), 1);
    assert_eq!(tasks.in_progress.get((1, 2, 0)).copied(), Some(2));
    tasks.claim((3, 0, 0), 1);
    assert_eq!(tasks.in_progress.len(), 2);
}

#[test]
fn eviction_leaves_exactly_the_required_resident_keys() {
    let mut world = World::new();
    world.integrate((0, 0, 0), tiny_chunk((0, 0, 0), K));
    world.integrate((1, 0, 0), tiny_chunk((1, 0, 0), K));
    world.integrate((9, 9, 0), tiny_chunk((9, 9, 0), K));
    let req = required_set((0, 0, 0), K, 0);
    assert!(req.contains((0, 0, 0)) && req.contains((1, 0, 0)));
    assert!(!req.contains((9, 9, 0)));
    world.evict(&req);
    assert!(world.chunks.contains((0, 0, 0)));
    assert!(world.chunks.contains((1, 0, 0)));
    assert!(!world.chunks.contains((9, 9, 0)));
    // Required keys with no completed work are still absent.
    assert!(!world.chunks.contains((0, 1, 0)));
}

#[test]
fn reconcile_skips_built_and_resident_tasks() {
    let mut tasks = Tasks::new();
    let mut world = World::new();
    let req = required_set((0, 0, 0), K, 0);
    // One required chunk already resident at its required level, one being
    // built at its required level.
    world.integrate((0, 0, 0), tiny_chunk((0, 0, 0), 0));
    tasks.claim((1, 0, 0), 1);
    tasks.reconcile(&req, &world);
    assert!(tasks.task_list.get((0, 0, 0)).is_none());
    assert!(tasks.task_list.get((1, 0, 0)).is_none());
    // Everything else that is required becomes pending.
    assert_eq!(tasks.task_list.get((0, 1, 0)).copied(), Some(1));
}

#[test]
fn next_task_prefers_near_then_fine() {
    let mut tasks = Tasks::new();
    let mut world = World::new();
    world.integrate((0, 0, 0), tiny_chunk((0, 0, 0), 0));
    let req = required_set((0, 0, 0), 3, 1);
    tasks.reconcile(&req, &world);
    // The nearest pending task wins; the resident chunk is not re-queued.
    let t = tasks.next_task((0, 0, 0));
    assert!(t.is_some());
    let (key, lod) = t.unwrap();
    let d2 = key.0 * key.0 + key.1 * key.1 + key.2 * key.2;
    assert_eq!(d2, 1);
    assert_eq!(lod, 0);
    // A task being built at the same level no longer qualifies.
    tasks.claim(key, lod);
    let t2 = tasks.next_task((0, 0, 0)).unwrap();
    assert!(t2.0 != key || t2.1 != lod);
}

#[test]
fn superseded_work_is_discarded_and_fresh_lod_wins() {
    // Request level zero, claim it, then supersede it with level two before
    // the worker publishes: the stale result is dropped and the resident map
    // ends up holding only the level-two chunk.
    let key = (0, 0, 0);
    let mut tasks = Tasks::new();
    let mut world = World::new();
    tasks.task_list.insert(key, 0);
    let claimed = tasks.next_task(key).unwrap();
    assert_eq!(claimed, (key, 0));
    tasks.claim(key, 0);
    // The requirement moves to level two while the worker is busy.
    tasks.task_list.insert(key, 2);
    // The worker finishes the stale level-zero build: not published.
    let publish_stale = tasks.finish(key, 0);
    assert!(!publish_stale);
    assert!(!world.chunks.contains(key));
    // Another worker picks up the fresh request and publishes it.
    let fresh = tasks.next_task(key).unwrap();
    assert_eq!(fresh, (key, 2));
    tasks.claim(key, 2);
    let publish_fresh = tasks.finish(key, 2);
    assert!(publish_fresh);
    world.integrate(key, tiny_chunk(key, 2));
    assert_eq!(world.chunks.get(key).map(|c| c.lod), Some(2));
    assert!(tasks.task_list.get(key).is_none());
    assert!(tasks.in_progress.get(key).is_none());
}
