use procedural_planet::math::quad_tree::Quadrant;
use procedural_planet::terrain::axis::Axis;
use procedural_planet::terrain::cache::{install, reconcile, ChunkCache, ChunkSet};
use procedural_planet::terrain::chunk_hash::ChunkHash;

fn leaf(axis: Axis, steps: &[Quadrant]) -> ChunkHash {
    let mut hash = ChunkHash::new_root(axis);
    for q in steps {
        hash = hash.push_quadrant(*q);
    }
    hash
}

fn sorted_keys(cache: &ChunkCache) -> Vec<u32> {
    let mut keys = cache.keys();
    keys.sort();
    keys
}

fn sorted_bits(hashes: &[ChunkHash]) -> Vec<u32> {
    let mut bits: Vec<u32> = hashes.iter().map(|h| h.to_bits()).collect();
    bits.sort();
    bits.dedup();
    bits
}

#[test]
fn a_new_cache_is_empty() {
    let cache = ChunkCache::default();
    assert!(cache.keys().is_empty());
    assert!(!cache.contains_key(&ChunkHash::new_root(Axis::X)));
    assert_eq!(cache.get(&ChunkHash::new_root(Axis::X)), None);
}

#[test]
fn cache_insert_get_remove() {
    let mut cache = ChunkCache::default();
    let a = leaf(Axis::X, &[Quadrant::SW]);
    let b = leaf(Axis::X, &[Quadrant::SE]);
    assert_eq!(cache.insert(a, 11), None);
    assert_eq!(cache.insert(b, 22), None);
    assert!(cache.contains_key(&a));
    assert_eq!(cache.get(&a), Some(11));
    assert_eq!(cache.get(&b), Some(22));
    // A second chunk for the same identity takes the place of the first.
    assert_eq!(cache.insert(a, 33), Some(11));
    assert_eq!(cache.get(&a), Some(33));
    assert_eq!(sorted_keys(&cache), sorted_bits(&[a, b]));
    assert_eq!(cache.remove(&a), Some(33));
    assert_eq!(cache.remove(&a), None);
    assert!(!cache.contains_key(&a));
    assert_eq!(cache.get(&b), Some(22));
    assert_eq!(sorted_keys(&cache), sorted_bits(&[b]));
}

#[test]
fn chunk_set_holds_the_identities_of_a_list() {
    let a = leaf(Axis::Y, &[Quadrant::NW]);
    let b = leaf(Axis::Y, &[Quadrant::NE]);
    let c = leaf(Axis::Z, &[Quadrant::NE]);
    let set = ChunkSet::from_hashes(&vec![a, b, a]);
    assert!(set.contains(&a));
    assert!(set.contains(&b));
    assert!(!set.contains(&c));
    let none = ChunkSet::from_hashes(&Vec::new());
    assert!(!none.contains(&a));
}

#[test]
fn remove_unrequired_takes_out_the_others() {
    let a = leaf(Axis::X, &[Quadrant::SW]);
    let b = leaf(Axis::X, &[Quadrant::SE]);
    let c = leaf(Axis::X, &[Quadrant::NW]);
    let mut cache = ChunkCache::default();
    cache.insert(a, 1);
    cache.insert(b, 2);
    cache.insert(c, 3);
    let mut removed = cache.remove_unrequired(&ChunkSet::from_hashes(&vec![b]));
    removed.sort();
    let mut expected = vec![(a.to_bits(), 1), (c.to_bits(), 3)];
    expected.sort();
    assert_eq!(removed, expected);
    assert_eq!(sorted_keys(&cache), vec![b.to_bits()]);
    assert_eq!(cache.get(&b), Some(2));
}

#[test]
fn missing_lists_each_absent_identity_at_its_first_place() {
    let a = leaf(Axis::X, &[Quadrant::SW]);
    let b = leaf(Axis::X, &[Quadrant::SE]);
    let c = leaf(Axis::X, &[Quadrant::NW]);
    let mut cache = ChunkCache::default();
    cache.insert(b, 2);
    assert_eq!(cache.missing(&vec![a, b, c, a, c]), vec![0, 2]);
    assert_eq!(cache.missing(&vec![b, b]), Vec::<usize>::new());
    assert_eq!(cache.missing(&Vec::new()), Vec::<usize>::new());
}

#[test]
fn a_pass_leaves_exactly_the_required_chunks() {
    let a = leaf(Axis::X, &[Quadrant::SW]);
    let b = leaf(Axis::X, &[Quadrant::SE]);
    let c = leaf(Axis::NegY, &[Quadrant::NW, Quadrant::NE]);
    let d = leaf(Axis::Z, &[]);
    let mut cache = ChunkCache::default();
    cache.insert(a, 100);
    cache.insert(b, 200);

    // First pass: a stays, b goes, c and d come.
    let required = vec![c, a, d];
    let plan = reconcile(&mut cache, &required);
    assert_eq!(plan.destroy, vec![(b.to_bits(), 200)]);
    assert_eq!(plan.create, vec![0, 2]);
    assert_eq!(sorted_keys(&cache), sorted_bits(&[a]));
    install(&mut cache, &required, &plan.create, &vec![300, 400]);
    assert_eq!(sorted_keys(&cache), sorted_bits(&required));
    assert_eq!(cache.get(&a), Some(100));
    assert_eq!(cache.get(&c), Some(300));
    assert_eq!(cache.get(&d), Some(400));

    // The same leaves again: nothing to do.
    let plan = reconcile(&mut cache, &required);
    assert!(plan.destroy.is_empty());
    assert!(plan.create.is_empty());
    install(&mut cache, &required, &plan.create, &Vec::new());
    assert_eq!(sorted_keys(&cache), sorted_bits(&required));

    // Nothing required: everything goes.
    let plan = reconcile(&mut cache, &Vec::new());
    let mut destroyed = plan.destroy.clone();
    destroyed.sort();
    let mut expected = vec![(a.to_bits(), 100), (c.to_bits(), 300), (d.to_bits(), 400)];
    expected.sort();
    assert_eq!(destroyed, expected);
    assert!(plan.create.is_empty());
    assert!(cache.keys().is_empty());
}

#[test]
fn a_pass_with_repeated_identities_keeps_one_chunk_each() {
    let a = leaf(Axis::X, &[Quadrant::SW]);
    let b = leaf(Axis::Y, &[Quadrant::SW]);
    let mut cache = ChunkCache::default();
    let required = vec![a, b, a, b, a];
    let plan = reconcile(&mut cache, &required);
    assert!(plan.destroy.is_empty());
    assert_eq!(plan.create, vec![0, 1]);
    install(&mut cache, &required, &plan.create, &vec![7, 8]);
    let keys = cache.keys();
    assert_eq!(keys.len(), 2);
    assert_eq!(sorted_keys(&cache), sorted_bits(&required));
    assert_eq!(cache.get(&a), Some(7));
    assert_eq!(cache.get(&b), Some(8));
}

#[test]
fn collider_flag_makes_a_different_chunk() {
    let plain = leaf(Axis::X, &[Quadrant::SW]);
    let solid = plain.with_collider(true);
    let mut cache = ChunkCache::default();
    cache.insert(plain, 1);
    let required = vec![solid];
    let plan = reconcile(&mut cache, &required);
    assert_eq!(plan.destroy, vec![(plain.to_bits(), 1)]);
    assert_eq!(plan.create, vec![0]);
}

#[test]
fn a_pass_keeps_one_chunk_under_its_own_handle_for_each_leaf() {
    let a = leaf(Axis::X, &[Quadrant::SW]);
    let b = leaf(Axis::X, &[Quadrant::SE]);
    let c = leaf(Axis::Y, &[Quadrant::NW]);
    let d = leaf(Axis::Z, &[Quadrant::NE, Quadrant::SW]);
    let mut cache = ChunkCache::default();
    cache.insert(a, 1);
    cache.insert(b, 2);
    let required = vec![d, a, c];
    let plan = reconcile(&mut cache, &required);
    install(&mut cache, &required, &plan.create, &vec![3, 4]);
    let keys = cache.keys();
    assert_eq!(keys.len(), required.len());
    let mut handles: Vec<u64> = required.iter().map(|h| cache.get(h).unwrap()).collect();
    handles.sort();
    handles.dedup();
    assert_eq!(handles, vec![1, 3, 4]);
}
