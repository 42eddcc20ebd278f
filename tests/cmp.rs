use libafl::cmp::{CmpMap, CmpObserver, CmpValues, CmpValuesMetadata, StdCmpObserver};
use libafl::metadata::MetadataMap;

fn observer_with(values: &[(u8, u8)]) -> StdCmpObserver {
    let mut map = CmpMap::new(1, 8);
    for (a, b) in values {
        map.record(0, CmpValues::U8((*a, *b)));
    }
    StdCmpObserver::new("cmp", map)
}

fn meta_list(obs: &StdCmpObserver) -> Vec<Option<(u64, u64)>> {
    let mut meta = MetadataMap::new();
    obs.add_cmpvalues_meta(&mut meta);
    meta.cmp_values().unwrap().as_slice().iter().map(|v| v.to_u64_tuple()).collect()
}

#[test]
fn loop_counter_site_is_filtered() {
    let obs = observer_with(&[(1, 1), (2, 2), (3, 3), (4, 4), (5, 5), (6, 6), (7, 7), (8, 8)]);
    assert!(meta_list(&obs).is_empty());
}

#[test]
fn broken_loop_site_is_kept_whole() {
    let vals = [(1, 1), (2, 2), (3, 3), (42, 99), (5, 5), (6, 6), (7, 7), (8, 8)];
    let obs = observer_with(&vals);
    let expected: Vec<Option<(u64, u64)>> = vals.iter().map(|(a, b)| Some((*a as u64, *b as u64))).collect();
    assert_eq!(meta_list(&obs), expected);
}

#[test]
fn decreasing_or_second_operand_loops_are_filtered() {
    let obs = observer_with(&[(9, 0), (8, 0), (7, 0), (6, 0), (5, 0)]);
    assert!(meta_list(&obs).is_empty());
    let obs = observer_with(&[(0, 10), (0, 11), (0, 12), (0, 13), (0, 14), (0, 15)]);
    assert!(meta_list(&obs).is_empty());
}

#[test]
fn short_sites_are_kept() {
    let obs = observer_with(&[(1, 1), (2, 2), (3, 3), (4, 4)]);
    assert_eq!(meta_list(&obs).len(), 4);
}

#[test]
fn wrap_slack_of_two() {
    // 8 9 10 3 4 5 6 7: one broken step, still a loop.
    let obs = observer_with(&[(8, 0), (9, 0), (10, 0), (3, 0), (4, 0), (5, 0), (6, 0), (7, 0)]);
    assert!(meta_list(&obs).is_empty());
}

#[test]
fn byte_operands_are_kept_and_metadata_is_rewritten() {
    let mut map = CmpMap::new(2, 4);
    map.record(1, CmpValues::Bytes((vec![1, 2], vec![3])));
    let obs = StdCmpObserver::new("cmp", map);
    let mut meta = MetadataMap::new();
    obs.add_cmpvalues_meta(&mut meta);
    obs.add_cmpvalues_meta(&mut meta);
    let list = meta.cmp_values().unwrap().as_slice();
    assert_eq!(list.len(), 1);
    assert!(!list[0].is_numeric());
    assert_eq!(list[0].to_u64_tuple(), None);
}

#[test]
fn usable_count_limits_sites() {
    let mut map = CmpMap::new(2, 4);
    map.record(1, CmpValues::U16((1, 2)));
    let obs = StdCmpObserver::with_size("cmp", map, 1);
    assert_eq!(obs.usable_count(), 1);
    let mut meta = MetadataMap::new();
    obs.add_cmpvalues_meta(&mut meta);
    assert_eq!(meta.cmp_values().unwrap().as_slice().len(), 0);
}

#[test]
fn circular_buffer_and_reset() {
    let mut map = CmpMap::new(1, 2);
    map.record(0, CmpValues::U32((1, 1)));
    map.record(0, CmpValues::U32((2, 2)));
    map.record(0, CmpValues::U32((3, 3)));
    assert_eq!(map.executions_for(0), 3);
    assert_eq!(map.usable_executions_for(0), 2);
    assert_eq!(map.values_of(0, 0).to_u64_tuple(), Some((3, 3)));
    assert_eq!(map.values_of(0, 1).to_u64_tuple(), Some((2, 2)));
    map.reset();
    assert_eq!(map.executions_for(0), 0);
    assert_eq!(map.usable_executions_for(0), 0);
}

#[test]
fn to_u64_tuple_zero_extends() {
    assert_eq!(CmpValues::U8((255, 1)).to_u64_tuple(), Some((255, 1)));
    assert_eq!(CmpValues::U16((65535, 2)).to_u64_tuple(), Some((65535, 2)));
    assert_eq!(CmpValues::U32((u32::MAX, 3)).to_u64_tuple(), Some((u32::MAX as u64, 3)));
    assert_eq!(CmpValues::U64((u64::MAX, 4)).to_u64_tuple(), Some((u64::MAX, 4)));
    assert!(CmpValues::U64((1, 1)).is_numeric());
    assert!(CmpValuesMetadata::new().list.is_empty());
}
