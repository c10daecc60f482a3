use logos::storage_pool::{StoragePoolError, StoragePoolLayout};

#[test]
fn ranges_are_disjoint_and_contiguous() {
    let layout = StoragePoolLayout::new(4, 64, 20, 4).unwrap();

    assert_eq!(layout.system_arena(), (4, 8));
    assert_eq!(layout.user_arena(), (8, 20));
    assert_eq!(layout.package_arena(), (20, 64));
    assert_eq!(layout.system_blocks(), 4);
    assert_eq!(layout.user_blocks(), 12);
    assert_eq!(layout.package_blocks(), 44);
    assert!(layout.contains_system(4));
    assert!(!layout.contains_system(8));
    assert!(layout.contains_user(8));
    assert!(!layout.contains_user(20));
    assert!(layout.contains_package(20));
    assert!(!layout.contains_package(64));
}

#[test]
fn invalid_layouts_fail_closed() {
    assert_eq!(StoragePoolLayout::new(8, 8, 9, 1), Err(StoragePoolError::InvalidVolumeRange));
    assert_eq!(StoragePoolLayout::new(4, 64, 4, 1), Err(StoragePoolError::InvalidPackageRange));
    assert_eq!(
        StoragePoolLayout::new(4, 64, 20, 0),
        Err(StoragePoolError::InvalidSystemReserve)
    );
    assert_eq!(
        StoragePoolLayout::new(4, 64, 20, 17),
        Err(StoragePoolError::InvalidSystemReserve)
    );
    assert_eq!(StoragePoolLayout::new(4, 64, 8, 4), Err(StoragePoolError::NoUserSpace));
}

#[test]
fn package_boundary_may_reach_volume_end_but_user_space_may_not_be_empty() {
    let layout = StoragePoolLayout::new(4, 20, 20, 4).unwrap();
    assert_eq!(layout.package_arena(), (20, 20));
    assert_eq!(layout.package_blocks(), 0);
    assert_eq!(layout.user_arena(), (8, 20));
}

#[test]
fn system_reserve_overflow_is_rejected() {
    assert_eq!(
        StoragePoolLayout::new(u64::MAX - 2, u64::MAX, u64::MAX - 1, 5),
        Err(StoragePoolError::InvalidSystemReserve)
    );
}

#[test]
fn every_block_of_the_arena_has_exactly_one_pool() {
    let layout = StoragePoolLayout::new(10, 40, 30, 5).unwrap();
    for block in 0..50u64 {
        let count = [layout.contains_system(block), layout.contains_user(block), layout.contains_package(block)]
            .iter()
            .filter(|x| **x)
            .count();
        if (10..40).contains(&block) {
            assert_eq!(count, 1);
        } else {
            assert_eq!(count, 0);
        }
    }
}
