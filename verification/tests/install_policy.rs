use logos::install_policy::{PackageDependency, PackageManifest, SemanticVersion, VersionRange};
use logos::package_catalog::{
    PackageCatalog, PackageCatalogError, PackageExtent, PackageRecord, ServiceId, MAX_PACKAGE_RECORDS,
};

fn live(service: ServiceId, start: u64, version: u32) -> PackageRecord {
    let mut record = PackageRecord::empty();
    record.alive = true;
    record.service = service;
    record.generation = 1;
    record.package_version = version;
    record.bytes = 100;
    record.extent_count = 1;
    record.extents[0] = PackageExtent { start, blocks: 1 };
    record
}

fn manifest(name: &[u8], major: u32, minor: u32) -> PackageManifest {
    PackageManifest { name: name.to_vec(), version: SemanticVersion::new(major, minor, 0), dependencies: Vec::new() }
}

fn caret(name: &[u8], major: u32) -> PackageDependency {
    PackageDependency {
        name: name.to_vec(),
        range: VersionRange { minimum: SemanticVersion::new(major, 0, 0), limit: SemanticVersion::new(major + 1, 0, 0) },
    }
}

/// Slot 0: `base` 1.0.0 for Storage; slot 1: `app` 1.0.0 for Flow, which
/// needs `base` in [1.0.0, 2.0.0).
fn installed() -> (PackageCatalog, Vec<Option<PackageManifest>>) {
    let mut records = [PackageRecord::empty(); MAX_PACKAGE_RECORDS];
    records[0] = live(ServiceId::Storage, 10, 1);
    records[1] = live(ServiceId::Flow, 11, 1);
    let mut manifests: Vec<Option<PackageManifest>> = (0..MAX_PACKAGE_RECORDS).map(|_| None).collect();
    manifests[0] = Some(manifest(b"base", 1, 0));
    let mut app = manifest(b"app", 1, 0);
    app.dependencies.push(caret(b"base", 1));
    manifests[1] = Some(app);
    (PackageCatalog::from_records(records), manifests)
}

#[test]
fn v2_updates_require_newer_versions_and_preserve_dependency_ranges() {
    let (catalog, manifests) = installed();
    let check = |m: PackageManifest| catalog.validate_install_policy(ServiceId::Storage, 2, &Some(m), &manifests);
    assert_eq!(check(manifest(b"base", 1, 0)), Err(PackageCatalogError::VersionConflict));
    assert_eq!(check(manifest(b"base", 2, 0)), Err(PackageCatalogError::DependencyConflict));
    assert_eq!(check(manifest(b"renamed", 2, 0)), Err(PackageCatalogError::DependencyConflict));
    assert_eq!(check(manifest(b"base", 1, 1)), Ok(()));
}

#[test]
fn dependencies_must_be_present_in_range_and_not_on_oneself() {
    let (catalog, manifests) = installed();
    let check = |m: PackageManifest| catalog.validate_install_policy(ServiceId::Network, 1, &Some(m), &manifests);
    let mut missing = manifest(b"net", 1, 0);
    missing.dependencies.push(caret(b"absent", 1));
    assert_eq!(check(missing), Err(PackageCatalogError::MissingDependency));
    let mut too_new = manifest(b"net", 1, 0);
    too_new.dependencies.push(caret(b"base", 2));
    assert_eq!(check(too_new), Err(PackageCatalogError::DependencyConflict));
    let mut itself = manifest(b"net", 1, 0);
    itself.dependencies.push(caret(b"net", 1));
    assert_eq!(check(itself), Err(PackageCatalogError::DependencyConflict));
    assert_eq!(check(manifest(b"app", 1, 0)), Err(PackageCatalogError::DependencyConflict));
    let mut fine = manifest(b"net", 1, 0);
    fine.dependencies.push(caret(b"base", 1));
    assert_eq!(check(fine), Ok(()));
}

#[test]
fn a_package_without_manifest_cannot_replace_one_with_a_manifest() {
    let (catalog, manifests) = installed();
    assert_eq!(
        catalog.validate_install_policy(ServiceId::Storage, 99, &None, &manifests),
        Err(PackageCatalogError::VersionConflict)
    );
    let mut legacy = [PackageRecord::empty(); MAX_PACKAGE_RECORDS];
    legacy[0] = live(ServiceId::Input, 10, 5);
    let catalog = PackageCatalog::from_records(legacy);
    let nothing: Vec<Option<PackageManifest>> = (0..MAX_PACKAGE_RECORDS).map(|_| None).collect();
    assert_eq!(
        catalog.validate_install_policy(ServiceId::Input, 5, &None, &nothing),
        Err(PackageCatalogError::VersionConflict)
    );
    assert_eq!(catalog.validate_install_policy(ServiceId::Input, 6, &None, &nothing), Ok(()));
}

#[test]
fn legacy_package_cannot_replace_a_v2_manifest() {
    let mut records = [PackageRecord::empty(); MAX_PACKAGE_RECORDS];
    records[0] = live(ServiceId::Storage, 10, 1);
    let catalog = PackageCatalog::from_records(records);
    let mut manifests: Vec<Option<PackageManifest>> = (0..MAX_PACKAGE_RECORDS).map(|_| None).collect();
    manifests[0] = Some(manifest(b"storage", 1, 0));
    assert_eq!(
        catalog.validate_install_policy(ServiceId::Storage, 99, &None, &manifests),
        Err(PackageCatalogError::VersionConflict)
    );
    assert_eq!(catalog.lookup(ServiceId::Storage).unwrap().package_version, 1);
}
