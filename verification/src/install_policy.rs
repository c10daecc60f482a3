//! The install policy of the package catalog: which package versions may
//! replace the one a service holds, and which dependencies they need.

use vstd::prelude::*;
use crate::package_catalog::{PackageCatalog, PackageCatalogError, PackageRecord, ServiceId, MAX_PACKAGE_RECORDS, slot_of};
use crate::user::constant_time_eq;

verus! {

/// A version: major, minor and patch, ordered in that order.
#[derive(Clone, Copy, Debug, PartialEq, Eq, Structural)]
pub struct SemanticVersion {
    pub major: u32,
    pub minor: u32,
    pub patch: u32,
}

/// `a` comes before `b`.
pub open spec fn version_below(a: SemanticVersion, b: SemanticVersion) -> bool {
    a.major < b.major || (a.major == b.major && (a.minor < b.minor || (a.minor == b.minor && a.patch < b.patch)))
}

/// A version as one number: major, then minor, then patch, each a
/// 32-bit digit.
pub open spec fn version_number(v: SemanticVersion) -> int {
    v.major * 0x1_0000_0000_0000_0000 + v.minor * 0x1_0000_0000 + v.patch
}

/// Versions are ordered by major, then minor, then patch: one comes before
/// another exactly when its number is smaller. So of two distinct
/// versions exactly one comes first, a version never comes before
/// itself, and the order is transitive.
pub proof fn lemma_version_order(a: SemanticVersion, b: SemanticVersion, c: SemanticVersion)
    ensures
        version_below(a, b) <==> version_number(a) < version_number(b),
        a != b ==> (version_below(a, b) || version_below(b, a)),
        !version_below(a, a),
        version_below(a, b) && version_below(b, c) ==> version_below(a, c),
{
    assert(version_below(a, b) <==> version_number(a) < version_number(b)) by (nonlinear_arith);
    assert(version_below(b, c) <==> version_number(b) < version_number(c)) by (nonlinear_arith);
    assert(version_below(a, c) <==> version_number(a) < version_number(c)) by (nonlinear_arith);
    assert(version_below(b, a) <==> version_number(b) < version_number(a)) by (nonlinear_arith);
    assert(version_number(a) == version_number(b) ==> a == b) by (nonlinear_arith);
}

impl SemanticVersion {
    pub fn new(major: u32, minor: u32, patch: u32) -> (r: Self)
        ensures
            r == (SemanticVersion { major, minor, patch }),
    {
        SemanticVersion { major, minor, patch }
    }

    /// Whether `self` comes before `other`.
    pub fn below(self, other: SemanticVersion) -> (r: bool)
        ensures
            r == version_below(self, other),
    {
        self.major < other.major || (self.major == other.major && (self.minor < other.minor || (self.minor
            == other.minor && self.patch < other.patch)))
    }
}

/// The versions from `minimum` up to, not including, `limit`.
#[derive(Clone, Copy, Debug, PartialEq, Eq, Structural)]
pub struct VersionRange {
    pub minimum: SemanticVersion,
    pub limit: SemanticVersion,
}

pub open spec fn range_matches(range: VersionRange, version: SemanticVersion) -> bool {
    !version_below(version, range.minimum) && version_below(version, range.limit)
}

impl VersionRange {
    pub fn matches(self, version: SemanticVersion) -> (r: bool)
        ensures
            r == range_matches(self, version),
    {
        !version.below(self.minimum) && version.below(self.limit)
    }
}

/// A package that another needs, by name, with the versions it accepts.
pub struct PackageDependency {
    pub name: Vec<u8>,
    pub range: VersionRange,
}

/// What a package says of itself: its name, version and dependencies.
pub struct PackageManifest {
    pub name: Vec<u8>,
    pub version: SemanticVersion,
    pub dependencies: Vec<PackageDependency>,
}

pub struct DependencyView {
    pub name: Seq<u8>,
    pub range: VersionRange,
}

pub struct ManifestView {
    pub name: Seq<u8>,
    pub version: SemanticVersion,
    pub dependencies: Seq<DependencyView>,
}

pub open spec fn dependency_view(d: PackageDependency) -> DependencyView {
    DependencyView { name: d.name@, range: d.range }
}

pub open spec fn manifest_view(m: PackageManifest) -> ManifestView {
    ManifestView {
        name: m.name@,
        version: m.version,
        dependencies: m.dependencies@.map_values(|d: PackageDependency| dependency_view(d)),
    }
}

pub open spec fn option_view(m: Option<PackageManifest>) -> Option<ManifestView> {
    match m {
        Some(m) => Some(manifest_view(m)),
        None => None,
    }
}

/// The manifests of the catalog's slots, as values.
pub open spec fn manifests_view(installed: Seq<Option<PackageManifest>>) -> Seq<Option<ManifestView>> {
    installed.map_values(|m: Option<PackageManifest>| option_view(m))
}

/// Slot `i` holds a live package of another service than `service`.
pub open spec fn other_alive(records: Seq<PackageRecord>, service: ServiceId, i: int) -> bool {
    records[i].alive && records[i].service != service
}

/// A live package of another service is named `name`.
pub open spec fn named_elsewhere(
    records: Seq<PackageRecord>,
    installed: Seq<Option<ManifestView>>,
    service: ServiceId,
    name: Seq<u8>,
    i: int,
) -> bool {
    &&& other_alive(records, service, i)
    &&& installed[i] matches Some(m) && m.name == name
}

/// The last live slot before `n` holding `service`.
pub open spec fn current_slot(records: Seq<PackageRecord>, service: ServiceId, n: int) -> Option<int>
    decreases n,
{
    if n <= 0 {
        None
    } else if records[n - 1].alive && records[n - 1].service == service {
        Some(n - 1)
    } else {
        current_slot(records, service, n - 1)
    }
}

/// The manifest of the package `service` holds now, if it has one.
pub open spec fn current_manifest(
    records: Seq<PackageRecord>,
    installed: Seq<Option<ManifestView>>,
    service: ServiceId,
) -> Option<ManifestView> {
    match current_slot(records, service, records.len() as int) {
        Some(j) => installed[j],
        None => None,
    }
}

/// The version of the first live package of another service at or after
/// slot `i` named `name`.
pub open spec fn provider(
    records: Seq<PackageRecord>,
    installed: Seq<Option<ManifestView>>,
    service: ServiceId,
    name: Seq<u8>,
    i: int,
) -> Option<SemanticVersion>
    decreases records.len() - i,
{
    if i < 0 || i >= records.len() {
        None
    } else if named_elsewhere(records, installed, service, name, i) {
        Some(installed[i].unwrap().version)
    } else {
        provider(records, installed, service, name, i + 1)
    }
}

/// One dependency of `manifest`: not on itself, provided by another
/// service, at a version in its range.
pub open spec fn dependency_out(
    records: Seq<PackageRecord>,
    installed: Seq<Option<ManifestView>>,
    service: ServiceId,
    manifest: ManifestView,
    d: DependencyView,
) -> Result<(), PackageCatalogError> {
    if d.name == manifest.name {
        Err(PackageCatalogError::DependencyConflict)
    } else {
        match provider(records, installed, service, d.name, 0) {
            None => Err(PackageCatalogError::MissingDependency),
            Some(v) => if range_matches(d.range, v) {
                Ok(())
            } else {
                Err(PackageCatalogError::DependencyConflict)
            },
        }
    }
}

/// The dependencies of `manifest` from the `k`-th on, in order; the first
/// that fails decides.
pub open spec fn dependencies_out(
    records: Seq<PackageRecord>,
    installed: Seq<Option<ManifestView>>,
    service: ServiceId,
    manifest: ManifestView,
    k: int,
) -> Result<(), PackageCatalogError>
    decreases manifest.dependencies.len() - k,
{
    if k < 0 || k >= manifest.dependencies.len() {
        Ok(())
    } else {
        match dependency_out(records, installed, service, manifest, manifest.dependencies[k]) {
            Err(e) => Err(e),
            Ok(()) => dependencies_out(records, installed, service, manifest, k + 1),
        }
    }
}

/// Dependency `k` of the live package of another service in slot `i`
/// names `manifest` and does not accept its version.
pub open spec fn dependent_broken(
    records: Seq<PackageRecord>,
    installed: Seq<Option<ManifestView>>,
    service: ServiceId,
    manifest: ManifestView,
    i: int,
    k: int,
) -> bool {
    &&& 0 <= i < records.len()
    &&& other_alive(records, service, i)
    &&& installed[i] matches Some(m) && (0 <= k < m.dependencies.len() && m.dependencies[k].name == manifest.name
        && !range_matches(m.dependencies[k].range, manifest.version))
}

/// Installing a package without a manifest for `service` at
/// `package_version`: it may not replace a package with a manifest, and
/// must be newer than the one it replaces.
pub open spec fn legacy_policy_out(
    records: Seq<PackageRecord>,
    installed: Seq<Option<ManifestView>>,
    service: ServiceId,
    package_version: u32,
) -> Result<(), PackageCatalogError> {
    match slot_of(records, service, 0) {
        None => Ok(()),
        Some(j) => if installed[j] is Some || package_version <= records[j].package_version {
            Err(PackageCatalogError::VersionConflict)
        } else {
            Ok(())
        },
    }
}

/// The install policy: a package with a manifest needs a name no other
/// service's package has, a version above the one it replaces under the
/// same name, its dependencies in range, and the packages that depend on
/// its name accepting its version.
pub open spec fn install_policy_out(
    records: Seq<PackageRecord>,
    installed: Seq<Option<ManifestView>>,
    service: ServiceId,
    package_version: u32,
    manifest: Option<ManifestView>,
) -> Result<(), PackageCatalogError> {
    match manifest {
        None => legacy_policy_out(records, installed, service, package_version),
        Some(m) => {
            if exists|i: int| 0 <= i < records.len() && #[trigger] named_elsewhere(records, installed, service, m.name, i) {
                Err(PackageCatalogError::DependencyConflict)
            } else {
                match current_manifest(records, installed, service) {
                    Some(cur) if !version_below(cur.version, m.version) => Err(PackageCatalogError::VersionConflict),
                    Some(cur) if cur.name != m.name => Err(PackageCatalogError::DependencyConflict),
                    _ => match dependencies_out(records, installed, service, m, 0) {
                        Err(e) => Err(e),
                        Ok(()) => if exists|i: int, k: int| #[trigger] dependent_broken(records, installed, service, m, i, k) {
                            Err(PackageCatalogError::DependencyConflict)
                        } else {
                            Ok(())
                        },
                    },
                }
            }
        },
    }
}

proof fn lemma_dependencies_never_version_conflict(
    records: Seq<PackageRecord>,
    installed: Seq<Option<ManifestView>>,
    service: ServiceId,
    m: ManifestView,
    k: int,
)
    ensures
        dependencies_out(records, installed, service, m, k) != Err::<(), PackageCatalogError>(
            PackageCatalogError::VersionConflict,
        ),
    decreases m.dependencies.len() - k,
{
    if 0 <= k < m.dependencies.len() {
        lemma_dependencies_never_version_conflict(records, installed, service, m, k + 1);
    }
}

/// An install with a manifest is refused as a version conflict only when
/// the service already holds a package with a manifest whose version is
/// the same or newer: an upgrade to a strictly newer version, in major,
/// minor or patch, is never refused for its version.
pub proof fn lemma_version_conflict_only_without_upgrade(
    records: Seq<PackageRecord>,
    installed: Seq<Option<ManifestView>>,
    service: ServiceId,
    package_version: u32,
    m: ManifestView,
)
    ensures
        install_policy_out(records, installed, service, package_version, Some(m)) == Err::<(), PackageCatalogError>(
            PackageCatalogError::VersionConflict,
        ) ==> (current_manifest(records, installed, service) matches Some(cur) && version_number(m.version)
            <= version_number(cur.version)),
        (current_manifest(records, installed, service) matches Some(cur) && version_number(cur.version)
            < version_number(m.version)) ==> install_policy_out(records, installed, service, package_version, Some(m))
            != Err::<(), PackageCatalogError>(PackageCatalogError::VersionConflict),
{
    lemma_dependencies_never_version_conflict(records, installed, service, m, 0);
    if let Some(cur) = current_manifest(records, installed, service) {
        lemma_version_order(cur.version, m.version, m.version);
    }
}

fn same_name(a: &Vec<u8>, b: &Vec<u8>) -> (r: bool)
    ensures
        r == (a@ == b@),
{
    constant_time_eq(a.as_slice(), b.as_slice())
}

impl PackageCatalog {
    fn provider(
        &self,
        installed: &[Option<PackageManifest>],
        service: ServiceId,
        name: &Vec<u8>,
    ) -> (r: Option<SemanticVersion>)
        requires
            self.wf(),
            installed@.len() == MAX_PACKAGE_RECORDS,
        ensures
            r == provider(self@, manifests_view(installed@), service, name@, 0),
    {
        let ghost m = manifests_view(installed@);
        let mut i: usize = 0;
        while i < MAX_PACKAGE_RECORDS
            invariant
                self.wf(),
                installed@.len() == MAX_PACKAGE_RECORDS,
                m == manifests_view(installed@),
                i <= MAX_PACKAGE_RECORDS,
                provider(self@, m, service, name@, 0) == provider(self@, m, service, name@, i as int),
            decreases MAX_PACKAGE_RECORDS - i,
        {
            let record = self.record_at(i);
            if record.alive && record.service != service {
                if let Some(found) = &installed[i] {
                    if same_name(&found.name, name) {
                        return Some(found.version);
                    }
                }
            }
            i += 1;
        }
        None
    }

    /// Whether the package `manifest` describes, or one without a manifest
    /// at `package_version`, may be installed for `service`;
    /// `installed[i]` is the manifest of the package in slot `i`, as the
    /// store gives it back.
    pub fn validate_install_policy(
        &self,
        service: ServiceId,
        package_version: u32,
        manifest: &Option<PackageManifest>,
        installed: &[Option<PackageManifest>],
    ) -> (r: Result<(), PackageCatalogError>)
        requires
            self.wf(),
            installed@.len() == MAX_PACKAGE_RECORDS,
        ensures
            r == install_policy_out(self@, manifests_view(installed@), service, package_version, option_view(*manifest)),
    {
        let ghost records = self@;
        let ghost m = manifests_view(installed@);
        let ghost given = option_view(*manifest);
        let proposed = match manifest {
            None => {
                let r = match self.slot_of(service) {
                    None => Ok(()),
                    Some(j) => if installed[j].is_some() || package_version <= self.record_at(j).package_version {
                        Err(PackageCatalogError::VersionConflict)
                    } else {
                        Ok(())
                    },
                };
                return r;
            },
            Some(proposed) => proposed,
        };
        let ghost mv = manifest_view(*proposed);
        assert(given == Some(mv));
        // Another service's package under the same name, and the current one.
        let mut current: Option<usize> = None;
        let mut i: usize = 0;
        while i < MAX_PACKAGE_RECORDS
            invariant
                self.wf(),
                installed@.len() == MAX_PACKAGE_RECORDS,
                records == self@,
                m == manifests_view(installed@),
                mv == manifest_view(*proposed),
                given == Some(mv),
                given == option_view(*manifest),
                i <= MAX_PACKAGE_RECORDS,
                forall|j: int| 0 <= j < i ==> !#[trigger] named_elsewhere(records, m, service, mv.name, j),
                match current {
                    Some(j) => current_slot(records, service, i as int) == Some(j as int) && j < i,
                    None => current_slot(records, service, i as int) is None,
                },
            decreases MAX_PACKAGE_RECORDS - i,
        {
            let record = self.record_at(i);
            if record.alive && record.service == service {
                current = Some(i);
            }
            if record.alive && record.service != service {
                if let Some(found) = &installed[i] {
                    if same_name(&found.name, &proposed.name) {
                        assert(named_elsewhere(records, m, service, mv.name, i as int));
                        return Err(PackageCatalogError::DependencyConflict);
                    }
                }
            }
            i += 1;
        }
        assert(records.len() == MAX_PACKAGE_RECORDS);
        assert(!exists|j: int| 0 <= j < records.len() && #[trigger] named_elsewhere(records, m, service, mv.name, j));
        if let Some(j) = current {
            assert(m[j as int] == option_view(installed@[j as int]));
            if let Some(cur) = &installed[j] {
                if !cur.version.below(proposed.version) {
                    return Err(PackageCatalogError::VersionConflict);
                }
                if !same_name(&cur.name, &proposed.name) {
                    return Err(PackageCatalogError::DependencyConflict);
                }
            }
        }
        assert(match current_manifest(records, m, service) {
            Some(cur) => version_below(cur.version, mv.version) && cur.name == mv.name,
            None => true,
        });
        // The package's own dependencies, in order.
        let mut k: usize = 0;
        while k < proposed.dependencies.len()
            invariant
                self.wf(),
                installed@.len() == MAX_PACKAGE_RECORDS,
                records == self@,
                m == manifests_view(installed@),
                mv == manifest_view(*proposed),
                given == Some(mv),
                given == option_view(*manifest),
                k <= proposed.dependencies@.len(),
                dependencies_out(records, m, service, mv, 0) == dependencies_out(records, m, service, mv, k as int),
                !exists|j: int| 0 <= j < records.len() && #[trigger] named_elsewhere(records, m, service, mv.name, j),
                match current_manifest(records, m, service) {
                    Some(cur) => version_below(cur.version, mv.version) && cur.name == mv.name,
                    None => true,
                },
            decreases proposed.dependencies@.len() - k,
        {
            let dependency = &proposed.dependencies[k];
            assert(mv.dependencies[k as int] == dependency_view(*dependency));
            assert(dependencies_out(records, m, service, mv, k as int) == match dependency_out(
                records,
                m,
                service,
                mv,
                mv.dependencies[k as int],
            ) {
                Err(e) => Err(e),
                Ok(()) => dependencies_out(records, m, service, mv, k + 1),
            });
            if same_name(&dependency.name, &proposed.name) {
                return Err(PackageCatalogError::DependencyConflict);
            }
            match self.provider(installed, service, &dependency.name) {
                None => return Err(PackageCatalogError::MissingDependency),
                Some(version) => {
                    if !dependency.range.matches(version) {
                        return Err(PackageCatalogError::DependencyConflict);
                    }
                },
            }
            k += 1;
        }
        // The packages that depend on this one's name.
        let mut i: usize = 0;
        while i < MAX_PACKAGE_RECORDS
            invariant
                self.wf(),
                installed@.len() == MAX_PACKAGE_RECORDS,
                records == self@,
                m == manifests_view(installed@),
                mv == manifest_view(*proposed),
                given == Some(mv),
                given == option_view(*manifest),
                i <= MAX_PACKAGE_RECORDS,
                forall|a: int, b: int| a < i ==> !#[trigger] dependent_broken(records, m, service, mv, a, b),
                !exists|j: int| 0 <= j < records.len() && #[trigger] named_elsewhere(records, m, service, mv.name, j),
                match current_manifest(records, m, service) {
                    Some(cur) => version_below(cur.version, mv.version) && cur.name == mv.name,
                    None => true,
                },
                dependencies_out(records, m, service, mv, 0) == Ok::<(), PackageCatalogError>(()),
            decreases MAX_PACKAGE_RECORDS - i,
        {
            let record = self.record_at(i);
            if record.alive && record.service != service {
                if let Some(found) = &installed[i] {
                    let ghost fv = manifest_view(*found);
                    assert(m[i as int] == option_view(installed@[i as int]));
                    assert(m[i as int] == Some(fv));
                    let mut k: usize = 0;
                    while k < found.dependencies.len()
                        invariant
                            records == self@,
                            m == manifests_view(installed@),
                            mv == manifest_view(*proposed),
                            given == Some(mv),
                            given == option_view(*manifest),
                given == option_view(*manifest),
                given == Some(mv),
                given == option_view(*manifest),
                            fv == manifest_view(*found),
                            m[i as int] == Some(fv),
                            i < MAX_PACKAGE_RECORDS,
                            records.len() == MAX_PACKAGE_RECORDS,
                            m.len() == MAX_PACKAGE_RECORDS,
                            other_alive(records, service, i as int),
                            k <= found.dependencies@.len(),
                            forall|a: int, b: int| a < i ==> !#[trigger] dependent_broken(records, m, service, mv, a, b),
                            forall|b: int| b < k ==> !#[trigger] dependent_broken(records, m, service, mv, i as int, b),
                            !exists|j: int| 0 <= j < records.len() && #[trigger] named_elsewhere(records, m, service, mv.name, j),
                            match current_manifest(records, m, service) {
                                Some(cur) => version_below(cur.version, mv.version) && cur.name == mv.name,
                                None => true,
                            },
                            dependencies_out(records, m, service, mv, 0) == Ok::<(), PackageCatalogError>(()),
                        decreases found.dependencies@.len() - k,
                    {
                        let dependency = &found.dependencies[k];
                        assert(fv.dependencies[k as int] == dependency_view(*dependency));
                        if same_name(&dependency.name, &proposed.name) && !dependency.range.matches(proposed.version) {
                            assert(dependent_broken(records, m, service, mv, i as int, k as int));
                            return Err(PackageCatalogError::DependencyConflict);
                        }
                        k += 1;
                    }
                }
            }
            i += 1;
        }
        Ok(())
    }
}

} // verus!
