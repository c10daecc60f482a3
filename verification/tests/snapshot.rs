use logos::user::UserError;
use logos::user_abi::{NamespaceCapabilityHandle, NamespaceRoot};
use logos::user_catalog::{EntropySource, UserCatalog};
use logos::user_snapshot::{UserCatalogStore, SNAPSHOT_USED_BYTES, USER_SNAPSHOT_BYTES};

struct Entropy(u8);

impl EntropySource for Entropy {
    fn fill(&mut self, output: &mut [u8]) -> Result<(), UserError> {
        for byte in output {
            *byte = self.0;
            self.0 = self.0.wrapping_add(1);
        }
        Ok(())
    }
}

struct CatalogStore {
    data: [u8; USER_SNAPSHOT_BYTES],
    length: usize,
    present: bool,
}

impl CatalogStore {
    fn new() -> Self {
        Self { data: [0; USER_SNAPSHOT_BYTES], length: 0, present: false }
    }
}

impl UserCatalogStore for CatalogStore {
    fn load(&mut self, output: &mut [u8]) -> Result<usize, UserError> {
        if !self.present {
            return Err(UserError::NotFound);
        }
        if self.length > output.len() {
            return Err(UserError::Persistence);
        }
        output[..self.length].copy_from_slice(&self.data[..self.length]);
        Ok(self.length)
    }

    fn save(&mut self, snapshot: &[u8]) -> Result<(), UserError> {
        if snapshot.len() > self.data.len() {
            return Err(UserError::Persistence);
        }
        self.data[..snapshot.len()].copy_from_slice(snapshot);
        self.length = snapshot.len();
        self.present = true;
        Ok(())
    }
}

struct FailingStore;

impl UserCatalogStore for FailingStore {
    fn load(&mut self, _output: &mut [u8]) -> Result<usize, UserError> {
        Err(UserError::Persistence)
    }

    fn save(&mut self, _snapshot: &[u8]) -> Result<(), UserError> {
        Err(UserError::Persistence)
    }
}

fn root(value: u64) -> NamespaceRoot {
    NamespaceRoot::new(value, 1).unwrap()
}

#[test]
fn snapshot_round_trip_drops_volatile_sessions() {
    let mut catalog = UserCatalog::new();
    let mut entropy = Entropy(11);
    catalog.claim(b"admin", b"password", root(4), &mut entropy).unwrap();
    let (_, session) = catalog.login(b"admin", b"password").unwrap();
    let mut snapshot = [0; USER_SNAPSHOT_BYTES];
    let length = catalog.encode_snapshot(&mut snapshot).unwrap();
    let mut restored = UserCatalog::new();
    restored.restore_snapshot(&snapshot[..length]).unwrap();
    assert!(restored.is_claimed());
    assert!(restored.login(b"admin", b"password").is_ok());
    assert_eq!(
        restored.capability(session, NamespaceCapabilityHandle::empty()),
        Err(UserError::Stale)
    );
}

#[test]
fn catalog_storage_boundary_round_trips_and_missing_is_first_boot() {
    let mut catalog = UserCatalog::new();
    let mut entropy = Entropy(13);
    catalog.claim(b"admin", b"password", root(6), &mut entropy).unwrap();
    let mut store = CatalogStore::new();
    let mut buffer = [0; USER_SNAPSHOT_BYTES];
    catalog.save_to(&mut store, &mut buffer).unwrap();

    let mut restored = UserCatalog::new();
    restored.load_from(&mut store, &mut buffer).unwrap();
    assert!(restored.is_claimed());
    assert!(restored.login(b"admin", b"password").is_ok());

    let mut missing = CatalogStore::new();
    restored.load_from(&mut missing, &mut buffer).unwrap();
    assert!(!restored.is_claimed());
}

#[test]
fn snapshot_layout_is_fixed_and_zero_padded() {
    let catalog = UserCatalog::new();
    let mut snapshot = [0xaa; USER_SNAPSHOT_BYTES + 4];
    let length = catalog.encode_snapshot(&mut snapshot).unwrap();
    assert_eq!(length, SNAPSHOT_USED_BYTES);
    assert_eq!(length, 9400);
    assert_eq!(&snapshot[..8], b"LOGUSR01");
    assert_eq!(&snapshot[8..10], &[1, 0]);
    assert_eq!(snapshot[10], 0);
    assert_eq!(&snapshot[16..24], &1u64.to_le_bytes());
    assert_eq!(&snapshot[24..32], &1u64.to_le_bytes());
    assert_eq!(&snapshot[32..40], &1u64.to_le_bytes());
    assert!(snapshot[length..USER_SNAPSHOT_BYTES].iter().all(|byte| *byte == 0));
    assert_eq!(&snapshot[USER_SNAPSHOT_BYTES..], &[0xaa; 4]);
}

#[test]
fn short_snapshot_buffer_is_refused_unchanged() {
    let catalog = UserCatalog::new();
    let mut short = [7u8; USER_SNAPSHOT_BYTES - 1];
    assert_eq!(catalog.encode_snapshot(&mut short), Err(UserError::Capacity));
    assert!(short.iter().all(|byte| *byte == 7));
}

#[test]
fn corrupt_snapshots_leave_the_catalog_unchanged() {
    let mut catalog = UserCatalog::new();
    let mut entropy = Entropy(3);
    catalog.claim(b"admin", b"password", root(9), &mut entropy).unwrap();
    let mut snapshot = [0; USER_SNAPSHOT_BYTES];
    let length = catalog.encode_snapshot(&mut snapshot).unwrap();

    let mut target = UserCatalog::new();
    let mut bad_magic = snapshot;
    bad_magic[0] = b'X';
    assert_eq!(target.restore_snapshot(&bad_magic[..length]), Err(UserError::Corrupt));
    assert!(!target.is_claimed());

    let mut zero_counter = snapshot;
    zero_counter[16..24].copy_from_slice(&0u64.to_le_bytes());
    assert_eq!(target.restore_snapshot(&zero_counter[..length]), Err(UserError::Corrupt));

    let mut bad_presence = snapshot;
    bad_presence[40] = 2;
    assert_eq!(target.restore_snapshot(&bad_presence[..length]), Err(UserError::Corrupt));

    let mut bad_name = snapshot;
    bad_name[40 + 1 + 13] = b'A';
    assert_eq!(target.restore_snapshot(&bad_name[..length]), Err(UserError::InvalidName));

    assert_eq!(target.restore_snapshot(&snapshot[..39]), Err(UserError::Corrupt));
    assert_eq!(target.restore_snapshot(&snapshot[..100]), Err(UserError::Corrupt));
    assert!(!target.is_claimed());
}

#[test]
fn store_failures_are_passed_on() {
    let mut catalog = UserCatalog::new();
    let mut buffer = [0; USER_SNAPSHOT_BYTES];
    assert_eq!(catalog.load_from(&mut FailingStore, &mut buffer), Err(UserError::Persistence));
    assert_eq!(catalog.save_to(&mut FailingStore, &mut buffer), Err(UserError::Persistence));
    let mut short = [0; 16];
    assert_eq!(catalog.save_to(&mut CatalogStore::new(), &mut short), Err(UserError::Capacity));
}
