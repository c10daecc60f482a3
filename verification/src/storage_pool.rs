//! Validated allocation classes for the storage format: a system prefix,
//! the user pool that follows it, and the package pool at the end.

use vstd::prelude::*;

verus! {

#[derive(Clone, Copy, Debug, PartialEq, Eq, Structural)]
pub enum StoragePoolError {
    InvalidVolumeRange,
    InvalidPackageRange,
    InvalidSystemReserve,
    NoUserSpace,
}

/// Disjoint block ranges for system metadata, user content, and packages.
#[derive(Clone, Copy, Debug, PartialEq, Eq, Structural)]
pub struct StoragePoolLayout {
    system_start: u64,
    system_end: u64,
    user_start: u64,
    user_end: u64,
    package_start: u64,
    package_end: u64,
}

/// The outcome that `StoragePoolLayout::new` owes for given arguments.
pub open spec fn layout_outcome(
    data_start: u64,
    data_end: u64,
    package_start: u64,
    system_blocks: u64,
) -> Result<(int, int, int), StoragePoolError> {
    if data_start >= data_end {
        Err(StoragePoolError::InvalidVolumeRange)
    } else if package_start <= data_start || package_start > data_end {
        Err(StoragePoolError::InvalidPackageRange)
    } else if system_blocks == 0 {
        Err(StoragePoolError::InvalidSystemReserve)
    } else if data_start + system_blocks > package_start {
        Err(StoragePoolError::InvalidSystemReserve)
    } else if data_start + system_blocks == package_start {
        Err(StoragePoolError::NoUserSpace)
    } else {
        Ok((data_start as int, data_start + system_blocks, package_start as int))
    }
}

impl StoragePoolLayout {
    pub closed spec fn spec_system_start(self) -> u64 { self.system_start }
    pub closed spec fn spec_system_end(self) -> u64 { self.system_end }
    pub closed spec fn spec_user_start(self) -> u64 { self.user_start }
    pub closed spec fn spec_user_end(self) -> u64 { self.user_end }
    pub closed spec fn spec_package_start(self) -> u64 { self.package_start }
    pub closed spec fn spec_package_end(self) -> u64 { self.package_end }

    /// Every layout this type can hold: the three pools are contiguous,
    /// in order, and the system and user pools are not empty.
    pub open spec fn wf(self) -> bool {
        &&& self.spec_system_start() < self.spec_system_end()
        &&& self.spec_system_end() == self.spec_user_start()
        &&& self.spec_user_start() < self.spec_user_end()
        &&& self.spec_user_end() == self.spec_package_start()
        &&& self.spec_package_start() <= self.spec_package_end()
    }

    #[verifier::type_invariant]
    closed spec fn inv(self) -> bool {
        self.wf()
    }

    /// Build a layout from the data arena and the format's package boundary.
    ///
    /// The system pool is a prefix of the data arena, the user pool follows
    /// it, and the package pool begins at `package_start`.
    pub fn new(data_start: u64, data_end: u64, package_start: u64, system_blocks: u64) -> (result:
        Result<Self, StoragePoolError>)
        ensures
            match (result, layout_outcome(data_start, data_end, package_start, system_blocks)) {
                (Ok(layout), Ok((s, u, p))) => {
                    &&& layout.spec_system_start() == s
                    &&& layout.spec_system_end() == u
                    &&& layout.spec_user_start() == u
                    &&& layout.spec_user_end() == p
                    &&& layout.spec_package_start() == p
                    &&& layout.spec_package_end() == data_end
                    &&& layout.wf()
                },
                (Err(e), Err(f)) => e == f,
                _ => false,
            },
    {
        if data_start >= data_end {
            return Err(StoragePoolError::InvalidVolumeRange);
        }
        if package_start <= data_start || package_start > data_end {
            return Err(StoragePoolError::InvalidPackageRange);
        }
        if system_blocks == 0 {
            return Err(StoragePoolError::InvalidSystemReserve);
        }
        let system_end = match data_start.checked_add(system_blocks) {
            Some(end) => end,
            None => return Err(StoragePoolError::InvalidSystemReserve),
        };
        if system_end > package_start {
            return Err(StoragePoolError::InvalidSystemReserve);
        }
        if system_end == package_start {
            return Err(StoragePoolError::NoUserSpace);
        }
        Ok(StoragePoolLayout {
            system_start: data_start,
            system_end,
            user_start: system_end,
            user_end: package_start,
            package_start,
            package_end: data_end,
        })
    }

    pub fn system_arena(self) -> (r: (u64, u64))
        ensures
            r == (self.spec_system_start(), self.spec_system_end()),
    {
        (self.system_start, self.system_end)
    }

    pub fn user_arena(self) -> (r: (u64, u64))
        ensures
            r == (self.spec_user_start(), self.spec_user_end()),
    {
        (self.user_start, self.user_end)
    }

    pub fn package_arena(self) -> (r: (u64, u64))
        ensures
            r == (self.spec_package_start(), self.spec_package_end()),
    {
        (self.package_start, self.package_end)
    }

    pub fn system_blocks(self) -> (r: u64)
        ensures
            r == self.spec_system_end() - self.spec_system_start(),
    {
        proof { use_type_invariant(&self); }
        self.system_end - self.system_start
    }

    pub fn user_blocks(self) -> (r: u64)
        ensures
            r == self.spec_user_end() - self.spec_user_start(),
    {
        proof { use_type_invariant(&self); }
        self.user_end - self.user_start
    }

    pub fn package_blocks(self) -> (r: u64)
        ensures
            r == self.spec_package_end() - self.spec_package_start(),
    {
        proof { use_type_invariant(&self); }
        self.package_end - self.package_start
    }

    pub fn contains_system(self, block: u64) -> (r: bool)
        ensures
            r == (self.spec_system_start() <= block < self.spec_system_end()),
    {
        block >= self.system_start && block < self.system_end
    }

    pub fn contains_user(self, block: u64) -> (r: bool)
        ensures
            r == (self.spec_user_start() <= block < self.spec_user_end()),
    {
        block >= self.user_start && block < self.user_end
    }

    pub fn contains_package(self, block: u64) -> (r: bool)
        ensures
            r == (self.spec_package_start() <= block < self.spec_package_end()),
    {
        block >= self.package_start && block < self.package_end
    }

    /// Every layout holds: the three pools are contiguous and in order,
    /// the system and user pools are not empty, and so no block belongs to
    /// two pools, while every block of the data arena belongs to one.
    pub proof fn lemma_pools_partition_the_arena(self, block: u64)
        requires
            self.wf(),
        ensures
            !(self.spec_system_start() <= block < self.spec_system_end()
                && self.spec_user_start() <= block < self.spec_user_end()),
            !(self.spec_system_start() <= block < self.spec_system_end()
                && self.spec_package_start() <= block < self.spec_package_end()),
            !(self.spec_user_start() <= block < self.spec_user_end()
                && self.spec_package_start() <= block < self.spec_package_end()),
            self.spec_system_start() <= block < self.spec_package_end() ==> {
                ||| self.spec_system_start() <= block < self.spec_system_end()
                ||| self.spec_user_start() <= block < self.spec_user_end()
                ||| self.spec_package_start() <= block < self.spec_package_end()
            },
    {
    }
}

} // verus!
