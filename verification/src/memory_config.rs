//! Logical memory regions and the access rule between region types.

use vstd::prelude::*;

verus! {

/// What a range of memory is used for.
#[derive(Clone, Copy, Debug, PartialEq, Eq, Structural)]
pub enum MemoryRegionType {
    /// Read-only, non-executable data.
    ReadOnlyData,
    /// Read-write, non-executable data.
    ReadWriteData,
    /// Read-only, executable code.
    ReadOnlyExecutable,
    /// Read-write, executable code.
    ReadWriteExecutable,
    /// Memory-mapped device registers.
    Device,
}

impl MemoryRegionType {
    /// Every region can be read.
    pub open spec fn spec_is_readable(self) -> bool {
        true
    }

    /// Data and code that is marked read-write, and devices, can be written.
    pub open spec fn spec_is_writeable(self) -> bool {
        self == MemoryRegionType::ReadWriteData || self == MemoryRegionType::ReadWriteExecutable
            || self == MemoryRegionType::Device
    }

    /// Only code can be executed.
    pub open spec fn spec_is_executable(self) -> bool {
        self == MemoryRegionType::ReadOnlyExecutable || self
            == MemoryRegionType::ReadWriteExecutable
    }

    /// The region holds device registers.
    pub open spec fn spec_is_device(self) -> bool {
        self == MemoryRegionType::Device
    }

    /// A region of type `self` permits an access of type `request` when it
    /// grants every capability (read, write, execute, device) that the
    /// request asks for.
    pub open spec fn spec_has_access(self, request: MemoryRegionType) -> bool {
        &&& request.spec_is_readable() ==> self.spec_is_readable()
        &&& request.spec_is_writeable() ==> self.spec_is_writeable()
        &&& request.spec_is_executable() ==> self.spec_is_executable()
        &&& request.spec_is_device() ==> self.spec_is_device()
    }

    #[verifier::when_used_as_spec(spec_is_readable)]
    pub fn is_readable(self) -> (r: bool)
        ensures
            r == self.spec_is_readable(),
    {
        true
    }

    #[verifier::when_used_as_spec(spec_is_writeable)]
    pub fn is_writeable(self) -> (r: bool)
        ensures
            r == self.spec_is_writeable(),
    {
        match self {
            MemoryRegionType::ReadWriteData => true,
            MemoryRegionType::ReadWriteExecutable => true,
            MemoryRegionType::Device => true,
            _ => false,
        }
    }

    #[verifier::when_used_as_spec(spec_is_executable)]
    pub fn is_executable(self) -> (r: bool)
        ensures
            r == self.spec_is_executable(),
    {
        match self {
            MemoryRegionType::ReadOnlyExecutable => true,
            MemoryRegionType::ReadWriteExecutable => true,
            _ => false,
        }
    }

    #[verifier::when_used_as_spec(spec_is_device)]
    pub fn is_device(self) -> (r: bool)
        ensures
            r == self.spec_is_device(),
    {
        match self {
            MemoryRegionType::Device => true,
            _ => false,
        }
    }

    /// Whether a region of this type permits an access of type `request`.
    #[verifier::when_used_as_spec(spec_has_access)]
    pub fn has_access(self, request: MemoryRegionType) -> (r: bool)
        ensures
            r == self.spec_has_access(request),
    {
        (!request.is_readable() || self.is_readable()) && (!request.is_writeable()
            || self.is_writeable()) && (!request.is_executable() || self.is_executable()) && (
        !request.is_device() || self.is_device())
    }
}

/// A typed range `[start, end)` of the 32-bit address space.
#[derive(Clone, Copy, Debug, PartialEq, Eq, Structural)]
pub struct MemoryRegion {
    pub ty: MemoryRegionType,
    pub start: u32,
    /// One past the last address of the region.
    pub end: u32,
}

impl MemoryRegion {
    /// A region of type `ty` that spans `[start, end)`.
    pub fn new(ty: MemoryRegionType, start: u32, end: u32) -> (r: Self)
        ensures
            r == (MemoryRegion { ty, start, end }),
    {
        MemoryRegion { ty, start, end }
    }

    /// The region covers the whole of `request` and its type permits the
    /// requested type.
    pub open spec fn spec_has_access(self, request: MemoryRegion) -> bool {
        &&& self.ty.spec_has_access(request.ty)
        &&& self.start <= request.start
        &&& request.end <= self.end
    }

    /// Whether the region covers the whole of `request` and its type permits
    /// the requested type.
    pub fn has_access(&self, request: &MemoryRegion) -> (r: bool)
        ensures
            r == self.spec_has_access(*request),
    {
        self.ty.has_access(request.ty) && self.start <= request.start && request.end <= self.end
    }

    /// Some single region of `regions` grants `request`.
    pub open spec fn spec_regions_have_access(
        regions: Seq<MemoryRegion>,
        request: MemoryRegion,
    ) -> bool {
        exists|i: int| 0 <= i < regions.len() && (#[trigger] regions[i]).spec_has_access(request)
    }

    /// Whether some single region of `regions` grants `request`.
    pub fn regions_have_access(regions: &[MemoryRegion], request: &MemoryRegion) -> (r: bool)
        ensures
            r == Self::spec_regions_have_access(regions@, *request),
    {
        let mut i: usize = 0;
        while i < regions.len()
            invariant
                i <= regions.len(),
                forall|j: int| 0 <= j < i ==> !(#[trigger] regions@[j]).spec_has_access(*request),
            decreases regions.len() - i,
        {
            if regions[i].has_access(request) {
                return true;
            }
            i += 1;
        }
        false
    }
}

} // verus!
