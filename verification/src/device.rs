//! Devices, and handles to what lives on them.

use vstd::prelude::*;

verus! {

/// Where a tensor lives.
#[derive(Debug, Clone, Copy, PartialEq, Eq, Structural)]
pub enum Device {
    /// Host memory.
    Cpu,
    /// A ROCm device, by its ordinal.
    Rocm(usize),
    /// Any other accelerator.
    Other,
}

/// A device buffer of `rows` rows of `cols` elements, named by its owner. Two
/// handles with one `id` name the same storage.
#[derive(Debug, Clone, Copy, PartialEq, Eq, Structural)]
pub struct DeviceBuffer {
    pub id: u64,
    pub rows: usize,
    pub cols: usize,
    /// The buffer lives on a ROCm device.
    pub rocm: bool,
    /// The device address, where the buffer has one.
    pub ptr: Option<u64>,
}

impl Device {
    /// The device is a ROCm device.
    pub open spec fn rocm(self) -> bool {
        self is Rocm
    }

    /// Tells whether the device is a ROCm device.
    pub fn is_rocm(&self) -> (r: bool)
        ensures
            r == self.rocm(),
    {
        match self {
            Device::Rocm(_) => true,
            _ => false,
        }
    }

    /// The ordinal of a ROCm device, and zero for every other one.
    pub fn ordinal(&self) -> (r: usize)
        ensures
            r == (match *self {
                Device::Rocm(o) => o,
                _ => 0,
            }),
    {
        match self {
            Device::Rocm(o) => *o,
            _ => 0,
        }
    }
}

/// The host.
pub fn cpu() -> (device: Device)
    ensures
        device == Device::Cpu,
{
    Device::Cpu
}

} // verus!
