//! Where the elements of a tensor are: on the host or on a device.

use vstd::prelude::*;
use crate::cpu_buffer::CPUBuffer;
use crate::error::DeviceError;
use crate::gpu_buffer::GPUBuffer;

verus! {

/// A device that holds tensors. The CPU only stages data; kernels run on
/// the GPU.
#[derive(Clone, Copy, Debug, PartialEq, Eq, Structural, Hash)]
pub enum Device {
    CPU,
    GPU,
}

impl Device {
    /// Whether this is the CPU.
    pub fn is_cpu(&self) -> (b: bool)
        ensures
            b == (*self == Device::CPU),
    {
        match self {
            Device::CPU => true,
            Device::GPU => false,
        }
    }

    /// Whether this is a GPU.
    pub fn is_gpu(&self) -> (b: bool)
        ensures
            b == (*self == Device::GPU),
    {
        match self {
            Device::CPU => false,
            Device::GPU => true,
        }
    }

    /// Succeeds where this is a GPU.
    pub fn try_gpu(&self) -> (out: Result<(), DeviceError>)
        ensures
            out is Ok <==> *self == Device::GPU,
            out is Err ==> out->Err_0 == DeviceError::DeviceNotGpu,
    {
        match self {
            Device::GPU => Ok(()),
            Device::CPU => Err(DeviceError::DeviceNotGpu),
        }
    }
}

/// The memory that holds the elements of a tensor.
#[derive(Debug)]
pub enum Storage {
    CPU(CPUBuffer),
    GPU(GPUBuffer),
}

impl Clone for Storage {
    /// Another handle to the same memory.
    fn clone(&self) -> (out: Self)
        ensures
            out == *self,
    {
        match self {
            Storage::CPU(b) => Storage::CPU(b.clone()),
            Storage::GPU(b) => Storage::GPU(*b),
        }
    }
}

impl Storage {
    /// The number of bytes that the tensor fills.
    pub open spec fn spec_n_bytes(&self) -> nat {
        match self {
            Storage::CPU(b) => b@.len(),
            Storage::GPU(b) => b.size as nat,
        }
    }

    /// The device that the memory belongs to.
    pub open spec fn spec_device(&self) -> Device {
        match self {
            Storage::CPU(_) => Device::CPU,
            Storage::GPU(_) => Device::GPU,
        }
    }

    /// The memory is what it says: a host block has as many bytes as its
    /// layout says.
    pub open spec fn wf(&self) -> bool {
        match self {
            Storage::CPU(b) => b.wf(),
            Storage::GPU(_) => true,
        }
    }

    /// The number of bytes that the tensor fills.
    pub fn n_bytes(&self) -> (n: usize)
        requires
            self.wf(),
        ensures
            n == self.spec_n_bytes(),
    {
        match self {
            Storage::CPU(b) => {
                proof {
                    b.lemma_view();
                }
                b.n_bytes()
            },
            Storage::GPU(b) => b.n_bytes(),
        }
    }

    /// The host block, where the memory is on the host.
    pub fn try_cpu(&self) -> (out: Result<&CPUBuffer, DeviceError>)
        ensures
            match out {
                Ok(b) => *self == Storage::CPU(*b),
                Err(e) => self is GPU && e == DeviceError::DeviceNotCpu,
            },
    {
        match self {
            Storage::CPU(b) => Ok(b),
            Storage::GPU(_) => Err(DeviceError::DeviceNotCpu),
        }
    }

    /// The device buffer, where the memory is on a device.
    pub fn try_gpu(&self) -> (out: Result<&GPUBuffer, DeviceError>)
        ensures
            match out {
                Ok(b) => *self == Storage::GPU(*b),
                Err(e) => self is CPU && e == DeviceError::DeviceNotGpu,
            },
    {
        match self {
            Storage::GPU(b) => Ok(b),
            Storage::CPU(_) => Err(DeviceError::DeviceNotGpu),
        }
    }
}

} // verus!
