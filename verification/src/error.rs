//! The errors of the engine.

use vstd::prelude::*;
use crate::tensor_id::TensorId;

verus! {

/// Why an operation could not be added to a graph or turned into a dispatch.
#[derive(Clone, Copy, Debug, PartialEq, Eq, Structural)]
pub enum OperationError {
    /// The shapes of the operands do not fit the operation, or one of them
    /// has more dimensions or elements than a kernel can be told of.
    ShapeError,
    /// The element types of the operands do not fit the operation.
    DtypeError,
    /// The operands do not live on one device.
    DeviceMismatch,
    /// The operation can only write into its first operand, and that operand
    /// is still needed after it.
    InplaceRequired,
    /// The dispatch would need more workgroups than a device accepts.
    DispatchTooLarge,
    /// The staging area for kernel parameters is full.
    UniformOverflow,
}

/// Why a device could not do what was asked of it.
#[derive(Clone, Copy, Debug, PartialEq, Eq, Structural)]
pub enum DeviceError {
    /// The operation needs a GPU device and was given the CPU.
    DeviceNotGpu,
    /// The operation needs the CPU device and was given a GPU.
    DeviceNotCpu,
    /// The device cannot hold a buffer of the size that is needed.
    AllocationFailed,
}

/// Why a tensor could not be computed, moved or read.
#[derive(Clone, Copy, Debug, PartialEq, Eq, Structural)]
pub enum TensorError {
    /// The tensor has not been computed yet.
    NotResolved,
    /// The node has no storage where it must have some.
    NoStorage(TensorId),
    /// The device refused.
    DeviceError(DeviceError),
    /// The data could not be brought to the host.
    TransferError,
    /// An operation of the graph refused.
    OperationError(OperationError),
}

impl From<DeviceError> for TensorError {
    fn from(e: DeviceError) -> (out: TensorError) {
        TensorError::DeviceError(e)
    }
}

impl vstd::std_specs::convert::FromSpecImpl<DeviceError> for TensorError {
    open spec fn obeys_from_spec() -> bool {
        true
    }

    open spec fn from_spec(e: DeviceError) -> TensorError {
        TensorError::DeviceError(e)
    }
}

impl From<OperationError> for TensorError {
    fn from(e: OperationError) -> (out: TensorError) {
        TensorError::OperationError(e)
    }
}

impl vstd::std_specs::convert::FromSpecImpl<OperationError> for TensorError {
    open spec fn obeys_from_spec() -> bool {
        true
    }

    open spec fn from_spec(e: OperationError) -> TensorError {
        TensorError::OperationError(e)
    }
}

} // verus!
