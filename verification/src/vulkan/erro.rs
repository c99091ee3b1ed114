//! Errors of the backend.

use vstd::prelude::*;

verus! {

/// The results of a Vulkan call that the backend itself tells apart.
#[derive(Clone, Copy, Debug, PartialEq, Eq, Structural)]
pub enum VkResult {
    ErrorFeatureNotPresent,
    ErrorFormatNotSupported,
    ErrorInitializationFailed,
    ErrorOutOfDeviceMemory,
    ErrorUnknown,
    /// Any other code.
    Outro(i32),
}

#[derive(Clone, Copy, Debug, PartialEq, Eq, Structural)]
pub enum VulkanError {
    /// The Vulkan library cannot be loaded.
    LibraryLoad,
    InstanceCreate(VkResult),
    NoDevices,
    Api(VkResult),
}

#[derive(Clone, Copy, Debug, PartialEq, Eq, Structural)]
pub enum PipelineError {
    Vulkan(VkResult),
}

#[derive(Clone, Copy, Debug, PartialEq, Eq, Structural)]
pub enum AllocError {
    Oom(VkResult),
    /// There is no device-local memory type.
    NoMemoryType,
}

#[derive(Clone, Copy, Debug, PartialEq, Eq, Structural)]
pub enum TensorError {
    Vulkan(VkResult),
}

#[derive(Clone, Copy, Debug, PartialEq, Eq, Structural)]
pub enum MatmulError {
    Tensor(TensorError),
    Pipeline(PipelineError),
    Vulkan(VkResult),
}

#[derive(Clone, Copy, Debug, PartialEq, Eq, Structural)]
pub enum DualGpuError {
    /// Fewer than two devices.
    NotEnoughDevices,
    Matmul { gpu: usize, source: MatmulError },
}

#[derive(Debug)]
pub enum GpuModelError {
    Upload(String),
    Forward(String),
}

/// The error for what the device or the model does not offer.
pub open spec fn sem_recurso() -> MatmulError {
    MatmulError::Vulkan(VkResult::ErrorFeatureNotPresent)
}

pub fn falta_recurso() -> (r: MatmulError)
    ensures
        r == sem_recurso(),
{
    MatmulError::Vulkan(VkResult::ErrorFeatureNotPresent)
}

} // verus!
