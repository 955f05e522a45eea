//! Which compute backend runs a node's numeric kernels.
use vstd::prelude::*;

verus! {

/// Available compute backends.
#[derive(Debug, Clone, Copy, PartialEq, Eq, Structural)]
pub enum ComputeBackendType {
    Cpu,
    Cuda,
    OpenCl,
    Wgpu,
}

/// GPU compute backend (CUDA/Metal); the kernels themselves run on the CPU.
pub struct GpuCompute {
    detected: ComputeBackendType,
}

impl GpuCompute {
    /// The backend a GPU node reports: CUDA when an NVIDIA driver answers,
    /// otherwise OpenCL-class Metal when Metal is present, otherwise CPU.
    pub fn new(cuda_available: bool, metal_available: bool) -> (r: Self)
        ensures
            r.spec_backend_type() == (if cuda_available {
                ComputeBackendType::Cuda
            } else if metal_available {
                ComputeBackendType::OpenCl
            } else {
                ComputeBackendType::Cpu
            }),
    {
        let detected = if cuda_available {
            ComputeBackendType::Cuda
        } else if metal_available {
            ComputeBackendType::OpenCl
        } else {
            ComputeBackendType::Cpu
        };
        GpuCompute { detected }
    }

    pub closed spec fn spec_backend_type(&self) -> ComputeBackendType {
        self.detected
    }

    pub fn backend_type(&self) -> (r: ComputeBackendType)
        ensures
            r == self.spec_backend_type(),
    {
        self.detected
    }
}

} // verus!
