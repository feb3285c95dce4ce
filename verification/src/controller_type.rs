//! The controllers of a cgroup.

use vstd::prelude::*;

verus! {

/// A controller that the kernel offers.
#[derive(Debug, Clone, Copy, PartialEq, Eq, Structural)]
pub enum ControllerType {
    Cpu,
    CpuSet,
    HugeTlb,
    Io,
    Memory,
    Pids,
}

/// Something that is set like a controller and is none to the kernel.
#[derive(Debug, Clone, Copy, PartialEq, Eq, Structural)]
pub enum PseudoControllerType {
    Devices,
    Freezer,
    Unified,
}

/// The controllers, in the order in which they are set and read.
pub const CONTROLLER_TYPES: [ControllerType; 6] = [
    ControllerType::Cpu,
    ControllerType::CpuSet,
    ControllerType::HugeTlb,
    ControllerType::Io,
    ControllerType::Memory,
    ControllerType::Pids,
];

/// The pseudo controllers, in the order in which they are set.
pub const PSEUDO_CONTROLLER_TYPES: [PseudoControllerType; 3] = [
    PseudoControllerType::Devices,
    PseudoControllerType::Freezer,
    PseudoControllerType::Unified,
];

/// The name that the kernel has for a controller.
pub open spec fn kernel_name(c: ControllerType) -> Seq<char> {
    match c {
        ControllerType::Cpu => "cpu"@,
        ControllerType::CpuSet => "cpuset"@,
        ControllerType::HugeTlb => "hugetlb"@,
        ControllerType::Io => "io"@,
        ControllerType::Memory => "memory"@,
        ControllerType::Pids => "pids"@,
    }
}

/// What is written to switch a controller on: its name behind a `+`.
pub open spec fn switch_on(c: ControllerType) -> Seq<char> {
    "+"@ + kernel_name(c)
}

impl ControllerType {
    /// Gives the name that the kernel has for the controller.
    pub fn name(&self) -> (t: &'static str)
        ensures
            t@ == kernel_name(*self),
    {
        match self {
            ControllerType::Cpu => "cpu",
            ControllerType::CpuSet => "cpuset",
            ControllerType::HugeTlb => "hugetlb",
            ControllerType::Io => "io",
            ControllerType::Memory => "memory",
            ControllerType::Pids => "pids",
        }
    }
}

} // verus!
