//! Assembles the boot-time payload of a hypervisor (boot banners, system
//! services, guest kernels) into one binary image.

pub mod arch;
pub mod manifest;
pub mod paths;
pub mod acquire;
pub mod settings;
pub mod plan;
pub mod decode;
