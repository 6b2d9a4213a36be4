//! The entities of the description.

pub mod cluster;
pub mod clusterinfo;
pub mod cpu;
pub mod device;
pub mod peripheral;
pub mod registerclusterarrayinfo;
pub mod registerproperties;
