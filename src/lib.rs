//! Device routing and interrupt-controller state capture for a virtual machine
//! monitor.
//!
//! - [`bus`]: the address-space router that maps disjoint ranges to devices.
//! - [`device`]: the capabilities a device offers to the bus and the platform.
//! - [`regs`]: register descriptors, chunked register values and the generic
//!   register access engine.
//! - [`gicv2`], [`gicv3`]: save and restore of the two interrupt-controller
//!   revisions.
pub mod bus;
pub mod device;
pub mod regs;
pub mod gicv2;
pub mod gicv3;
