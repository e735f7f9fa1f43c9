//! Installing on endpoints: the devices, what is written for them, and the services
//! around it.

pub mod audiodg;
pub mod device;
pub mod selector;
