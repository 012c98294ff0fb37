pub mod manager;
pub mod packet;
pub mod socket;
pub mod theorems;
pub mod timer;
pub mod udp_utils;
