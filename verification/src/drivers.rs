//! Device drivers: what every driver offers, what the drivers of each
//! category offer, and the pieces of the SD card and virtio drivers that
//! compute without touching a device.

pub mod base;
pub mod sdcard;
pub mod virtio;
