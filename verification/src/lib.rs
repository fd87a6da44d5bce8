pub mod text;
pub mod host;
pub mod ram;
pub mod cpu;
pub mod fan;
pub mod helper;
pub mod gpu;
pub mod disk;
pub mod sensors;
