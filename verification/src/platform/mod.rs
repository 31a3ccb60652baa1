//! What each platform's disk enumeration makes of what the operating system
//! reports. Running the OS tools and opening devices is left to the caller;
//! these modules turn their output into `Disk` records and errors.

pub mod linux;
pub mod macos;
pub mod windows;
