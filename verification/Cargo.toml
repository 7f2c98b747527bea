[package]
name = "decmpfs"
version = "0.1.0"
edition = "2021"
publish = false

[dependencies]
apple-codesign = { version = "*", default-features = false }
libc = "0.2"
windows-sys = { version = "0.59", features = ["Win32_Foundation", "Win32_Security", "Win32_Storage_FileSystem", "Win32_System_IO", "Win32_System_Ioctl", "Win32_System_LibraryLoader"] }
zstd = "0.13"
