pub mod crc32;
pub mod hash;
pub mod ice;
pub mod md5;
pub mod buffer;
pub mod module;
pub mod text;
pub mod xstring;
pub mod policy;
pub mod protocol;
pub mod entropy;
pub mod seal;
pub mod host;
pub mod analysis;
pub mod tokens;
pub mod listener;
pub mod daemon;
pub mod procfs;
pub mod sysinfo;
pub mod client_scan;
pub mod kmod;
pub mod server_modules;
pub mod machine;
pub mod win_daemon;
