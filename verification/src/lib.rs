//! Simplifies Windows paths prefixed by `\\?\` (the Win32 File Namespaces)
//! so that programs that cannot handle that prefix can use them; see
//! [`SimplePath`].
pub mod components;
pub mod display;
pub mod drive_path;
pub mod logical_drive;
pub mod long_unc;
pub mod net_resource;
pub mod os_str_ext;
pub mod outside;
pub mod path_ext;
pub mod path_order;
pub mod simple_path;
pub mod text;
pub mod unc_path;
pub mod volume;

pub use display::Display;
pub use simple_path::SimplePath;
