//! Tar headers: what they say, and how they are written in 512-byte records.

pub mod gnu;
pub mod header;
pub mod label;
pub mod laws;
pub mod pax;
pub mod record;
pub mod recovery;
pub mod serialize;
pub mod ustar;
pub mod path;

pub use self::header::HeaderError;
pub use self::header::HeaderGenResult;
pub use self::header::TarFileType;
pub use self::header::TarFormat;
pub use self::header::TarHeader;
pub use self::path::canonicalized_tar_path;
pub use self::path::normalize;
pub use self::path::PathPart;
pub use self::path::PathPrefix;
pub use self::recovery::RecoveryEntry;
pub use self::label::TarLabel;
pub use self::serialize::close_tarball;
pub use self::serialize::headergen;
