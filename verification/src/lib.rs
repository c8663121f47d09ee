//! Reads npm's `.npmrc` settings out of INI text into a typed record, and
//! resolves which registry serves a given package.

pub mod config;
pub mod decode;
pub mod ini;
pub mod text;
pub mod theory;

pub use config::{Access, LogLevel, Npmrc, NpmrcView, Scope, ScopeView};
pub use decode::{decode_lines, load, parse, DecodeError, Error, HomeFile};
pub use ini::{Line, LineView};
