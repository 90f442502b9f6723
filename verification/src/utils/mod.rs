pub mod maybe_unavaliable;

pub use self::maybe_unavaliable::MaybeUnavailable;
pub mod parse;
