pub mod errors;

pub use self::errors::{RRecvError, RSendError, RTryRecvError, RTrySendError};
