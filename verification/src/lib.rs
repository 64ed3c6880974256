//! Print-imposition layout for a document given by a range of pages: the
//! number of pages, of sheets and of signatures, the pages that each
//! signature holds, and the alphabetic key that names it.

pub mod decimal;
pub mod document;
pub mod error;
pub mod key;
pub mod partition;
pub mod units;
pub mod validate;

pub use document::DocumentInfo;
pub use error::ValidationError;
pub use key::get_signature_key;
pub use partition::{get_signatures, Signature};
pub use validate::{parse_args, validate, PageRange};
