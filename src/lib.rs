//! Email addresses with optional display names, and API credentials for a
//! transactional-email HTTP service, with verified parsing and validation.
pub mod address;
pub mod credentials;
pub mod text;

pub use address::{EmailAddress, ParseError, is_valid_display_name, is_valid_address};
pub use credentials::{Credentials, CredentialsError, MAILGUN_DEFAULT_API};
