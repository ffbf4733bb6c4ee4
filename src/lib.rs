//! Encoding and decoding of the question entry of a DNS message.
pub mod dns_types;
pub mod domain_name;
pub mod question;

pub use dns_types::{QClass, QType};
pub use domain_name::DomainName;
pub use question::{Question, QuestionEntry, QuestionError};
