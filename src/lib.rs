use vstd::prelude::*;

pub mod message;
pub mod serializer;
pub mod parser;
pub mod lemmas;
pub mod render;

verus! {

} // verus!

pub use message::{AnswerSection, DnsError, Message, QuerySection, RData};
pub use parser::Parser;
pub use serializer::Serializer;
