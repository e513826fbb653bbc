//! What can go wrong in messaging.

use crate::text::{concat3, show};
use vstd::prelude::*;
use vstd::string::StringExecFns;

verus! {

#[derive(Debug)]
pub enum MessagingError {
    Io(String),
    UnknownTopic(String),
    UnknownQueue(String),
    UnknownStream(String),
    /// The partition asked for, and how many there are.
    PartitionOutOfRange(usize, usize),
}

impl MessagingError {
    pub open spec fn text(&self) -> Seq<char> {
        match self {
            MessagingError::Io(m) => "io error: "@ + m@,
            MessagingError::UnknownTopic(n) => "unknown topic '"@ + n@ + "'"@,
            MessagingError::UnknownQueue(n) => "unknown queue '"@ + n@ + "'"@,
            MessagingError::UnknownStream(n) => "unknown stream '"@ + n@ + "'"@,
            MessagingError::PartitionOutOfRange(p, n) => "partition "@ + crate::text::decimal(
                *p as nat,
            ) + " out of range (stream has "@ + crate::text::decimal(*n as nat) + " partitions)"@,
        }
    }

    /// The message shown for this error.
    pub fn message(&self) -> (s: String)
        ensures
            s@ == self.text(),
    {
        match self {
            MessagingError::Io(m) => "io error: ".to_owned().concat(m.as_str()),
            MessagingError::UnknownTopic(n) => concat3("unknown topic '", n.as_str(), "'"),
            MessagingError::UnknownQueue(n) => concat3("unknown queue '", n.as_str(), "'"),
            MessagingError::UnknownStream(n) => concat3("unknown stream '", n.as_str(), "'"),
            MessagingError::PartitionOutOfRange(p, n) => concat3(
                "partition ",
                show(*p as u128).as_str(),
                " out of range (stream has ",
            ).concat(show(*n as u128).as_str()).concat(" partitions)"),
        }
    }
}

/// What went wrong with messaging, in words.
pub proof fn law_messaging_errors_in_words(e: MessagingError)
    ensures
        match e {
            MessagingError::Io(m) => e.text() == "io error: "@ + m@,
            MessagingError::UnknownTopic(n) => e.text() == "unknown topic '"@ + n@ + "'"@,
            MessagingError::UnknownQueue(n) => e.text() == "unknown queue '"@ + n@ + "'"@,
            MessagingError::UnknownStream(n) => e.text() == "unknown stream '"@ + n@ + "'"@,
            MessagingError::PartitionOutOfRange(p, n) => e.text() == "partition "@
                + crate::text::decimal(p as nat) + " out of range (stream has "@
                + crate::text::decimal(n as nat) + " partitions)"@,
        },
{
}

} // verus!
