//! The failures that discovery and the attribute codecs report.

use vstd::prelude::*;

verus! {

/// Why a file or directory operation did not succeed.
#[derive(Clone, Copy, Debug, PartialEq, Eq, Structural)]
pub enum IoFault {
    NotFound,
    PermissionDenied,
    Busy,
    InvalidData,
    Other,
}

/// A failure of discovery or of a typed attribute access.
#[derive(Clone, Debug, PartialEq, Eq)]
pub enum Ev3Error {
    /// No device instance answered the query.
    NotConnected { device: String, port: Option<String> },
    /// More than one device instance answered a query that wants exactly one.
    MultipleMatches { device: String, ports: Vec<String> },
    /// A file or directory could not be read, written or listed.
    Io { fault: IoFault, subject: String },
    /// The content of an attribute does not follow the grammar of the requested type.
    Parse,
    /// The binary format that the device reports is not the one the decoder handles.
    UnsupportedFormat,
}

pub type Ev3Result<T> = Result<T, Ev3Error>;

/// The mathematical value of an `Ev3Error`: the same cases over sequences of characters.
pub enum ErrorModel {
    NotConnected { device: Seq<char>, port: Option<Seq<char>> },
    MultipleMatches { device: Seq<char>, ports: Seq<Seq<char>> },
    Io { fault: IoFault, subject: Seq<char> },
    Parse,
    UnsupportedFormat,
}

/// The character sequences of a list of strings, in order.
pub open spec fn texts(names: Seq<String>) -> Seq<Seq<char>> {
    Seq::new(names.len(), |i: int| names[i]@)
}

impl View for Ev3Error {
    type V = ErrorModel;

    open spec fn view(&self) -> ErrorModel {
        match *self {
            Ev3Error::NotConnected { device, port } => ErrorModel::NotConnected {
                device: device@,
                port: match port {
                    Some(p) => Some(p@),
                    None => None,
                },
            },
            Ev3Error::MultipleMatches { device, ports } => ErrorModel::MultipleMatches {
                device: device@,
                ports: texts(ports@),
            },
            Ev3Error::Io { fault, subject } => ErrorModel::Io { fault, subject: subject@ },
            Ev3Error::Parse => ErrorModel::Parse,
            Ev3Error::UnsupportedFormat => ErrorModel::UnsupportedFormat,
        }
    }
}

} // verus!
