use vstd::prelude::*;
use vstd::string::*;

verus! {

/// Errors reported by the library.
#[derive(Debug, PartialEq, Eq)]
pub enum Error {
    /// An argument is outside the accepted range.
    InvalidArgument {
        /// The argument's name.
        name: String,
        /// A human-readable description of the problem.
        message: String,
    },
    /// The input data is malformed or inconsistent.
    InvalidData {
        /// A human-readable description of the problem.
        message: String,
    },
    /// The format is not supported.
    UnsupportedFormat {
        /// The format's name or extension.
        format: String,
    },
    /// The format is supported, but this build does not include it.
    FeatureDisabled {
        /// The Cargo feature that would enable it.
        feature: String,
    },
    /// Decoding finished without the named stream property.
    MissingMetadata {
        /// The missing property.
        name: String,
    },
    /// An I/O operation failed.
    Io {
        /// The operating system's description of the failure.
        message: String,
    },
    /// The WAV encoder failed.
    Wav {
        /// The encoder's description of the failure.
        message: String,
    },
    /// The audio decoder failed.
    Decode {
        /// The decoder's description of the failure.
        message: String,
    },
}

/// The text that `Error::to_string` returns for an error.
pub open spec fn error_text(e: Error) -> Seq<char> {
    match e {
        Error::InvalidArgument { message, .. } => message@,
        Error::InvalidData { message } => message@,
        Error::UnsupportedFormat { format } => "Unsupported format: "@ + format@,
        Error::FeatureDisabled { feature } => "This build does not include it: enable the `"@
            + feature@ + "` Cargo feature"@,
        Error::MissingMetadata { name } => "Missing audio metadata: "@ + name@,
        Error::Io { message } => message@,
        Error::Wav { message } => "WAV error: "@ + message@,
        Error::Decode { message } => "Decode error: "@ + message@,
    }
}

impl Error {
    /// Builds an `InvalidArgument` error from two literals.
    pub fn invalid_argument(name: &str, message: &str) -> (e: Error)
        ensures
            e matches Error::InvalidArgument { name: n, message: m } && n@ == name@ && m@
                == message@,
    {
        Error::InvalidArgument { name: String::from_str(name), message: String::from_str(message) }
    }

    /// Builds an `InvalidData` error from a literal.
    pub fn invalid_data(message: &str) -> (e: Error)
        ensures
            e matches Error::InvalidData { message: m } && m@ == message@,
    {
        Error::InvalidData { message: String::from_str(message) }
    }

    /// Builds an `UnsupportedFormat` error.
    pub fn unsupported_format(format: &str) -> (e: Error)
        ensures
            e matches Error::UnsupportedFormat { format: f } && f@ == format@,
    {
        Error::UnsupportedFormat { format: String::from_str(format) }
    }

    /// Returns the error's message.
    pub fn to_string(&self) -> (s: String)
        ensures
            s@ == error_text(*self),
    {
        match self {
            Error::InvalidArgument { message, .. } => message.clone(),
            Error::InvalidData { message } => message.clone(),
            Error::UnsupportedFormat { format } => {
                let mut s = String::from_str("Unsupported format: ");
                s.append(format.as_str());
                s
            },
            Error::FeatureDisabled { feature } => {
                let mut s = String::from_str("This build does not include it: enable the `");
                s.append(feature.as_str());
                s.append("` Cargo feature");
                s
            },
            Error::MissingMetadata { name } => {
                let mut s = String::from_str("Missing audio metadata: ");
                s.append(name.as_str());
                s
            },
            Error::Io { message } => message.clone(),
            Error::Wav { message } => {
                let mut s = String::from_str("WAV error: ");
                s.append(message.as_str());
                s
            },
            Error::Decode { message } => {
                let mut s = String::from_str("Decode error: ");
                s.append(message.as_str());
                s
            },
        }
    }
}

} // verus!
