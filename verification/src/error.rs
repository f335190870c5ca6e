use vstd::prelude::*;

verus! {

/// Errors of the messaging system.
///
/// `DeserializationFailed` and `SerializationFailed` report protocol
/// violations in the frame codec; the remaining variants report
/// configuration, input and transport failures around it.
#[derive(Debug, PartialEq, Eq)]
pub enum MsgSystemError {
    DeserializationFailed,
    ReadingFromTCPStreamFailed,
    SerializationFailed,
    CannotConstructMessage { provided_str: String },
    CannotCreateFileData { file_path: String },
    ServerConfigurationNotProvided,
    CannotDeriveSocketAddress { config: String },
    CannotWriteFile { output_directory: String },
}

/// Mathematical model of `MsgSystemError`: the same variants with the
/// carried strings abstracted to character sequences.
pub ghost enum ErrorV {
    DeserializationFailed,
    ReadingFromTCPStreamFailed,
    SerializationFailed,
    CannotConstructMessage { provided_str: Seq<char> },
    CannotCreateFileData { file_path: Seq<char> },
    ServerConfigurationNotProvided,
    CannotDeriveSocketAddress { config: Seq<char> },
    CannotWriteFile { output_directory: Seq<char> },
}

impl View for MsgSystemError {
    type V = ErrorV;

    open spec fn view(&self) -> ErrorV {
        match self {
            MsgSystemError::DeserializationFailed => ErrorV::DeserializationFailed,
            MsgSystemError::ReadingFromTCPStreamFailed => ErrorV::ReadingFromTCPStreamFailed,
            MsgSystemError::SerializationFailed => ErrorV::SerializationFailed,
            MsgSystemError::CannotConstructMessage { provided_str } => ErrorV::CannotConstructMessage {
                provided_str: provided_str@,
            },
            MsgSystemError::CannotCreateFileData { file_path } => ErrorV::CannotCreateFileData {
                file_path: file_path@,
            },
            MsgSystemError::ServerConfigurationNotProvided => ErrorV::ServerConfigurationNotProvided,
            MsgSystemError::CannotDeriveSocketAddress { config } => ErrorV::CannotDeriveSocketAddress {
                config: config@,
            },
            MsgSystemError::CannotWriteFile { output_directory } => ErrorV::CannotWriteFile {
                output_directory: output_directory@,
            },
        }
    }
}

} // verus!
