use vstd::prelude::*;

verus! {

/// Spec-level image of [`AetherError`]: the same variants over mathematical
/// values (`Seq<char>` for strings), so that contracts can construct and
/// compare error values.
pub enum ErrView {
    AlreadyExists(Seq<char>),
    ExecConflict(Seq<Seq<char>>),
    InfoKeyError { kind: Seq<char>, key: Seq<char> },
    InfoParseError { field: Seq<char>, line: Seq<char> },
    InfoValueError { kind: Seq<char>, value: Seq<char> },
    InvalidPkg { path: Seq<char>, note: Seq<char> },
    InvalidValue { key: Seq<char>, value: Seq<char> },
    CopyError { from: Seq<char>, to: Seq<char> },
    LinkError { from: Seq<char>, to: Seq<char> },
    MissingExec(Seq<Seq<char>>),
    MissingFile(Seq<Seq<char>>),
    MissingPkg { name: Seq<char>, ver: Seq<char> },
    NotFound { file: Seq<char> },
    ProcessError,
    ReadError { file: Seq<char> },
    Unknown,
    Utf8Error,
    WriteError { file: Seq<char> },
}

/// Everything that can go wrong while reading, validating, installing or
/// removing a package. String payloads carry the offending names, keys,
/// values or paths; list payloads carry every item concerned.
#[derive(Clone, Debug, PartialEq, Eq)]
pub enum AetherError {
    /// A package with this reference string is already installed.
    AlreadyExists(String),
    /// Installing would leave two packages providing one of these
    /// executable names.
    ExecConflict(Vec<String>),
    /// A metadata line used a key that the record kind does not know.
    InfoKeyError { kind: String, key: String },
    /// A metadata line could not be split into key and value.
    InfoParseError { field: String, line: String },
    /// A metadata value did not fit the field it was given for.
    InfoValueError { kind: String, value: String },
    /// A candidate directory is not a well-formed package.
    InvalidPkg { path: String, note: String },
    /// A numeric metadata value could not be parsed.
    InvalidValue { key: String, value: String },
    /// Copying a package's contents into the store failed.
    CopyError { from: String, to: String },
    /// Creating an executable symlink failed.
    LinkError { from: String, to: String },
    /// These executables are absent from the binary directory.
    MissingExec(Vec<String>),
    /// These files are absent from the package store.
    MissingFile(Vec<String>),
    /// No installed package has this name and version.
    MissingPkg { name: String, ver: String },
    /// A file or directory does not exist.
    NotFound { file: String },
    /// The external decompression filter could not be run.
    ProcessError,
    /// A file or directory could not be read.
    ReadError { file: String },
    /// An unclassified failure.
    Unknown,
    /// File bytes were not valid UTF-8.
    Utf8Error,
    /// A file could not be modified.
    WriteError { file: String },
}

impl View for AetherError {
    type V = ErrView;

    open spec fn view(&self) -> ErrView {
        match self {
            AetherError::AlreadyExists(s) => ErrView::AlreadyExists(s@),
            AetherError::ExecConflict(v) => ErrView::ExecConflict(v.deep_view()),
            AetherError::InfoKeyError { kind, key } => ErrView::InfoKeyError {
                kind: kind@,
                key: key@,
            },
            AetherError::InfoParseError { field, line } => ErrView::InfoParseError {
                field: field@,
                line: line@,
            },
            AetherError::InfoValueError { kind, value } => ErrView::InfoValueError {
                kind: kind@,
                value: value@,
            },
            AetherError::InvalidPkg { path, note } => ErrView::InvalidPkg {
                path: path@,
                note: note@,
            },
            AetherError::InvalidValue { key, value } => ErrView::InvalidValue {
                key: key@,
                value: value@,
            },
            AetherError::CopyError { from, to } => ErrView::CopyError { from: from@, to: to@ },
            AetherError::LinkError { from, to } => ErrView::LinkError { from: from@, to: to@ },
            AetherError::MissingExec(v) => ErrView::MissingExec(v.deep_view()),
            AetherError::MissingFile(v) => ErrView::MissingFile(v.deep_view()),
            AetherError::MissingPkg { name, ver } => ErrView::MissingPkg {
                name: name@,
                ver: ver@,
            },
            AetherError::NotFound { file } => ErrView::NotFound { file: file@ },
            AetherError::ProcessError => ErrView::ProcessError,
            AetherError::ReadError { file } => ErrView::ReadError { file: file@ },
            AetherError::Unknown => ErrView::Unknown,
            AetherError::Utf8Error => ErrView::Utf8Error,
            AetherError::WriteError { file } => ErrView::WriteError { file: file@ },
        }
    }
}

} // verus!
