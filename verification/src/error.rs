//! The errors of the changelog tool, their messages and their exit codes.

use crate::text::{has_prefix, joined};
use std::path::PathBuf;
use vstd::prelude::*;

verus! {

/// `std::path::PathBuf`, carried through as a value that is not looked
/// into.
#[verifier::external_type_specification]
#[verifier::external_body]
pub struct ExPathBuf(PathBuf);

/// `std::io::Error`, carried through as a value that is not looked into.
#[verifier::external_type_specification]
#[verifier::external_body]
pub struct ExIoError(std::io::Error);

/// Everything that can go wrong in the tool.
#[derive(Debug)]
pub enum ChangelogError {
    /// A git operation failed.
    GitError(String),
    /// No repository at the path.
    RepositoryNotFound(PathBuf),
    /// A commit message could not be read.
    CommitParseError(String),
    /// A text is no semantic version.
    VersionParseError(String),
    /// No configuration file at the path.
    ConfigNotFound(PathBuf),
    /// A configuration file could not be read.
    ConfigParseError { format: String, reason: String },
    /// A template could not be rendered.
    TemplateError(String),
    /// A plugin could not be loaded.
    PluginLoadError(String),
    /// A request to the GitHub API failed.
    GitHubApiError(String),
    /// A network request failed.
    NetworkError(String),
    /// Reading or writing a file failed.
    IoError(std::io::Error),
    /// The command line is not valid.
    InvalidArguments(String),
    /// No template file at the path.
    TemplateNotFound(PathBuf),
    /// The output file cannot be written.
    OutputWriteError(PathBuf, String),
    /// A regular expression is not valid.
    RegexError(String),
    /// No workspace was found.
    WorkspaceNotFound(String),
    /// The feature is not supported.
    UnsupportedFeature(String),
    /// Telemetry could not be sent.
    TelemetryError(String),
    /// Anything else.
    Other(String),
}

/// A path as `Path::display` shows it to the user. How a path that is not
/// valid Unicode is shown is up to the platform, so nothing is stated of
/// the text.
#[verifier::external_body]
fn shown_path(path: &PathBuf) -> (text: String) {
    path.display().to_string()
}

/// An I/O error as its `Display` shows it to the user. The text comes from
/// the operating system, so nothing is stated of it.
#[verifier::external_body]
fn shown_io_error(error: &std::io::Error) -> (text: String) {
    error.to_string()
}

/// The exit code of each kind of error.
pub open spec fn exit_code_of(e: ChangelogError) -> int {
    match e {
        ChangelogError::InvalidArguments(_) => 1,
        ChangelogError::GitError(_) | ChangelogError::RepositoryNotFound(_) => 2,
        ChangelogError::ConfigNotFound(_) | ChangelogError::ConfigParseError { .. } => 3,
        ChangelogError::TemplateError(_) | ChangelogError::TemplateNotFound(_) => 4,
        ChangelogError::VersionParseError(_) => 5,
        ChangelogError::GitHubApiError(_) | ChangelogError::NetworkError(_) => 6,
        ChangelogError::IoError(_) | ChangelogError::OutputWriteError(_, _) => 7,
        ChangelogError::PluginLoadError(_) => 8,
        ChangelogError::CommitParseError(_) => 9,
        ChangelogError::RegexError(_) => 10,
        ChangelogError::WorkspaceNotFound(_) => 11,
        ChangelogError::TelemetryError(_) => 12,
        ChangelogError::UnsupportedFeature(_) => 13,
        ChangelogError::Other(_) => 99,
    }
}

/// What the message of an error starts with.
pub open spec fn message_head(e: ChangelogError) -> Seq<char> {
    match e {
        ChangelogError::GitError(_) => "Git operation failed: "@,
        ChangelogError::RepositoryNotFound(_) => "Git repository not found at: "@,
        ChangelogError::CommitParseError(_) => "Failed to parse commit message: "@,
        ChangelogError::VersionParseError(_) => "Invalid semantic version: "@,
        ChangelogError::ConfigNotFound(_) => "Configuration file not found: "@,
        ChangelogError::ConfigParseError { .. } => "Failed to parse configuration file ("@,
        ChangelogError::TemplateError(_) => "Template rendering failed: "@,
        ChangelogError::PluginLoadError(_) => "Failed to load plugin: "@,
        ChangelogError::GitHubApiError(_) => "GitHub API request failed: "@,
        ChangelogError::NetworkError(_) => "Network request failed: "@,
        ChangelogError::IoError(_) => "File I/O error: "@,
        ChangelogError::InvalidArguments(_) => "Invalid command line arguments: "@,
        ChangelogError::TemplateNotFound(_) => "Template file not found: "@,
        ChangelogError::OutputWriteError(_, _) => "Cannot write to output file: "@,
        ChangelogError::RegexError(_) => "Invalid regex pattern: "@,
        ChangelogError::WorkspaceNotFound(_) => "Workspace not found: "@,
        ChangelogError::UnsupportedFeature(_) => "Unsupported feature: "@,
        ChangelogError::TelemetryError(_) => "Telemetry collection failed: "@,
        ChangelogError::Other(_) => "An unexpected error occurred: "@,
    }
}

/// The whole message of an error that holds nothing but texts; `None` for
/// an error that holds a path or an I/O error.
pub open spec fn message_of(e: ChangelogError) -> Option<Seq<char>> {
    match e {
        ChangelogError::GitError(m)
        | ChangelogError::CommitParseError(m)
        | ChangelogError::TemplateError(m)
        | ChangelogError::PluginLoadError(m)
        | ChangelogError::GitHubApiError(m)
        | ChangelogError::NetworkError(m)
        | ChangelogError::InvalidArguments(m)
        | ChangelogError::RegexError(m)
        | ChangelogError::WorkspaceNotFound(m)
        | ChangelogError::UnsupportedFeature(m)
        | ChangelogError::TelemetryError(m)
        | ChangelogError::Other(m) => Some(message_head(e) + m@),
        ChangelogError::VersionParseError(m) => Some(
            message_head(e) + m@ + ". Expected format: major.minor.patch"@,
        ),
        ChangelogError::ConfigParseError { format, reason } => Some(
            message_head(e) + format@ + "): "@ + reason@,
        ),
        ChangelogError::RepositoryNotFound(_)
        | ChangelogError::ConfigNotFound(_)
        | ChangelogError::TemplateNotFound(_)
        | ChangelogError::OutputWriteError(_, _)
        | ChangelogError::IoError(_) => None,
    }
}

impl ChangelogError {
    /// A git error with the given message.
    pub fn git(message: &str) -> (e: ChangelogError)
        ensures
            e matches ChangelogError::GitError(m) && m@ == message@,
    {
        ChangelogError::GitError(message.to_owned())
    }

    /// The error of a path that holds no repository.
    pub fn repo_not_found(path: PathBuf) -> (e: ChangelogError)
        ensures
            e == ChangelogError::RepositoryNotFound(path),
    {
        ChangelogError::RepositoryNotFound(path)
    }

    /// The error of a configuration file that could not be read.
    pub fn config_parse_error(format: &str, reason: &str) -> (e: ChangelogError)
        ensures
            e matches ChangelogError::ConfigParseError { format: f, reason: r } && f@ == format@
                && r@ == reason@,
    {
        ChangelogError::ConfigParseError { format: format.to_owned(), reason: reason.to_owned() }
    }

    /// A template error with the given message.
    pub fn template(message: &str) -> (e: ChangelogError)
        ensures
            e matches ChangelogError::TemplateError(m) && m@ == message@,
    {
        ChangelogError::TemplateError(message.to_owned())
    }

    /// Whether the tool can go on after this error: a missing
    /// configuration or template file, or a feature that is not supported.
    pub fn is_recoverable(&self) -> (r: bool)
        ensures
            r == (self is ConfigNotFound || self is TemplateNotFound || self is UnsupportedFeature),
    {
        match self {
            ChangelogError::ConfigNotFound(_) => true,
            ChangelogError::TemplateNotFound(_) => true,
            ChangelogError::UnsupportedFeature(_) => true,
            _ => false,
        }
    }

    /// The exit code of the process for this error.
    pub fn exit_code(&self) -> (r: i32)
        ensures
            r == exit_code_of(*self),
    {
        match self {
            ChangelogError::InvalidArguments(_) => 1,
            ChangelogError::GitError(_) => 2,
            ChangelogError::RepositoryNotFound(_) => 2,
            ChangelogError::ConfigNotFound(_) => 3,
            ChangelogError::ConfigParseError { .. } => 3,
            ChangelogError::TemplateError(_) => 4,
            ChangelogError::TemplateNotFound(_) => 4,
            ChangelogError::VersionParseError(_) => 5,
            ChangelogError::GitHubApiError(_) => 6,
            ChangelogError::NetworkError(_) => 6,
            ChangelogError::IoError(_) => 7,
            ChangelogError::OutputWriteError(_, _) => 7,
            ChangelogError::PluginLoadError(_) => 8,
            ChangelogError::CommitParseError(_) => 9,
            ChangelogError::RegexError(_) => 10,
            ChangelogError::WorkspaceNotFound(_) => 11,
            ChangelogError::TelemetryError(_) => 12,
            ChangelogError::UnsupportedFeature(_) => 13,
            ChangelogError::Other(_) => 99,
        }
    }

    /// The message of the error. It starts with the words of its kind; an
    /// error that holds only texts is followed by them, as `message_of`
    /// says, and one that writes to a file ends with its reason.
    pub fn to_string(&self) -> (s: String)
        ensures
            has_prefix(s@, message_head(*self)),
            message_of(*self) matches Some(m) ==> s@ == m,
            self matches ChangelogError::OutputWriteError(_, reason) ==> exists|shown: Seq<char>|
                s@ == message_head(*self) + shown + ": "@ + reason@,
    {
        let s = match self {
            ChangelogError::GitError(m) => joined("Git operation failed: ", m.as_str()),
            ChangelogError::RepositoryNotFound(p) => joined(
                "Git repository not found at: ",
                shown_path(p).as_str(),
            ),
            ChangelogError::CommitParseError(m) => joined(
                "Failed to parse commit message: ",
                m.as_str(),
            ),
            ChangelogError::VersionParseError(m) => {
                let head = joined("Invalid semantic version: ", m.as_str());
                joined(head.as_str(), ". Expected format: major.minor.patch")
            },
            ChangelogError::ConfigNotFound(p) => joined(
                "Configuration file not found: ",
                shown_path(p).as_str(),
            ),
            ChangelogError::ConfigParseError { format, reason } => {
                let head = joined("Failed to parse configuration file (", format.as_str());
                let head = joined(head.as_str(), "): ");
                joined(head.as_str(), reason.as_str())
            },
            ChangelogError::TemplateError(m) => joined("Template rendering failed: ", m.as_str()),
            ChangelogError::PluginLoadError(m) => joined("Failed to load plugin: ", m.as_str()),
            ChangelogError::GitHubApiError(m) => joined("GitHub API request failed: ", m.as_str()),
            ChangelogError::NetworkError(m) => joined("Network request failed: ", m.as_str()),
            ChangelogError::IoError(e) => joined("File I/O error: ", shown_io_error(e).as_str()),
            ChangelogError::InvalidArguments(m) => joined(
                "Invalid command line arguments: ",
                m.as_str(),
            ),
            ChangelogError::TemplateNotFound(p) => joined(
                "Template file not found: ",
                shown_path(p).as_str(),
            ),
            ChangelogError::OutputWriteError(p, reason) => {
                let shown = shown_path(p);
                let head = joined("Cannot write to output file: ", shown.as_str());
                let head = joined(head.as_str(), ": ");
                let s = joined(head.as_str(), reason.as_str());
                assert(s@ == message_head(*self) + shown@ + ": "@ + reason@);
                s
            },
            ChangelogError::RegexError(m) => joined("Invalid regex pattern: ", m.as_str()),
            ChangelogError::WorkspaceNotFound(m) => joined("Workspace not found: ", m.as_str()),
            ChangelogError::UnsupportedFeature(m) => joined("Unsupported feature: ", m.as_str()),
            ChangelogError::TelemetryError(m) => joined(
                "Telemetry collection failed: ",
                m.as_str(),
            ),
            ChangelogError::Other(m) => joined("An unexpected error occurred: ", m.as_str()),
        };
        proof {
            let head = message_head(*self);
            assert(s@.take(head.len() as int) =~= head);
        }
        s
    }
}

} // verus!
