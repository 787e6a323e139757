//! What can go wrong, and how it is worded.

use crate::escape;
use crate::text;
use vstd::prelude::*;

verus! {

/// A reason for refusing an input or giving up an operation.
#[derive(Clone, Copy, Debug, PartialEq, Eq, Structural)]
pub enum Fault {
    HeaderNotText,
    InvalidLength,
    MissingLength,
    MessageTooLarge,
    MessageCutShort,
    InvalidJson,
    MissingLine,
    MissingCharacter,
    LineOutOfRange,
    CharacterOutOfRange,
    SplitsSurrogatePair,
    MissingNewText,
    OverlappingEdits,
    UnsupportedSource,
    NoMarker,
    AnalyzerSettingsShape,
    NoTypeScript,
    UnknownVersion,
    NativeNeedsSeven,
    AnalyzerNotSeven,
    WrapperVersion,
    NoTsserver,
    LanguageServerSettingsShape,
    VtslsSettingsShape,
    VtslsEntryShape,
    CargoFailed,
    InvalidManifest,
    CannotInfer,
    InvalidChanges,
    InvalidEdits,
    InvalidDocumentChanges,
    ResourceOperation,
    MissingDocumentUri,
    DuplicateGroup,
    InvalidVersion,
    MissingEdits,
    NoTextEdits,
    SnapshotFileTooLarge,
    SnapshotLimit,
    StaleFile,
    StaleDuringStaging,
    WriteFailed,
    NotAbsolute,
    Disconnected,
    NotConnected,
    Stopped,
    NoServer,
    UnreadableUrl,
    InvalidUri,
    MissingParent,
    MissingFilename,
    OutsideWorkspace,
    InvalidPath,
    MissingDocumentServer,
    CompanionActive,
    CompanionNotConnected,
    MissingUri,
    MissingText,
    UnknownSyncEvent,
    StaleSnapshot,
    NotOpen,
    DuplicateAlias,
    StaleTarget,
    StaleVersion,
    EditTooLarge,
    NotSynchronized,
    NoTypeScriptProject,
    SilentTypeScript,
    CargoCheckFailed,
    CheckCancelled,
    UnknownAction,
    ActionElsewhere,
    ActionExpired,
    ActionDisabled,
    CommandAction,
    ActionWithoutEdit,
    RangeBackwards,
    ActionCacheFull,
    MissingSymbol,
    InexactSymbol,
    NoRename,
    InvalidPrepareRange,
    PreviewCacheFull,
    UnknownPlan,
    PlanElsewhere,
    PlanExpired,
    InvalidWorkspacePath,
    NotUtf16,
    AnalyzerExited,
    RequestTimedOut,
    ServerError,
    NoRoot,
    InvalidRootUri,
    MissingChanges,
}

impl Fault {
    /// The fault in words, up to the detail that it may name.
    pub open spec fn wording(self) -> Seq<char> {
        match self {
            Fault::HeaderNotText => "stream did not contain valid UTF-8"@,
            Fault::InvalidLength => ""@,
            Fault::MissingLength => "Missing Content-Length"@,
            Fault::MessageTooLarge => "LSP message exceeds 32 MiB"@,
            Fault::MessageCutShort => "early eof"@,
            Fault::InvalidJson => ""@,
            Fault::MissingLine => "Missing line"@,
            Fault::MissingCharacter => "Missing character"@,
            Fault::LineOutOfRange => "Line out of range"@,
            Fault::CharacterOutOfRange => "Character out of range"@,
            Fault::SplitsSurrogatePair => "Position splits a UTF-16 surrogate pair"@,
            Fault::MissingNewText => "Missing newText"@,
            Fault::OverlappingEdits => "Invalid or overlapping edits"@,
            Fault::UnsupportedSource => "Unsupported source file: "@,
            Fault::NoMarker => "Workspace must contain Cargo.toml, tsconfig.json, jsconfig.json or package.json"@,
            Fault::AnalyzerSettingsShape => "analyzer_settings must be an object"@,
            Fault::NoTypeScript => "TypeScript not found. Install the project's TypeScript dependencies first"@,
            Fault::UnknownVersion => "Cannot determine TypeScript version at "@,
            Fault::NativeNeedsSeven => "Native LSP requires workspace TypeScript 7; select vtsls or typescript-language-server for TypeScript "@,
            Fault::AnalyzerNotSeven => "Configured typescript_analyzer must be native TypeScript 7"@,
            Fault::WrapperVersion => "The selected wrapper requires TypeScript 4–6, got "@,
            Fault::NoTsserver => "Workspace TypeScript tsserver.js not found. Install the project's dependencies; the wrapper must use the project SDK"@,
            Fault::LanguageServerSettingsShape => "typescript_language_server_settings and its tsserver entry must be objects"@,
            Fault::VtslsSettingsShape => "vtsls_settings must be an object"@,
            Fault::VtslsEntryShape => "vtsls_settings."@,
            Fault::CargoFailed => "Cannot infer Cargo workspace: "@,
            Fault::InvalidManifest => "Invalid Cargo manifest"@,
            Fault::CannotInfer => "Cannot infer workspace. Pass --workspace /path/to/project"@,
            Fault::InvalidChanges => "Invalid changes map"@,
            Fault::InvalidEdits => "Invalid edits"@,
            Fault::InvalidDocumentChanges => "Invalid documentChanges"@,
            Fault::ResourceOperation => "File create/rename/delete operations are unsupported; no edits applied"@,
            Fault::MissingDocumentUri => "Missing document URI"@,
            Fault::DuplicateGroup => "Duplicate document edit group; no edits applied"@,
            Fault::InvalidVersion => "Invalid document version"@,
            Fault::MissingEdits => "Missing edits"@,
            Fault::NoTextEdits => "Language server returned no text edits"@,
            Fault::SnapshotFileTooLarge => "Refactor snapshot file too large: "@,
            Fault::SnapshotLimit => "Refactor snapshot exceeds workspace limit; choose a smaller workspace root"@,
            Fault::StaleFile => "Stale refactor: "@,
            Fault::StaleDuringStaging => "Stale refactor: "@,
            Fault::WriteFailed => "Refactor write failed at "@,
            Fault::NotAbsolute => "Workspace must be an absolute directory path"@,
            Fault::Disconnected => "Workspace disconnected; reconnect explicitly with bridge workspace-connect --workspace "@,
            Fault::NotConnected => "Connect the workspace before changing its backend"@,
            Fault::Stopped => "Workspace disconnected; reconnect explicitly with bridge workspace-connect"@,
            Fault::NoServer => "Language server not started"@,
            Fault::UnreadableUrl => ""@,
            Fault::InvalidUri => "Invalid file URI"@,
            Fault::MissingParent => "Missing parent"@,
            Fault::MissingFilename => "Missing filename"@,
            Fault::OutsideWorkspace => "Path outside workspace"@,
            Fault::InvalidPath => "Invalid file path"@,
            Fault::MissingDocumentServer => "Missing document server"@,
            Fault::CompanionActive => "A Zed companion is already active for this workspace"@,
            Fault::CompanionNotConnected => "Companion is not connected"@,
            Fault::MissingUri => "Missing uri"@,
            Fault::MissingText => "Missing text"@,
            Fault::UnknownSyncEvent => "Unknown sync event"@,
            Fault::StaleSnapshot => "Stale refactor: workspace files or editor buffers changed. Request a new rename/preview; no edits applied"@,
            Fault::NotOpen => "Document is not open"@,
            Fault::DuplicateAlias => "Duplicate file aliases in refactor; no edits applied"@,
            Fault::StaleTarget => "Stale or unsupported refactor target: "@,
            Fault::StaleVersion => "Stale LSP document version; no edits applied"@,
            Fault::EditTooLarge => "Refactor exceeds 16 MiB edit limit; no edits applied"@,
            Fault::NotSynchronized => "Edits applied but analyzer synchronization failed: "@,
            Fault::NoTypeScriptProject => "Saved-file TypeScript check requires tsconfig.json or jsconfig.json at the workspace root; live file diagnostics remain available"@,
            Fault::SilentTypeScript => "TypeScript check exited without diagnostics: "@,
            Fault::CargoCheckFailed => "cargo check failed: "@,
            Fault::CheckCancelled => "Workspace disconnected; check cancelled"@,
            Fault::UnknownAction => "Unknown action_id; call code_actions first"@,
            Fault::ActionElsewhere => "Action belongs to another workspace"@,
            Fault::ActionExpired => "Code action expired; request it again"@,
            Fault::ActionDisabled => "Code action is disabled: "@,
            Fault::CommandAction => "Command-based code actions are not supported; no edits applied"@,
            Fault::ActionWithoutEdit => "Action has no text edit"@,
            Fault::RangeBackwards => "Range end precedes start"@,
            Fault::ActionCacheFull => "Code action cache full; retry after cached actions expire"@,
            Fault::MissingSymbol => "Missing symbol"@,
            Fault::InexactSymbol => "Server did not provide an exact symbol selection; use explicit line and character"@,
            Fault::NoRename => "No rename available at this position"@,
            Fault::InvalidPrepareRange => "Invalid prepareRename range"@,
            Fault::PreviewCacheFull => "Preview cache full (8 plans); apply an existing plan or wait for expiry"@,
            Fault::UnknownPlan => "Unknown plan_id; request a new preview"@,
            Fault::PlanElsewhere => "Plan belongs to another workspace"@,
            Fault::PlanExpired => "Preview expired; request a new preview"@,
            Fault::InvalidWorkspacePath => "Invalid workspace path"@,
            Fault::NotUtf16 => "Language server did not negotiate UTF-16 positions"@,
            Fault::AnalyzerExited => "Analyzer exited"@,
            Fault::RequestTimedOut => "LSP request timed out: "@,
            Fault::ServerError => "LSP: "@,
            Fault::NoRoot => "Zed did not provide a workspace root"@,
            Fault::InvalidRootUri => "Invalid root URI"@,
            Fault::MissingChanges => "Missing changes"@,
        }
    }

    /// What follows the detail that the fault may name.
    pub open spec fn closing(self) -> Seq<char> {
        match self {
            Fault::WrapperVersion => ". Use auto or native for TypeScript 7"@,
            Fault::VtslsEntryShape => " must be an object"@,
            Fault::StaleFile => " changed; no edits applied"@,
            Fault::StaleDuringStaging => " changed during staging; no edits applied"@,
            Fault::WriteFailed => ". Inspect disk before retrying"@,
            Fault::StaleTarget => "; no edits applied"@,
            Fault::NotSynchronized => ". Inspect disk; do not blindly retry"@,
            _ => ""@,
        }
    }

    /// The fault in words, up to the detail that it may name.
    pub fn message(self) -> (text: &'static str)
        ensures
            text@ == self.wording(),
    {
        match self {
            Fault::HeaderNotText => "stream did not contain valid UTF-8",
            Fault::InvalidLength => "",
            Fault::MissingLength => "Missing Content-Length",
            Fault::MessageTooLarge => "LSP message exceeds 32 MiB",
            Fault::MessageCutShort => "early eof",
            Fault::InvalidJson => "",
            Fault::MissingLine => "Missing line",
            Fault::MissingCharacter => "Missing character",
            Fault::LineOutOfRange => "Line out of range",
            Fault::CharacterOutOfRange => "Character out of range",
            Fault::SplitsSurrogatePair => "Position splits a UTF-16 surrogate pair",
            Fault::MissingNewText => "Missing newText",
            Fault::OverlappingEdits => "Invalid or overlapping edits",
            Fault::UnsupportedSource => "Unsupported source file: ",
            Fault::NoMarker => "Workspace must contain Cargo.toml, tsconfig.json, jsconfig.json or package.json",
            Fault::AnalyzerSettingsShape => "analyzer_settings must be an object",
            Fault::NoTypeScript => "TypeScript not found. Install the project's TypeScript dependencies first",
            Fault::UnknownVersion => "Cannot determine TypeScript version at ",
            Fault::NativeNeedsSeven => "Native LSP requires workspace TypeScript 7; select vtsls or typescript-language-server for TypeScript ",
            Fault::AnalyzerNotSeven => "Configured typescript_analyzer must be native TypeScript 7",
            Fault::WrapperVersion => "The selected wrapper requires TypeScript 4–6, got ",
            Fault::NoTsserver => "Workspace TypeScript tsserver.js not found. Install the project's dependencies; the wrapper must use the project SDK",
            Fault::LanguageServerSettingsShape => "typescript_language_server_settings and its tsserver entry must be objects",
            Fault::VtslsSettingsShape => "vtsls_settings must be an object",
            Fault::VtslsEntryShape => "vtsls_settings.",
            Fault::CargoFailed => "Cannot infer Cargo workspace: ",
            Fault::InvalidManifest => "Invalid Cargo manifest",
            Fault::CannotInfer => "Cannot infer workspace. Pass --workspace /path/to/project",
            Fault::InvalidChanges => "Invalid changes map",
            Fault::InvalidEdits => "Invalid edits",
            Fault::InvalidDocumentChanges => "Invalid documentChanges",
            Fault::ResourceOperation => "File create/rename/delete operations are unsupported; no edits applied",
            Fault::MissingDocumentUri => "Missing document URI",
            Fault::DuplicateGroup => "Duplicate document edit group; no edits applied",
            Fault::InvalidVersion => "Invalid document version",
            Fault::MissingEdits => "Missing edits",
            Fault::NoTextEdits => "Language server returned no text edits",
            Fault::SnapshotFileTooLarge => "Refactor snapshot file too large: ",
            Fault::SnapshotLimit => "Refactor snapshot exceeds workspace limit; choose a smaller workspace root",
            Fault::StaleFile => "Stale refactor: ",
            Fault::StaleDuringStaging => "Stale refactor: ",
            Fault::WriteFailed => "Refactor write failed at ",
            Fault::NotAbsolute => "Workspace must be an absolute directory path",
            Fault::Disconnected => "Workspace disconnected; reconnect explicitly with bridge workspace-connect --workspace ",
            Fault::NotConnected => "Connect the workspace before changing its backend",
            Fault::Stopped => "Workspace disconnected; reconnect explicitly with bridge workspace-connect",
            Fault::NoServer => "Language server not started",
            Fault::UnreadableUrl => "",
            Fault::InvalidUri => "Invalid file URI",
            Fault::MissingParent => "Missing parent",
            Fault::MissingFilename => "Missing filename",
            Fault::OutsideWorkspace => "Path outside workspace",
            Fault::InvalidPath => "Invalid file path",
            Fault::MissingDocumentServer => "Missing document server",
            Fault::CompanionActive => "A Zed companion is already active for this workspace",
            Fault::CompanionNotConnected => "Companion is not connected",
            Fault::MissingUri => "Missing uri",
            Fault::MissingText => "Missing text",
            Fault::UnknownSyncEvent => "Unknown sync event",
            Fault::StaleSnapshot => "Stale refactor: workspace files or editor buffers changed. Request a new rename/preview; no edits applied",
            Fault::NotOpen => "Document is not open",
            Fault::DuplicateAlias => "Duplicate file aliases in refactor; no edits applied",
            Fault::StaleTarget => "Stale or unsupported refactor target: ",
            Fault::StaleVersion => "Stale LSP document version; no edits applied",
            Fault::EditTooLarge => "Refactor exceeds 16 MiB edit limit; no edits applied",
            Fault::NotSynchronized => "Edits applied but analyzer synchronization failed: ",
            Fault::NoTypeScriptProject => "Saved-file TypeScript check requires tsconfig.json or jsconfig.json at the workspace root; live file diagnostics remain available",
            Fault::SilentTypeScript => "TypeScript check exited without diagnostics: ",
            Fault::CargoCheckFailed => "cargo check failed: ",
            Fault::CheckCancelled => "Workspace disconnected; check cancelled",
            Fault::UnknownAction => "Unknown action_id; call code_actions first",
            Fault::ActionElsewhere => "Action belongs to another workspace",
            Fault::ActionExpired => "Code action expired; request it again",
            Fault::ActionDisabled => "Code action is disabled: ",
            Fault::CommandAction => "Command-based code actions are not supported; no edits applied",
            Fault::ActionWithoutEdit => "Action has no text edit",
            Fault::RangeBackwards => "Range end precedes start",
            Fault::ActionCacheFull => "Code action cache full; retry after cached actions expire",
            Fault::MissingSymbol => "Missing symbol",
            Fault::InexactSymbol => "Server did not provide an exact symbol selection; use explicit line and character",
            Fault::NoRename => "No rename available at this position",
            Fault::InvalidPrepareRange => "Invalid prepareRename range",
            Fault::PreviewCacheFull => "Preview cache full (8 plans); apply an existing plan or wait for expiry",
            Fault::UnknownPlan => "Unknown plan_id; request a new preview",
            Fault::PlanElsewhere => "Plan belongs to another workspace",
            Fault::PlanExpired => "Preview expired; request a new preview",
            Fault::InvalidWorkspacePath => "Invalid workspace path",
            Fault::NotUtf16 => "Language server did not negotiate UTF-16 positions",
            Fault::AnalyzerExited => "Analyzer exited",
            Fault::RequestTimedOut => "LSP request timed out: ",
            Fault::ServerError => "LSP: ",
            Fault::NoRoot => "Zed did not provide a workspace root",
            Fault::InvalidRootUri => "Invalid root URI",
            Fault::MissingChanges => "Missing changes",
        }
    }

    /// What follows the detail that the fault may name.
    pub fn ending(self) -> (text: &'static str)
        ensures
            text@ == self.closing(),
    {
        match self {
            Fault::WrapperVersion => ". Use auto or native for TypeScript 7",
            Fault::VtslsEntryShape => " must be an object",
            Fault::StaleFile => " changed; no edits applied",
            Fault::StaleDuringStaging => " changed during staging; no edits applied",
            Fault::WriteFailed => ". Inspect disk before retrying",
            Fault::StaleTarget => "; no edits applied",
            Fault::NotSynchronized => ". Inspect disk; do not blindly retry",
            _ => "",
        }
    }
}

/// What a failure is: its fault and the detail that it names.
pub struct FailureView {
    pub fault: Fault,
    pub detail: Seq<char>,
}

impl FailureView {
    /// A failure that names no detail.
    pub open spec fn plain(fault: Fault) -> FailureView {
        FailureView { fault, detail: Seq::empty() }
    }

    /// A failure that names a path.
    pub open spec fn at(fault: Fault, path: Seq<char>) -> FailureView {
        FailureView { fault, detail: escape::shown(path) }
    }

    /// The failure in words.
    pub open spec fn words(self) -> Seq<char> {
        self.fault.wording() + self.detail + self.fault.closing()
    }
}

/// A fault with the detail that it names: a path, a version, an error of
/// another program.
#[derive(Debug, PartialEq)]
pub struct Failure {
    pub fault: Fault,
    pub detail: String,
}

impl View for Failure {
    type V = FailureView;

    open spec fn view(&self) -> FailureView {
        FailureView { fault: self.fault, detail: self.detail@ }
    }
}

impl Failure {
    /// A failure that names no detail.
    pub fn plain(fault: Fault) -> (r: Failure)
        ensures
            r@ == FailureView::plain(fault),
    {
        let detail = String::new();
        proof {
            assert(detail@ =~= Seq::<char>::empty());
        }
        Failure { fault, detail }
    }

    /// A failure that names a detail.
    pub fn of(fault: Fault, detail: &str) -> (r: Failure)
        ensures
            r@ == (FailureView { fault, detail: detail@ }),
    {
        Failure { fault, detail: detail.to_owned() }
    }

    /// A failure that names a path.
    pub fn at(fault: Fault, path: &str) -> (r: Failure)
        ensures
            r@ == FailureView::at(fault, path@),
    {
        Failure { fault, detail: escape::show(path) }
    }

    /// The failure in words.
    pub fn message(&self) -> (r: String)
        ensures
            r@ == self@.words(),
    {
        let start = text::joined(self.fault.message(), self.detail.as_str());
        text::joined(start.as_str(), self.fault.ending())
    }
}

} // verus!
