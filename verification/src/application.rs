//! The operations that the bridge offers, whichever way a request comes in.

use crate::json::{views, Json, JsonView};
use crate::language::TypeScriptBackend;
use crate::symbols;
use crate::text;
use vstd::prelude::*;

verus! {

// ---------------------------------------------------------------------------
// Inputs
// ---------------------------------------------------------------------------
/// A place in a document: a line and a column of UTF-16 units, both from zero.
#[derive(Clone, Copy, Debug, PartialEq, Eq, Structural)]
pub struct Position {
    pub line: u32,
    pub character: u32,
}

#[derive(Debug, PartialEq)]
pub struct BackendInput {
    pub workspace: String,
    pub backend: TypeScriptBackend,
    pub verbose: Option<bool>,
}

#[derive(Debug, PartialEq)]
pub struct ConnectionInput {
    pub workspace: String,
    pub verbose: Option<bool>,
}

#[derive(Debug, PartialEq)]
pub struct StatusInput {
    pub workspace: Option<String>,
    pub verbose: Option<bool>,
}

#[derive(Debug, PartialEq)]
pub struct WorkspaceInput {
    pub workspace: String,
    pub query: String,
    pub verbose: Option<bool>,
}

#[derive(Debug, PartialEq)]
pub struct DocumentInput {
    pub workspace: String,
    pub path: String,
    pub verbose: Option<bool>,
}

#[derive(Debug, PartialEq)]
pub struct PositionInput {
    pub workspace: String,
    pub path: String,
    pub line: Option<u32>,
    pub character: Option<u32>,
    pub symbol: Option<String>,
}

#[derive(Debug, PartialEq)]
pub struct DiagnosticsInput {
    pub workspace: String,
    pub check: Option<bool>,
    pub path: Option<String>,
    pub verbose: Option<bool>,
}

#[derive(Debug, PartialEq)]
pub struct RenameInput {
    pub workspace: String,
    pub path: String,
    pub line: Option<u32>,
    pub character: Option<u32>,
    pub symbol: Option<String>,
    pub new_name: String,
    pub apply: Option<bool>,
    pub preview: Option<bool>,
    pub verbose: Option<bool>,
}

#[derive(Debug, PartialEq)]
pub struct PlanInput {
    pub workspace: String,
    pub plan_id: String,
    pub verbose: Option<bool>,
}

#[derive(Debug, PartialEq)]
pub struct ActionsInput {
    pub workspace: String,
    pub path: String,
    pub line: u32,
    pub character: u32,
    pub end: Option<Position>,
}

#[derive(Debug, PartialEq)]
pub struct ApplyInput {
    pub workspace: String,
    pub action_id: String,
    pub verbose: Option<bool>,
}

/// A request for one of the operations.
#[derive(Debug, PartialEq)]
pub enum Request {
    Backend(BackendInput),
    Connect(ConnectionInput),
    Disconnect(ConnectionInput),
    Status(StatusInput),
    WorkspaceSymbols(WorkspaceInput),
    DocumentSymbols(DocumentInput),
    Definition(PositionInput),
    References(PositionInput),
    Hover(PositionInput),
    Diagnostics(DiagnosticsInput),
    Rename(RenameInput),
    ApplyRename(PlanInput),
    CodeActions(ActionsInput),
    ApplyCodeAction(ApplyInput),
}

// ---------------------------------------------------------------------------
// Errors and responses
// ---------------------------------------------------------------------------
/// What kind of error a request met.
#[derive(Clone, Copy, Debug, PartialEq, Eq, Structural)]
pub enum ErrorCode {
    InvalidInput,
    OperationFailed,
    Unavailable,
    PermissionDenied,
    ConnectionRefused,
    TimedOut,
}

impl ErrorCode {
    /// The code's name.
    pub open spec fn named(self) -> Seq<char> {
        match self {
            ErrorCode::InvalidInput => "INVALID_INPUT"@,
            ErrorCode::OperationFailed => "OPERATION_FAILED"@,
            ErrorCode::Unavailable => "UNAVAILABLE"@,
            ErrorCode::PermissionDenied => "PERMISSION_DENIED"@,
            ErrorCode::ConnectionRefused => "CONNECTION_REFUSED"@,
            ErrorCode::TimedOut => "TIMED_OUT"@,
        }
    }

    /// The code's name.
    pub fn name(self) -> (r: &'static str)
        ensures
            r@ == self.named(),
    {
        match self {
            ErrorCode::InvalidInput => "INVALID_INPUT",
            ErrorCode::OperationFailed => "OPERATION_FAILED",
            ErrorCode::Unavailable => "UNAVAILABLE",
            ErrorCode::PermissionDenied => "PERMISSION_DENIED",
            ErrorCode::ConnectionRefused => "CONNECTION_REFUSED",
            ErrorCode::TimedOut => "TIMED_OUT",
        }
    }
}

/// An error as it is told to the one who asked.
#[derive(Debug, PartialEq)]
pub struct ApiError {
    pub code: ErrorCode,
    pub message: String,
}

impl ApiError {
    /// An error of the given kind.
    pub fn of(code: ErrorCode, message: &str) -> (r: ApiError)
        ensures
            r.code == code,
            r.message@ == message@,
    {
        ApiError { code, message: message.to_owned() }
    }

    /// The input is not valid.
    pub fn invalid(message: &str) -> (r: ApiError)
        ensures
            r.code == ErrorCode::InvalidInput,
            r.message@ == message@,
    {
        ApiError::of(ErrorCode::InvalidInput, message)
    }

    /// The bridge cannot be used.
    pub fn unavailable(message: &str) -> (r: ApiError)
        ensures
            r.code == ErrorCode::Unavailable,
            r.message@ == message@,
    {
        ApiError::of(ErrorCode::Unavailable, message)
    }

    /// An operation that was begun failed.
    pub fn failed(message: &str) -> (r: ApiError)
        ensures
            r.code == ErrorCode::OperationFailed,
            r.message@ == message@,
    {
        ApiError::of(ErrorCode::OperationFailed, message)
    }

    /// The error in words.
    pub fn to_text(&self) -> (r: String)
        ensures
            r@ == self.message@,
    {
        self.message.as_str().to_owned()
    }

    /// The error as JSON.
    pub fn to_json(&self) -> (r: Json)
        ensures
            r@ == error_json(self.code, self.message@),
    {
        Json::object().with("code", Json::text(self.code.name())).with(
            "message",
            Json::text(self.message.as_str()),
        )
    }
}

/// An error as JSON.
pub open spec fn error_json(code: ErrorCode, message: Seq<char>) -> JsonView {
    JsonView::object().with("code"@, JsonView::Text(code.named())).with(
        "message"@,
        JsonView::Text(message),
    )
}

/// What a request is answered.
#[derive(Debug, PartialEq)]
pub enum ApiResponse {
    Success { data: Json },
    Failure { error: ApiError },
}

/// A response as JSON.
pub open spec fn response_json(response: ApiResponse) -> JsonView {
    match response {
        ApiResponse::Success { data } => JsonView::object().with("data"@, data@),
        ApiResponse::Failure { error } => JsonView::object().with(
            "error"@,
            error_json(error.code, error.message@),
        ),
    }
}

impl ApiResponse {
    /// The response as JSON.
    pub fn to_json(&self) -> (r: Json)
        ensures
            r@ == response_json(*self),
    {
        match self {
            ApiResponse::Success { data } => Json::object().with("data", data.copy()),
            ApiResponse::Failure { error } => Json::object().with("error", error.to_json()),
        }
    }
}

// ---------------------------------------------------------------------------
// Validity
// ---------------------------------------------------------------------------
/// Whether a place is chosen in one way: by a symbol's name, or by a line and a
/// column.
pub open spec fn is_selection(
    line: Option<u32>,
    character: Option<u32>,
    symbol: Option<Seq<char>>,
) -> bool {
    ||| line is Some && character is Some && symbol is None
    ||| line is None && character is None && (symbol matches Some(name) && text::trimmed(name).len()
        > 0)
}

/// What is said to one who chooses a place otherwise.
pub open spec fn selection_hint() -> Seq<char> {
    "Supply either symbol or both line and character (zero-based UTF-16), not both"@
}

/// What is wrong with a request, if anything is.
pub open spec fn invalidity(request: Request) -> Option<Seq<char>> {
    match request {
        Request::Rename(input) => if !is_selection(
            input.line,
            input.character,
            text::option_view(input.symbol),
        ) {
            Some(selection_hint())
        } else if text::trimmed(input.new_name@).len() == 0 {
            Some("new_name must not be empty"@)
        } else if input.preview == Some(true) && input.apply == Some(true) {
            Some("preview and apply cannot both be true"@)
        } else {
            None
        },
        Request::Definition(input) | Request::References(input) | Request::Hover(input) =>
        if !is_selection(input.line, input.character, text::option_view(input.symbol)) {
            Some(selection_hint())
        } else {
            None
        },
        _ => None,
    }
}

/// Whether a place is chosen in one way.
pub fn validate_selection(line: Option<u32>, character: Option<u32>, symbol: &Option<String>) -> (r:
    Result<(), ApiError>)
    ensures
        match r {
            Ok(()) => is_selection(line, character, text::option_view(*symbol)),
            Err(error) => !is_selection(line, character, text::option_view(*symbol)) && error.code
                == ErrorCode::InvalidInput && error.message@ == selection_hint(),
        },
{
    let place: bool = line.is_some() && character.is_some() && symbol.is_none();
    let named: bool = line.is_none() && character.is_none() && match symbol {
        Some(name) => !text::is_all_blank(name.as_str()),
        None => false,
    };
    if place || named {
        Ok(())
    } else {
        Err(
            ApiError::invalid(
                "Supply either symbol or both line and character (zero-based UTF-16), not both",
            ),
        )
    }
}

impl Request {
    /// Whether the request makes sense, before anything is done for it.
    pub fn validate(&self) -> (r: Result<(), ApiError>)
        ensures
            match r {
                Ok(()) => invalidity(*self) is None,
                Err(error) => invalidity(*self) == Some(error.message@) && error.code
                    == ErrorCode::InvalidInput,
            },
    {
        match self {
            Request::Rename(input) => {
                match validate_selection(input.line, input.character, &input.symbol) {
                    Ok(()) => {},
                    Err(error) => {
                        return Err(error);
                    },
                }
                if text::is_all_blank(input.new_name.as_str()) {
                    return Err(ApiError::invalid("new_name must not be empty"));
                }
                let preview: bool = match input.preview {
                    Some(b) => b,
                    None => false,
                };
                let apply: bool = match input.apply {
                    Some(b) => b,
                    None => false,
                };
                if preview && apply {
                    return Err(ApiError::invalid("preview and apply cannot both be true"));
                }
                Ok(())
            },
            Request::Definition(input) => validate_selection(
                input.line,
                input.character,
                &input.symbol,
            ),
            Request::References(input) => validate_selection(
                input.line,
                input.character,
                &input.symbol,
            ),
            Request::Hover(input) => validate_selection(
                input.line,
                input.character,
                &input.symbol,
            ),
            _ => Ok(()),
        }
    }
}

// ---------------------------------------------------------------------------
// Operations
// ---------------------------------------------------------------------------
/// An operation: its name, what it does, and the names of its arguments.
#[derive(Debug)]
pub struct OperationInfo {
    pub name: &'static str,
    pub description: &'static str,
    /// In the order of the alphabet.
    pub fields: Vec<&'static str>,
}

/// An operation, in the terms of contracts.
pub struct OperationView {
    pub name: Seq<char>,
    pub description: Seq<char>,
    pub fields: Seq<Seq<char>>,
}

impl View for OperationInfo {
    type V = OperationView;

    open spec fn view(&self) -> OperationView {
        OperationView {
            name: self.name@,
            description: self.description@,
            fields: self.fields@.map_values(|field: &'static str| field@),
        }
    }
}

/// All operations.
pub open spec fn operation_list() -> Seq<OperationView> {
    seq![
        OperationView {
            name: "workspace_backend"@,
            description:
                "Select TypeScript backend and restart a connected workspace, preserving editor buffers. Session-only; use config for a persistent default."@,
            fields: seq!["backend"@, "verbose"@, "workspace"@],
        },
        OperationView {
            name: "workspace_connect"@,
            description: "Explicitly connect or resume a workspace analyzer."@,
            fields: seq!["verbose"@, "workspace"@],
        },
        OperationView {
            name: "workspace_disconnect"@,
            description:
                "Stop a workspace analyzer and checks; block automatic reattachment until explicitly connected."@,
            fields: seq!["verbose"@, "workspace"@],
        },
        OperationView {
            name: "workspace_status"@,
            description:
                "List sessions, or attach a workspace and show analyzer, companion and check state."@,
            fields: seq!["verbose"@, "workspace"@],
        },
        OperationView {
            name: "workspace_symbols"@,
            description: "Find symbols by query in the workspace."@,
            fields: seq!["query"@, "verbose"@, "workspace"@],
        },
        OperationView {
            name: "document_symbols"@,
            description: "List symbols in a supported source file."@,
            fields: seq!["path"@, "verbose"@, "workspace"@],
        },
        OperationView {
            name: "definition"@,
            description: "Find a symbol definition. Positions are zero-based UTF-16."@,
            fields: seq!["character"@, "line"@, "path"@, "symbol"@, "workspace"@],
        },
        OperationView {
            name: "references"@,
            description:
                "Find symbol references including declaration. Positions are zero-based UTF-16."@,
            fields: seq!["character"@, "line"@, "path"@, "symbol"@, "workspace"@],
        },
        OperationView {
            name: "hover"@,
            description: "Get type and documentation. Positions are zero-based UTF-16."@,
            fields: seq!["character"@, "line"@, "path"@, "symbol"@, "workspace"@],
        },
        OperationView {
            name: "diagnostics"@,
            description:
                "Get live diagnostics and saved-file check state. check=true awaits shared saved-file compiler checks. Empty live diagnostics alone never mean clean."@,
            fields: seq!["check"@, "path"@, "verbose"@, "workspace"@],
        },
        OperationView {
            name: "rename"@,
            description:
                "Rename and write edits by default. preview=true returns a guarded plan; apply=false is a legacy preview alias. Select by symbol or zero-based UTF-16 position."@,
            fields: seq![
                "apply"@,
                "character"@,
                "line"@,
                "new_name"@,
                "path"@,
                "preview"@,
                "symbol"@,
                "verbose"@,
                "workspace"@,
            ],
        },
        OperationView {
            name: "apply_rename"@,
            description:
                "Apply exactly an unexpired preview plan, rejecting stale files or editor buffers."@,
            fields: seq!["plan_id"@, "verbose"@, "workspace"@],
        },
        OperationView {
            name: "code_actions"@,
            description:
                "List code actions at a zero-based UTF-16 position/range. Use action_id with apply_code_action."@,
            fields: seq!["character"@, "end"@, "line"@, "path"@, "workspace"@],
        },
        OperationView {
            name: "apply_code_action"@,
            description:
                "Apply a listed text-edit code action. Commands and resource operations are unsupported."@,
            fields: seq!["action_id"@, "verbose"@, "workspace"@],
        },
    ]
}

/// Operations, in the terms of contracts.
pub open spec fn operation_views(operations: Seq<OperationInfo>) -> Seq<OperationView> {
    operations.map_values(|operation: OperationInfo| operation@)
}

fn two(a: &'static str, b: &'static str) -> (r: Vec<&'static str>)
    ensures
        r@ == seq![a, b],
{
    let mut out: Vec<&'static str> = Vec::new();
    out.push(a);
    out.push(b);
    out
}

fn three(a: &'static str, b: &'static str, c: &'static str) -> (r: Vec<&'static str>)
    ensures
        r@ == seq![a, b, c],
{
    let mut out: Vec<&'static str> = two(a, b);
    out.push(c);
    out
}

fn five(
    a: &'static str,
    b: &'static str,
    c: &'static str,
    d: &'static str,
    e: &'static str,
) -> (r: Vec<&'static str>)
    ensures
        r@ == seq![a, b, c, d, e],
{
    let mut out: Vec<&'static str> = three(a, b, c);
    out.push(d);
    out.push(e);
    out
}

fn operation(
    name: &'static str,
    description: &'static str,
    fields: Vec<&'static str>,
) -> (r: OperationInfo)
    ensures
        r@ == (OperationView {
            name: name@,
            description: description@,
            fields: fields@.map_values(|field: &'static str| field@),
        }),
{
    OperationInfo { name, description, fields }
}

/// All operations.
pub fn operations() -> (r: Vec<OperationInfo>)
    ensures
        operation_views(r@) == operation_list(),
{
    let mut out: Vec<OperationInfo> = Vec::new();
    out.push(
        operation(
            "workspace_backend",
            "Select TypeScript backend and restart a connected workspace, preserving editor buffers. Session-only; use config for a persistent default.",
            three("backend", "verbose", "workspace"),
        ),
    );
    out.push(
        operation(
            "workspace_connect",
            "Explicitly connect or resume a workspace analyzer.",
            two("verbose", "workspace"),
        ),
    );
    out.push(
        operation(
            "workspace_disconnect",
            "Stop a workspace analyzer and checks; block automatic reattachment until explicitly connected.",
            two("verbose", "workspace"),
        ),
    );
    out.push(
        operation(
            "workspace_status",
            "List sessions, or attach a workspace and show analyzer, companion and check state.",
            two("verbose", "workspace"),
        ),
    );
    out.push(
        operation(
            "workspace_symbols",
            "Find symbols by query in the workspace.",
            three("query", "verbose", "workspace"),
        ),
    );
    out.push(
        operation(
            "document_symbols",
            "List symbols in a supported source file.",
            three("path", "verbose", "workspace"),
        ),
    );
    out.push(
        operation(
            "definition",
            "Find a symbol definition. Positions are zero-based UTF-16.",
            five("character", "line", "path", "symbol", "workspace"),
        ),
    );
    out.push(
        operation(
            "references",
            "Find symbol references including declaration. Positions are zero-based UTF-16.",
            five("character", "line", "path", "symbol", "workspace"),
        ),
    );
    out.push(
        operation(
            "hover",
            "Get type and documentation. Positions are zero-based UTF-16.",
            five("character", "line", "path", "symbol", "workspace"),
        ),
    );
    let mut checked: Vec<&'static str> = three("check", "path", "verbose");
    checked.push("workspace");
    out.push(
        operation(
            "diagnostics",
            "Get live diagnostics and saved-file check state. check=true awaits shared saved-file compiler checks. Empty live diagnostics alone never mean clean.",
            checked,
        ),
    );
    let mut renamed: Vec<&'static str> = five("apply", "character", "line", "new_name", "path");
    renamed.push("preview");
    renamed.push("symbol");
    renamed.push("verbose");
    renamed.push("workspace");
    out.push(
        operation(
            "rename",
            "Rename and write edits by default. preview=true returns a guarded plan; apply=false is a legacy preview alias. Select by symbol or zero-based UTF-16 position.",
            renamed,
        ),
    );
    out.push(
        operation(
            "apply_rename",
            "Apply exactly an unexpired preview plan, rejecting stale files or editor buffers.",
            three("plan_id", "verbose", "workspace"),
        ),
    );
    out.push(
        operation(
            "code_actions",
            "List code actions at a zero-based UTF-16 position/range. Use action_id with apply_code_action.",
            five("character", "end", "line", "path", "workspace"),
        ),
    );
    out.push(
        operation(
            "apply_code_action",
            "Apply a listed text-edit code action. Commands and resource operations are unsupported.",
            three("action_id", "verbose", "workspace"),
        ),
    );
    proof {
        let list = operation_list();
        assert(out@.len() == list.len());
        assert forall|i: int| 0 <= i < out@.len() implies (#[trigger] out@[i])@ == list[i] by {
            assert(out@[i]@.fields =~= list[i].fields);
        }
        assert(operation_views(out@) =~= list);
    }
    out
}

// ---------------------------------------------------------------------------
// What a request calls for
// ---------------------------------------------------------------------------
/// What a request calls for, with every choice made that the request left open.
pub enum Step {
    Backend { workspace: String, backend: TypeScriptBackend, verbose: bool },
    Connect { workspace: String, verbose: bool },
    Disconnect { workspace: String },
    Status { workspace: String, verbose: bool },
    StatusOfAll { verbose: bool },
    WorkspaceSymbols { workspace: String, query: String, verbose: bool },
    DocumentSymbols { workspace: String, path: String, verbose: bool },
    /// Ask the server about a place by this method.
    Locate { place: Place, method: &'static str, declaration: bool },
    /// Diagnostics of the workspace, or of one file only.
    Diagnostics { workspace: String, check: bool, only: Option<String>, verbose: bool },
    /// Rename; `preview` tells that nothing is to be written yet.
    Rename { place: Place, new_name: String, preview: bool, verbose: bool },
    ApplyRename { workspace: String, plan_id: String, verbose: bool },
    CodeActions { workspace: String, path: String, start: Position, end: Position },
    ApplyCodeAction { workspace: String, action_id: String, verbose: bool },
}

/// A place that a request names.
pub struct Place {
    pub workspace: String,
    pub path: String,
    pub line: Option<u32>,
    pub character: Option<u32>,
    pub symbol: Option<String>,
}

/// A place that a request names, in the terms of contracts.
pub struct PlaceView {
    pub workspace: Seq<char>,
    pub path: Seq<char>,
    pub line: Option<u32>,
    pub character: Option<u32>,
    pub symbol: Option<Seq<char>>,
}

impl View for Place {
    type V = PlaceView;

    open spec fn view(&self) -> PlaceView {
        PlaceView {
            workspace: self.workspace@,
            path: self.path@,
            line: self.line,
            character: self.character,
            symbol: text::option_view(self.symbol),
        }
    }
}

/// What a request calls for, in the terms of contracts.
pub enum StepView {
    Backend { workspace: Seq<char>, backend: TypeScriptBackend, verbose: bool },
    Connect { workspace: Seq<char>, verbose: bool },
    Disconnect { workspace: Seq<char> },
    Status { workspace: Seq<char>, verbose: bool },
    StatusOfAll { verbose: bool },
    WorkspaceSymbols { workspace: Seq<char>, query: Seq<char>, verbose: bool },
    DocumentSymbols { workspace: Seq<char>, path: Seq<char>, verbose: bool },
    Locate { place: PlaceView, method: Seq<char>, declaration: bool },
    Diagnostics { workspace: Seq<char>, check: bool, only: Option<Seq<char>>, verbose: bool },
    Rename { place: PlaceView, new_name: Seq<char>, preview: bool, verbose: bool },
    ApplyRename { workspace: Seq<char>, plan_id: Seq<char>, verbose: bool },
    CodeActions { workspace: Seq<char>, path: Seq<char>, start: Position, end: Position },
    ApplyCodeAction { workspace: Seq<char>, action_id: Seq<char>, verbose: bool },
}

impl View for Step {
    type V = StepView;

    open spec fn view(&self) -> StepView {
        match *self {
            Step::Backend { workspace, backend, verbose } => StepView::Backend {
                workspace: workspace@,
                backend,
                verbose,
            },
            Step::Connect { workspace, verbose } => StepView::Connect {
                workspace: workspace@,
                verbose,
            },
            Step::Disconnect { workspace } => StepView::Disconnect { workspace: workspace@ },
            Step::Status { workspace, verbose } => StepView::Status {
                workspace: workspace@,
                verbose,
            },
            Step::StatusOfAll { verbose } => StepView::StatusOfAll { verbose },
            Step::WorkspaceSymbols { workspace, query, verbose } => StepView::WorkspaceSymbols {
                workspace: workspace@,
                query: query@,
                verbose,
            },
            Step::DocumentSymbols { workspace, path, verbose } => StepView::DocumentSymbols {
                workspace: workspace@,
                path: path@,
                verbose,
            },
            Step::Locate { place, method, declaration } => StepView::Locate {
                place: place@,
                method: method@,
                declaration,
            },
            Step::Diagnostics { workspace, check, only, verbose } => StepView::Diagnostics {
                workspace: workspace@,
                check,
                only: text::option_view(only),
                verbose,
            },
            Step::Rename { place, new_name, preview, verbose } => StepView::Rename {
                place: place@,
                new_name: new_name@,
                preview,
                verbose,
            },
            Step::ApplyRename { workspace, plan_id, verbose } => StepView::ApplyRename {
                workspace: workspace@,
                plan_id: plan_id@,
                verbose,
            },
            Step::CodeActions { workspace, path, start, end } => StepView::CodeActions {
                workspace: workspace@,
                path: path@,
                start,
                end,
            },
            Step::ApplyCodeAction { workspace, action_id, verbose } => StepView::ApplyCodeAction {
                workspace: workspace@,
                action_id: action_id@,
                verbose,
            },
        }
    }
}

/// What an option that was not given stands for.
pub open spec fn given(option: Option<bool>) -> bool {
    option == Some(true)
}

/// The place of a request about a place.
pub open spec fn place_of(input: PositionInput) -> PlaceView {
    PlaceView {
        workspace: input.workspace@,
        path: input.path@,
        line: input.line,
        character: input.character,
        symbol: text::option_view(input.symbol),
    }
}

/// Whether a rename only shows what it would write: if a preview is asked for,
/// or writing is declined.
pub open spec fn is_preview(preview: Option<bool>, apply: Option<bool>) -> bool {
    preview == Some(true) || apply == Some(false)
}

/// What a request calls for.
pub open spec fn dispatched(request: Request) -> StepView {
    match request {
        Request::Backend(input) => StepView::Backend {
            workspace: input.workspace@,
            backend: input.backend,
            verbose: given(input.verbose),
        },
        Request::Connect(input) => StepView::Connect {
            workspace: input.workspace@,
            verbose: given(input.verbose),
        },
        Request::Disconnect(input) => StepView::Disconnect { workspace: input.workspace@ },
        Request::Status(input) => match input.workspace {
            Some(workspace) => StepView::Status {
                workspace: workspace@,
                verbose: given(input.verbose),
            },
            None => StepView::StatusOfAll { verbose: given(input.verbose) },
        },
        Request::WorkspaceSymbols(input) => StepView::WorkspaceSymbols {
            workspace: input.workspace@,
            query: input.query@,
            verbose: given(input.verbose),
        },
        Request::DocumentSymbols(input) => StepView::DocumentSymbols {
            workspace: input.workspace@,
            path: input.path@,
            verbose: given(input.verbose),
        },
        Request::Definition(input) => StepView::Locate {
            place: place_of(input),
            method: "textDocument/definition"@,
            declaration: false,
        },
        Request::References(input) => StepView::Locate {
            place: place_of(input),
            method: "textDocument/references"@,
            declaration: true,
        },
        Request::Hover(input) => StepView::Locate {
            place: place_of(input),
            method: "textDocument/hover"@,
            declaration: false,
        },
        Request::Diagnostics(input) => StepView::Diagnostics {
            workspace: input.workspace@,
            check: given(input.check),
            only: text::option_view(input.path),
            verbose: given(input.verbose),
        },
        Request::Rename(input) => StepView::Rename {
            place: PlaceView {
                workspace: input.workspace@,
                path: input.path@,
                line: input.line,
                character: input.character,
                symbol: text::option_view(input.symbol),
            },
            new_name: input.new_name@,
            preview: is_preview(input.preview, input.apply),
            verbose: given(input.verbose),
        },
        Request::ApplyRename(input) => StepView::ApplyRename {
            workspace: input.workspace@,
            plan_id: input.plan_id@,
            verbose: given(input.verbose),
        },
        Request::CodeActions(input) => {
            let start = Position { line: input.line, character: input.character };
            StepView::CodeActions {
                workspace: input.workspace@,
                path: input.path@,
                start,
                end: match input.end {
                    Some(end) => end,
                    None => start,
                },
            }
        },
        Request::ApplyCodeAction(input) => StepView::ApplyCodeAction {
            workspace: input.workspace@,
            action_id: input.action_id@,
            verbose: given(input.verbose),
        },
    }
}

fn is_given(option: Option<bool>) -> (r: bool)
    ensures
        r == given(option),
{
    match option {
        Some(b) => b,
        None => false,
    }
}

fn locate(input: PositionInput, method: &'static str, declaration: bool) -> (r: Step)
    ensures
        r@ == (StepView::Locate { place: place_of(input), method: method@, declaration }),
{
    Step::Locate {
        place: Place {
            workspace: input.workspace,
            path: input.path,
            line: input.line,
            character: input.character,
            symbol: input.symbol,
        },
        method,
        declaration,
    }
}

impl Request {
    /// What the request calls for.
    pub fn dispatch(self) -> (r: Step)
        ensures
            r@ == dispatched(self),
    {
        match self {
            Request::Backend(input) => Step::Backend {
                workspace: input.workspace,
                backend: input.backend,
                verbose: is_given(input.verbose),
            },
            Request::Connect(input) => Step::Connect {
                workspace: input.workspace,
                verbose: is_given(input.verbose),
            },
            Request::Disconnect(input) => Step::Disconnect { workspace: input.workspace },
            Request::Status(input) => match input.workspace {
                Some(workspace) => Step::Status { workspace, verbose: is_given(input.verbose) },
                None => Step::StatusOfAll { verbose: is_given(input.verbose) },
            },
            Request::WorkspaceSymbols(input) => Step::WorkspaceSymbols {
                workspace: input.workspace,
                query: input.query,
                verbose: is_given(input.verbose),
            },
            Request::DocumentSymbols(input) => Step::DocumentSymbols {
                workspace: input.workspace,
                path: input.path,
                verbose: is_given(input.verbose),
            },
            Request::Definition(input) => locate(input, "textDocument/definition", false),
            Request::References(input) => locate(input, "textDocument/references", true),
            Request::Hover(input) => locate(input, "textDocument/hover", false),
            Request::Diagnostics(input) => Step::Diagnostics {
                workspace: input.workspace,
                check: is_given(input.check),
                only: input.path,
                verbose: is_given(input.verbose),
            },
            Request::Rename(input) => {
                let declined: bool = match input.apply {
                    Some(apply) => !apply,
                    None => false,
                };
                Step::Rename {
                    place: Place {
                        workspace: input.workspace,
                        path: input.path,
                        line: input.line,
                        character: input.character,
                        symbol: input.symbol,
                    },
                    new_name: input.new_name,
                    preview: is_given(input.preview) || declined,
                    verbose: is_given(input.verbose),
                }
            },
            Request::ApplyRename(input) => Step::ApplyRename {
                workspace: input.workspace,
                plan_id: input.plan_id,
                verbose: is_given(input.verbose),
            },
            Request::CodeActions(input) => {
                let start = Position { line: input.line, character: input.character };
                Step::CodeActions {
                    workspace: input.workspace,
                    path: input.path,
                    start,
                    end: match input.end {
                        Some(end) => end,
                        None => start,
                    },
                }
            },
            Request::ApplyCodeAction(input) => Step::ApplyCodeAction {
                workspace: input.workspace,
                action_id: input.action_id,
                verbose: is_given(input.verbose),
            },
        }
    }

    /// What the request calls for, if it makes sense.
    pub fn execute(self) -> (r: Result<Step, ApiError>)
        ensures
            match r {
                Ok(step) => invalidity(self) is None && step@ == dispatched(self),
                Err(error) => invalidity(self) == Some(error.message@) && error.code
                    == ErrorCode::InvalidInput,
            },
    {
        match self.validate() {
            Ok(()) => Ok(self.dispatch()),
            Err(error) => Err(error),
        }
    }
}

/// A rename writes unless a preview is asked for or writing is declined.
pub proof fn law_rename_applies_by_default(input: RenameInput)
    requires
        input.preview != Some(true),
        input.apply != Some(false),
    ensures
        dispatched(Request::Rename(input)) matches StepView::Rename { preview, .. } && !preview,
{
}

// ---------------------------------------------------------------------------
// What answers look like
// ---------------------------------------------------------------------------
/// The symbols of a document as they are shown.
pub open spec fn shown_symbols(result: JsonView, uri: Seq<char>, verbose: bool) -> JsonView {
    if verbose {
        result
    } else {
        JsonView::Array(
            symbols::rows(result.items_or_none(), None, uri).map_values(
                |item: JsonView| symbols::compact_row(item),
            ),
        )
    }
}

/// The symbols of a document as they are shown.
pub fn show_symbols(result: Json, uri: &str, verbose: bool) -> (r: Json)
    ensures
        r@ == shown_symbols(result@, uri@, verbose),
{
    if verbose {
        return result;
    }
    let rows = symbols::flatten(&result, uri);
    proof {
        assert forall|i: int| 0 <= i < rows@.len() implies (#[trigger] rows@[i])@ is Object by {
            assert(views(rows@)[i] == rows@[i]@);
            symbols::law_rows_are_objects(result@.items_or_none(), None, uri@, i);
        }
    }
    symbols::compact(rows)
}

/// A symbol with the path of its file, as it is shown: seen from the
/// workspace, or its URI where that leads to no file of the workspace.
pub open spec fn with_path(row: JsonView, path: Option<Seq<char>>, root: Seq<char>) -> JsonView {
    row.with(
        "path"@,
        match path {
            Some(path) => JsonView::Text(crate::refactor::shown_path(path, root)),
            None => row.field("uri"@),
        },
    )
}

/// The symbols of a workspace as they are shown, with the paths that their URIs
/// lead to.
pub open spec fn shown_found(
    rows: Seq<JsonView>,
    paths: Seq<Option<Seq<char>>>,
    root: Seq<char>,
) -> JsonView {
    JsonView::Array(
        Seq::new(
            rows.len(),
            |i: int| symbols::compact_row(with_path(rows[i], paths[i], root)),
        ),
    )
}

/// Optional texts, in the terms of contracts.
pub open spec fn option_views(texts: Seq<Option<String>>) -> Seq<Option<Seq<char>>> {
    texts.map_values(|t: Option<String>| text::option_view(t))
}

/// The URI of a symbol; empty if it has none.
pub fn symbol_uri(row: &Json) -> (r: &str)
    ensures
        r@ == row@.field("uri"@).text_or_empty(),
{
    row.at("uri").str_or_empty()
}

/// The symbols of a workspace that are shown one by one; none if the servers'
/// own answer is shown.
pub fn found_rows(result: &Json, verbose: bool) -> (r: Option<Vec<Json>>)
    ensures
        match r {
            Some(rows) => !verbose && views(rows@) == symbols::rows(
                result@.items_or_none(),
                None,
                ""@,
            ),
            None => verbose,
        },
{
    if verbose {
        None
    } else {
        Some(symbols::flatten(result, ""))
    }
}

/// The symbols of a workspace as they are shown. `paths` holds the path that
/// each one's URI leads to, if it leads to one of the workspace.
pub fn show_found(rows: Vec<Json>, paths: &Vec<Option<String>>, root: &str) -> (r: Json)
    requires
        rows@.len() == paths@.len(),
        forall|i: int| 0 <= i < rows@.len() ==> (#[trigger] rows@[i])@ is Object,
    ensures
        r@ == shown_found(views(rows@), option_views(paths@), root@),
{
    let mut out: Vec<Json> = Vec::new();
    let mut i: usize = 0;
    while i < rows.len()
        invariant
            rows@.len() == paths@.len(),
            forall|j: int| 0 <= j < rows@.len() ==> (#[trigger] rows@[j])@ is Object,
            i <= rows@.len(),
            out@.len() == i,
            forall|j: int|
                0 <= j < i ==> (#[trigger] out@[j])@ == with_path(
                    rows@[j]@,
                    text::option_view(paths@[j]),
                    root@,
                ) && out@[j]@ is Object,
        decreases rows@.len() - i,
    {
        let row = rows[i].copy();
        let shown = match &paths[i] {
            Some(path) => {
                let relative = crate::refactor::show_path(path.as_str(), root);
                Json::text(relative.as_str())
            },
            None => row.at("uri").copy(),
        };
        out.push(row.with("path", shown));
        i = i + 1;
    }
    proof {
        let wanted = shown_found(views(rows@), option_views(paths@), root@)->Array_0;
        assert(views(out@).map_values(|item: JsonView| symbols::compact_row(item)) =~= wanted);
    }
    symbols::compact(out)
}

/// A server's answer about symbols of the workspace, added to those before it.
pub fn add_symbols(all: &mut Vec<Json>, result: &Json)
    ensures
        views(final(all)@) == views(old(all)@) + result@.items_or_none(),
{
    let ghost before = views(all@);
    match result.as_array() {
        Some(items) => {
            let mut more = crate::json::copy_all(items);
            let ghost added = views(more@);
            all.append(&mut more);
            proof {
                assert(views(all@) =~= before + added);
            }
        },
        None => {
            proof {
                assert(views(all@) =~= before + Seq::<JsonView>::empty());
            }
        },
    }
}

/// The parameters of a search for symbols.
pub fn query_params(query: &str) -> (r: Json)
    ensures
        r@ == JsonView::object().with("query"@, JsonView::Text(query@)),
{
    Json::object().with("query", Json::text(query))
}

/// A rename is taken if its place is given in exactly one way, by line and column or
/// by a name, the new name is not blank, and it is not both to be made and planned.
pub proof fn law_sensible_renames_are_taken(input: RenameInput)
    ensures
        ({
            let placed = input.line is Some && input.character is Some && input.symbol is None;
            let named = input.line is None && input.character is None && (input.symbol matches Some(
                name,
            ) && exists|i: int| 0 <= i < name@.len() && !text::is_blank(#[trigger] name@[i]));
            let nameable = exists|i: int|
                0 <= i < input.new_name@.len() && !text::is_blank(#[trigger] input.new_name@[i]);
            invalidity(Request::Rename(input)) is None <==> (placed || named) && nameable && !(
            input.preview == Some(true) && input.apply == Some(true))
        }),
{
    text::law_trimming_takes_blanks_only(input.new_name@);
    match input.symbol {
        Some(name) => {
            text::law_trimming_takes_blanks_only(name@);
        },
        None => {},
    }
}

/// A place is asked about if it is given in exactly one way; other requests are
/// always taken.
pub proof fn law_sensible_requests_are_taken(request: Request, input: PositionInput)
    ensures
        ({
            let placed = input.line is Some && input.character is Some && input.symbol is None;
            let named = input.line is None && input.character is None && (input.symbol matches Some(
                name,
            ) && exists|i: int| 0 <= i < name@.len() && !text::is_blank(#[trigger] name@[i]));
            &&& invalidity(Request::Definition(input)) is None <==> placed || named
            &&& invalidity(Request::References(input)) is None <==> placed || named
            &&& invalidity(Request::Hover(input)) is None <==> placed || named
        }),
        !(request is Rename) && !(request is Definition) && !(request is References) && !(
        request is Hover) ==> invalidity(request) is None,
{
    match input.symbol {
        Some(name) => {
            text::law_trimming_takes_blanks_only(name@);
        },
        None => {},
    }
}

/// A request leads to what it asks for: a definition, references with the
/// declaration or what is said of a symbol, at the place that it gives.
pub proof fn law_places_are_asked_about(input: PositionInput)
    ensures
        ({
            let place = PlaceView {
                workspace: input.workspace@,
                path: input.path@,
                line: input.line,
                character: input.character,
                symbol: match input.symbol {
                    Some(name) => Some(name@),
                    None => None,
                },
            };
            &&& dispatched(Request::Definition(input)) == (StepView::Locate {
                place,
                method: "textDocument/definition"@,
                declaration: false,
            })
            &&& dispatched(Request::References(input)) == (StepView::Locate {
                place,
                method: "textDocument/references"@,
                declaration: true,
            })
            &&& dispatched(Request::Hover(input)) == (StepView::Locate {
                place,
                method: "textDocument/hover"@,
                declaration: false,
            })
        }),
{
}

/// A rename leads to a rename of the place that it gives, to the name that it gives,
/// and is only planned if that is asked for in either way.
pub proof fn law_renames_are_carried_out(input: RenameInput, plan: PlanInput)
    ensures
        dispatched(Request::Rename(input)) matches StepView::Rename {
            place,
            new_name,
            preview,
            verbose,
        } && place.workspace == input.workspace@ && place.path == input.path@ && place.line
            == input.line && place.character == input.character && place.symbol == (
        match input.symbol {
            Some(name) => Some(name@),
            None => None,
        }) && new_name == input.new_name@ && preview == (input.preview == Some(true) || input.apply
            == Some(false)) && verbose == (input.verbose == Some(true)),
        dispatched(Request::ApplyRename(plan)) matches StepView::ApplyRename {
            workspace,
            plan_id,
            verbose,
        } && workspace == plan.workspace@ && plan_id == plan.plan_id@ && verbose == (plan.verbose
            == Some(true)),
{
}

/// Code actions are asked for in the range that is given, which is one place where no
/// end is given; and an action is applied by its identifier.
pub proof fn law_actions_are_asked_for_and_applied(input: ActionsInput, action: ApplyInput)
    ensures
        dispatched(Request::CodeActions(input)) matches StepView::CodeActions {
            workspace,
            path,
            start,
            end,
        } && workspace == input.workspace@ && path == input.path@ && start.line == input.line
            && start.character == input.character && end == (match input.end {
            Some(end) => end,
            None => start,
        }),
        dispatched(Request::ApplyCodeAction(action)) matches StepView::ApplyCodeAction {
            workspace,
            action_id,
            verbose,
        } && workspace == action.workspace@ && action_id == action.action_id@ && verbose == (
        action.verbose == Some(true)),
{
}

/// Diagnostics are told of the file that is named, or of all, with a check if that is
/// asked for; symbols of the file or for the query that is given.
pub proof fn law_findings_and_symbols_are_asked_for(
    input: DiagnosticsInput,
    file: DocumentInput,
    query: WorkspaceInput,
)
    ensures
        dispatched(Request::Diagnostics(input)) matches StepView::Diagnostics {
            workspace,
            check,
            only,
            verbose,
        } && workspace == input.workspace@ && check == (input.check == Some(true)) && only == (
        match input.path {
            Some(path) => Some(path@),
            None => None,
        }) && verbose == (input.verbose == Some(true)),
        dispatched(Request::DocumentSymbols(file)) matches StepView::DocumentSymbols {
            workspace,
            path,
            verbose,
        } && workspace == file.workspace@ && path == file.path@ && verbose == (file.verbose == Some(
            true,
        )),
        dispatched(Request::WorkspaceSymbols(query)) matches StepView::WorkspaceSymbols {
            workspace,
            query: words,
            verbose,
        } && workspace == query.workspace@ && words == query.query@ && verbose == (query.verbose
            == Some(true)),
{
}

/// A document's symbols are shown one for one, each with its name, kind, container
/// and place; the server's own answer is shown if that is asked for.
pub proof fn law_symbols_are_shown(result: JsonView, uri: Seq<char>, i: int)
    ensures
        shown_symbols(result, uri, true) == result,
        result matches JsonView::Array(items) && 0 <= i < symbols::rows(items, None, uri).len() ==> {
            let rows = symbols::rows(result->Array_0, None, uri);
            let shown = shown_symbols(result, uri, false);
            &&& shown is Array
            &&& shown->Array_0.len() == rows.len()
            &&& shown->Array_0[i].field("name"@) == rows[i].field("name"@)
            &&& shown->Array_0[i].field("kind"@) == rows[i].field("kind"@)
            &&& shown->Array_0[i].field("container"@) == rows[i].field("container"@)
            &&& shown->Array_0[i].field("line"@) == rows[i].field("line"@)
            &&& shown->Array_0[i].field("character"@) == rows[i].field("character"@)
        },
{
    reveal_strlit("name");
    reveal_strlit("kind");
    reveal_strlit("container");
    reveal_strlit("line");
    reveal_strlit("character");
    reveal_strlit("exactSelection");
    reveal_strlit("range");
    reveal_strlit("uri");
    assert("name"@.len() == 4);
    assert("kind"@.len() == 4);
    assert("container"@.len() == 9);
    assert("line"@.len() == 4);
    assert("character"@.len() == 9);
    assert("exactSelection"@.len() == 14);
    assert("range"@.len() == 5);
    assert("uri"@.len() == 3);
    assert("name"@[0] == 'n');
    assert("kind"@[0] == 'k');
    assert("line"@[0] == 'l');
    assert("container"@[1] == 'o');
    assert("character"@[1] == 'h');
}

/// The symbols of a workspace are shown one for one, each with the path of its file,
/// seen from the root, or its URI where that leads elsewhere.
pub proof fn law_found_symbols_are_shown(
    rows: Seq<JsonView>,
    paths: Seq<Option<Seq<char>>>,
    root: Seq<char>,
    i: int,
)
    requires
        0 <= i < rows.len(),
        rows[i] is Object,
    ensures
        ({
            let shown = shown_found(rows, paths, root);
            let one = shown->Array_0[i];
            &&& shown is Array
            &&& shown->Array_0.len() == rows.len()
            &&& one.field("path"@) == match paths[i] {
                Some(path) => JsonView::Text(crate::refactor::shown_path(path, root)),
                None => rows[i].field("uri"@),
            }
            &&& one.field("name"@) == rows[i].field("name"@)
            &&& one.field("kind"@) == rows[i].field("kind"@)
            &&& one.field("container"@) == rows[i].field("container"@)
            &&& one.field("line"@) == rows[i].field("line"@)
            &&& one.field("character"@) == rows[i].field("character"@)
        }),
{
    reveal_strlit("name");
    reveal_strlit("kind");
    reveal_strlit("container");
    reveal_strlit("line");
    reveal_strlit("character");
    reveal_strlit("exactSelection");
    reveal_strlit("range");
    reveal_strlit("uri");
    reveal_strlit("path");
    assert("name"@.len() == 4);
    assert("kind"@.len() == 4);
    assert("container"@.len() == 9);
    assert("line"@.len() == 4);
    assert("character"@.len() == 9);
    assert("exactSelection"@.len() == 14);
    assert("range"@.len() == 5);
    assert("uri"@.len() == 3);
    assert("path"@.len() == 4);
    assert("name"@[0] == 'n');
    assert("kind"@[0] == 'k');
    assert("line"@[0] == 'l');
    assert("path"@[0] == 'p');
    assert("container"@[1] == 'o');
    assert("character"@[1] == 'h');
}

/// A response holds its data or its error, with the error's code and message.
pub proof fn law_responses_are_told(response: ApiResponse)
    ensures
        response matches ApiResponse::Success { data } ==> response_json(response).field("data"@)
            == data@ && !response_json(response).has("error"@),
        response matches ApiResponse::Failure { error } ==> response_json(response).field(
            "error"@,
        ).field("message"@) == JsonView::Text(error.message@) && response_json(response).field(
            "error"@,
        ).field("code"@) == JsonView::Text(error.code.named()) && !response_json(response).has(
            "data"@,
        ),
{
    reveal_strlit("data");
    reveal_strlit("error");
    reveal_strlit("code");
    reveal_strlit("message");
    assert("data"@.len() == 4);
    assert("error"@.len() == 5);
    assert("code"@.len() == 4);
    assert("message"@.len() == 7);
    assert("data"@[0] == 'd');
    assert("code"@[0] == 'c');
}

} // verus!
