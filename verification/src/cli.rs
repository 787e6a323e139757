//! The command line: from options to a request, and from an answer to output.

use crate::application::{operations, operation_list, operation_views, ApiError, ApiResponse};
use crate::application::{error_json, ErrorCode, OperationInfo, OperationView};
use crate::json::{views, Json, JsonView};
use crate::language::Markers;
use crate::table::Table;
use crate::text;
use crate::uri;
use crate::wire;
use vstd::prelude::*;
use vstd::utf8::encode_utf8;

verus! {

/// The most bytes that are read from the standard input.
pub const MAX_INPUT_BYTES: usize = 2_097_152;

// ---------------------------------------------------------------------------
// Names
// ---------------------------------------------------------------------------
/// A text with every `from` replaced by `to`.
pub open spec fn replaced(text: Seq<char>, from: char, to: char) -> Seq<char> {
    text.map_values(
        |c: char|
            if c == from {
                to
            } else {
                c
            },
    )
}

/// The command of an operation.
pub fn command_name(operation: &str) -> (r: String)
    ensures
        r@ == replaced(operation@, '_', '-'),
{
    text::replace_char(operation, '_', '-')
}

/// The operation of a command.
pub fn operation_name(command: &str) -> (r: String)
    ensures
        r@ == replaced(command@, '-', '_'),
{
    text::replace_char(command, '-', '_')
}

/// Whether an option is a switch, by its name.
pub open spec fn is_switch(field: Seq<char>) -> bool {
    field == "apply"@ || field == "check"@ || field == "preview"@ || field == "verbose"@
}

/// Whether an option is a number, by its name.
pub open spec fn is_number(field: Seq<char>) -> bool {
    field == "line"@ || field == "character"@
}

/// Whether an option may stand beside arguments in JSON, by its name.
pub open spec fn goes_with_json(field: Seq<char>) -> bool {
    field == "workspace"@ || field == "verbose"@
}

/// Whether an option is a switch, by its name.
pub fn switch_field(field: &str) -> (r: bool)
    ensures
        r == is_switch(field@),
{
    text::same(field, "apply") || text::same(field, "check") || text::same(field, "preview")
        || text::same(field, "verbose")
}

/// Whether an option is a number, by its name.
pub fn number_field(field: &str) -> (r: bool)
    ensures
        r == is_number(field@),
{
    text::same(field, "line") || text::same(field, "character")
}

/// Whether an option may stand beside arguments in JSON, by its name.
pub fn beside_json(field: &str) -> (r: bool)
    ensures
        r == goes_with_json(field@),
{
    text::same(field, "workspace") || text::same(field, "verbose")
}

/// The place of an operation, by its name.
pub open spec fn operation_at(list: Seq<OperationView>, name: Seq<char>, i: int) -> bool {
    0 <= i < list.len() && list[i].name == name
}

/// The operation of a name.
pub fn find_operation(name: &str) -> (r: Option<OperationInfo>)
    ensures
        match r {
            Some(operation) => operation@.name == name@ && exists|i: int|
                operation_at(operation_list(), name@, i) && operation@ == operation_list()[i],
            None => forall|i: int| !operation_at(operation_list(), name@, i),
        },
{
    let mut list = operations();
    let ghost all = operation_list();
    let mut n: usize = list.len();
    proof {
        assert(operation_views(list@).take(n as int) =~= operation_views(list@));
        assert(all.take(all.len() as int) =~= all);
    }
    while n > 0
        invariant
            n == list@.len(),
            n <= all.len(),
            all == operation_list(),
            operation_views(list@) == all.take(n as int),
            forall|i: int| n <= i < all.len() ==> (#[trigger] all[i]).name != name@,
        decreases n,
    {
        let ghost before = operation_views(list@);
        match list.pop() {
            Some(operation) => {
                proof {
                    assert(before[n - 1] == operation@);
                    assert(all[n - 1] == operation@);
                    assert(operation_views(list@) =~= all.take(n - 1));
                }
                if text::same(operation.name, name) {
                    proof {
                        assert(operation_at(all, name@, n - 1));
                    }
                    return Some(operation);
                }
            },
            None => {},
        }
        n = n - 1;
    }
    None
}

// ---------------------------------------------------------------------------
// Arguments
// ---------------------------------------------------------------------------
/// The options that a command was given, by name. A path is the real path of
/// the file.
pub struct Options {
    pub switches: Table<bool>,
    pub numbers: Table<u32>,
    pub texts: Table<String>,
}

/// Where the arguments of an operation come from.
pub enum Source {
    /// JSON given as an option.
    Json(String),
    /// JSON read from the standard input.
    Input(String),
    Options,
}

/// The value of one argument given by an option; none if it was not given, an
/// error message if it is to be JSON and is none.
pub open spec fn option_value(options: Options, field: Seq<char>) -> Result<
    Option<JsonView>,
    Seq<char>,
> {
    if field == "workspace"@ {
        Ok(None)
    } else if is_switch(field) {
        if options.switches@.contains_key(field) && options.switches@[field] {
            Ok(Some(JsonView::Bool(true)))
        } else {
            Ok(None)
        }
    } else if is_number(field) {
        if options.numbers@.contains_key(field) {
            Ok(Some(JsonView::Int(options.numbers@[field] as int)))
        } else {
            Ok(None)
        }
    } else if options.texts@.contains_key(field) {
        let given = options.texts@[field]@;
        if field == "end"@ {
            match wire::json_outcome(encode_utf8(given)) {
                Ok(value) => Ok(Some(value)),
                Err(words) => Err("Invalid --end JSON: "@ + words),
            }
        } else {
            Ok(Some(JsonView::Text(given)))
        }
    } else {
        Ok(None)
    }
}

/// The arguments that options give; the first error message, if one is to be
/// JSON and is none.
pub open spec fn option_arguments(options: Options, fields: Seq<Seq<char>>) -> Result<
    JsonView,
    Seq<char>,
>
    decreases fields.len(),
{
    if fields.len() == 0 {
        Ok(JsonView::object())
    } else {
        match option_arguments(options, fields.drop_last()) {
            Err(message) => Err(message),
            Ok(earlier) => match option_value(options, fields.last()) {
                Err(message) => Err(message),
                Ok(None) => Ok(earlier),
                Ok(Some(value)) => Ok(earlier.with(fields.last(), value)),
            },
        }
    }
}

fn read_option(options: &Options, field: &str) -> (r: Result<Option<Json>, ApiError>)
    ensures
        match r {
            Ok(None) => option_value(*options, field@) == Ok::<Option<JsonView>, Seq<char>>(None),
            Ok(Some(value)) => option_value(*options, field@) == Ok::<Option<JsonView>, Seq<char>>(
                Some(value@),
            ),
            Err(error) => option_value(*options, field@) == Err::<Option<JsonView>, Seq<char>>(
                error.message@,
            ) && error.code == ErrorCode::InvalidInput,
        },
{
    if text::same(field, "workspace") {
        return Ok(None);
    }
    if switch_field(field) {
        let on: bool = match options.switches.get(field) {
            Some(on) => *on,
            None => false,
        };
        return Ok(
            if on {
                Some(Json::boolean(true))
            } else {
                None
            },
        );
    }
    if number_field(field) {
        return Ok(
            match options.numbers.get(field) {
                Some(n) => Some(Json::number(*n as u64)),
                None => None,
            },
        );
    }
    match options.texts.get(field) {
        None => Ok(None),
        Some(given) => {
            if !text::same(field, "end") {
                return Ok(Some(Json::text(given.as_str())));
            }
            match wire::parse_or_explain(given.as_str().as_bytes()) {
                Ok(value) => Ok(Some(value)),
                Err(error) => Err(explained("Invalid --end JSON: ", error.as_str())),
            }
        },
    }
}

/// An error about the input, with its reason.
fn explained(what: &str, why: &str) -> (r: ApiError)
    ensures
        r.code == ErrorCode::InvalidInput,
        r.message@ == what@ + why@,
{
    let message = text::joined(what, why);
    ApiError::invalid(message.as_str())
}

proof fn lemma_option_error(options: Options, fields: Seq<Seq<char>>, n: int)
    requires
        0 <= n <= fields.len(),
        option_arguments(options, fields.take(n)) is Err,
    ensures
        option_arguments(options, fields) == option_arguments(options, fields.take(n)),
    decreases fields.len(),
{
    if n < fields.len() {
        assert(fields.drop_last().take(n) =~= fields.take(n));
        lemma_option_error(options, fields.drop_last(), n);
    } else {
        assert(fields.take(n) =~= fields);
    }
}

proof fn lemma_options_make_object(options: Options, fields: Seq<Seq<char>>)
    ensures
        option_arguments(options, fields) matches Ok(value) ==> value is Object,
    decreases fields.len(),
{
    if fields.len() > 0 {
        lemma_options_make_object(options, fields.drop_last());
    }
}

/// The names of an operation's arguments, in the terms of contracts.
pub open spec fn field_views(fields: Seq<&'static str>) -> Seq<Seq<char>> {
    fields.map_values(|field: &'static str| field@)
}

/// The arguments that options give.
pub fn arguments_from_options(options: &Options, fields: &Vec<&'static str>) -> (r: Result<
    Json,
    ApiError,
>)
    ensures
        match r {
            Ok(value) => option_arguments(*options, field_views(fields@)) == Ok::<
                JsonView,
                Seq<char>,
            >(value@) && value@ is Object,
            Err(error) => option_arguments(*options, field_views(fields@)) == Err::<
                JsonView,
                Seq<char>,
            >(error.message@) && error.code == ErrorCode::InvalidInput,
        },
{
    let ghost all = field_views(fields@);
    let mut out = Json::object();
    let mut i: usize = 0;
    proof {
        assert(all.take(0) =~= Seq::<Seq<char>>::empty());
    }
    while i < fields.len()
        invariant
            all == field_views(fields@),
            i <= fields@.len(),
            option_arguments(*options, all.take(i as int)) == Ok::<JsonView, Seq<char>>(out@),
        decreases fields@.len() - i,
    {
        proof {
            assert(all.take(i + 1).drop_last() =~= all.take(i as int));
            assert(all.take(i + 1).last() == fields@[i as int]@);
        }
        match read_option(options, fields[i]) {
            Err(error) => {
                proof {
                    lemma_option_error(*options, all, i + 1);
                }
                return Err(error);
            },
            Ok(None) => {},
            Ok(Some(value)) => {
                out = out.with(fields[i], value);
            },
        }
        i = i + 1;
    }
    proof {
        assert(all.take(all.len() as int) =~= all);
        lemma_options_make_object(*options, all);
    }
    Ok(out)
}

/// The arguments that a JSON text gives, or why it gives none: they must be an
/// object, and a text from the standard input may not be too long.
pub open spec fn json_arguments(given: Seq<char>, from_input: bool) -> Result<
    JsonView,
    Seq<char>,
> {
    if from_input && text::byte_len(given) > MAX_INPUT_BYTES {
        Err("JSON input exceeds 2 MB"@)
    } else {
        match wire::json_outcome(encode_utf8(given)) {
            Err(words) => Err("Invalid JSON: "@ + words),
            Ok(value) => if value is Object {
                Ok(value)
            } else {
                Err("Arguments must be a JSON object"@)
            },
        }
    }
}

/// The arguments that a JSON text gives.
pub fn arguments_from_json(given: &str, from_input: bool) -> (r: Result<Json, ApiError>)
    ensures
        match r {
            Ok(value) => json_arguments(given@, from_input) == Ok::<JsonView, Seq<char>>(value@)
                && value@ is Object,
            Err(error) => json_arguments(given@, from_input) == Err::<JsonView, Seq<char>>(
                error.message@,
            ) && error.code == ErrorCode::InvalidInput,
        },
{
    if from_input && given.as_bytes().len() > MAX_INPUT_BYTES {
        return Err(ApiError::invalid("JSON input exceeds 2 MB"));
    }
    match wire::parse_or_explain(given.as_bytes()) {
        Err(error) => Err(explained("Invalid JSON: ", error.as_str())),
        Ok(value) => as_arguments(value),
    }
}

/// A JSON value as arguments: it must be an object.
pub fn as_arguments(value: Json) -> (r: Result<Json, ApiError>)
    ensures
        match r {
            Ok(same) => same == value && value@ is Object,
            Err(error) => !(value@ is Object) && error.code == ErrorCode::InvalidInput
                && error.message@ == "Arguments must be a JSON object"@,
        },
{
    if value.is_object() {
        Ok(value)
    } else {
        Err(ApiError::invalid("Arguments must be a JSON object"))
    }
}

/// The arguments of an operation, before its workspace is settled, or why there
/// are none.
pub open spec fn gathered(source: Source, options: Options, fields: Seq<Seq<char>>) -> Result<
    JsonView,
    Seq<char>,
> {
    match source {
        Source::Options => option_arguments(options, fields),
        Source::Json(given) => json_arguments(given@, false),
        Source::Input(given) => json_arguments(given@, true),
    }
}

/// The arguments of an operation, before its workspace is settled: from JSON or
/// from options.
pub fn arguments(operation: &OperationInfo, source: &Source, options: &Options) -> (r: Result<
    Json,
    ApiError,
>)
    ensures
        match r {
            Ok(value) => gathered(*source, *options, operation@.fields) == Ok::<
                JsonView,
                Seq<char>,
            >(value@) && value@ is Object,
            Err(error) => gathered(*source, *options, operation@.fields) == Err::<
                JsonView,
                Seq<char>,
            >(error.message@) && error.code == ErrorCode::InvalidInput,
        },
{
    match source {
        Source::Options => arguments_from_options(options, &operation.fields),
        Source::Json(given) => arguments_from_json(given.as_str(), false),
        Source::Input(given) => arguments_from_json(given.as_str(), true),
    }
}

/// Whether long answers are asked for beside arguments in JSON. `switch` is the
/// switch for them, none if the operation has none.
pub fn verbose_beside(source: &Source, switch: Option<bool>) -> (r: bool)
    ensures
        r == (!(source is Options) && switch == Some(true)),
{
    match source {
        Source::Options => false,
        _ => match switch {
            Some(on) => on,
            None => false,
        },
    }
}

/// What is to be done to name the workspace of a request.
pub enum WorkspaceStep {
    /// Resolve this path; it is the workspace.
    Resolve(String),
    /// Resolve the option's path, then the argument's; [`agree`] tells whether
    /// they are the same.
    Agree { option: String, argument: Option<String> },
    /// Look for the workspace from the current directory up.
    Infer,
    /// The request is as it is to be.
    Keep,
}

/// What is to be done to name the workspace, in the terms of contracts.
pub enum WorkspaceStepView {
    Resolve(Seq<char>),
    Agree { option: Seq<char>, argument: Option<Seq<char>> },
    Infer,
    Keep,
}

impl View for WorkspaceStep {
    type V = WorkspaceStepView;

    open spec fn view(&self) -> WorkspaceStepView {
        match *self {
            WorkspaceStep::Resolve(path) => WorkspaceStepView::Resolve(path@),
            WorkspaceStep::Agree { option, argument } => WorkspaceStepView::Agree {
                option: option@,
                argument: text::option_view(argument),
            },
            WorkspaceStep::Infer => WorkspaceStepView::Infer,
            WorkspaceStep::Keep => WorkspaceStepView::Keep,
        }
    }
}

/// What is to be done to name the workspace of a request. `option` is the
/// workspace that was given as an option; `all` asks for all of them.
pub open spec fn workspace_choice(
    arguments: JsonView,
    operation: Seq<char>,
    option: Option<Seq<char>>,
    all: bool,
) -> WorkspaceStepView {
    let argument = arguments.field("workspace"@);
    match option {
        Some(path) => if !arguments.has("workspace"@) {
            WorkspaceStepView::Resolve(path)
        } else {
            WorkspaceStepView::Agree { option: path, argument: argument.text() }
        },
        None => match argument.text() {
            Some(path) => WorkspaceStepView::Resolve(path),
            None => if arguments.has("workspace"@) || (operation == "workspace_status"@ && all) {
                WorkspaceStepView::Keep
            } else {
                WorkspaceStepView::Infer
            },
        },
    }
}

/// What is to be done to name the workspace of a request.
pub fn choose_workspace(arguments: &Json, operation: &str, option: &Option<String>, all: bool) -> (r:
    WorkspaceStep)
    ensures
        r@ == workspace_choice(arguments@, operation@, text::option_view(*option), all),
{
    let argument = arguments.at("workspace");
    match option {
        Some(path) => match arguments.get("workspace") {
            None => WorkspaceStep::Resolve(path.as_str().to_owned()),
            Some(other) => WorkspaceStep::Agree {
                option: path.as_str().to_owned(),
                argument: match other.as_str() {
                    Some(other) => Some(other.to_owned()),
                    None => None,
                },
            },
        },
        None => match argument.as_str() {
            Some(path) => WorkspaceStep::Resolve(path.to_owned()),
            None => if arguments.has("workspace") || (text::same(operation, "workspace_status")
                && all) {
                WorkspaceStep::Keep
            } else {
                WorkspaceStep::Infer
            },
        },
    }
}

/// Whether the workspace of an option and that of the arguments are the same,
/// once both are resolved; the argument is none if it is no text.
pub fn agree(option: &str, argument: &Option<String>) -> (r: Result<(), ApiError>)
    ensures
        match r {
            Ok(()) => text::option_view(*argument) == Some(option@),
            Err(error) => text::option_view(*argument) != Some(option@) && error.code
                == ErrorCode::InvalidInput && error.message@ == if argument is None {
                "workspace must be a string"@
            } else {
                "--workspace disagrees with JSON workspace"@
            },
        },
{
    match argument {
        None => Err(ApiError::invalid("workspace must be a string")),
        Some(argument) => if text::same(option, argument.as_str()) {
            Ok(())
        } else {
            Err(ApiError::invalid("--workspace disagrees with JSON workspace"))
        },
    }
}

/// The arguments with the workspace that was found, and with the switch for
/// long answers if it was given beside JSON.
pub fn finish_arguments(arguments: Json, workspace: &Option<String>, verbose: bool) -> (r: Json)
    requires
        arguments@ is Object,
    ensures
        ({
            let named = match *workspace {
                Some(root) => arguments@.with("workspace"@, JsonView::Text(root@)),
                None => arguments@,
            };
            r@ == if verbose {
                named.with("verbose"@, JsonView::Bool(true))
            } else {
                named
            }
        }),
{
    let named = match workspace {
        Some(root) => arguments.with("workspace", Json::text(root.as_str())),
        None => arguments,
    };
    if verbose {
        named.with("verbose", Json::boolean(true))
    } else {
        named
    }
}

/// Whether a directory can be a workspace: it holds a project file of a
/// language.
pub fn check_workspace(markers: Markers) -> (r: Result<(), ApiError>)
    ensures
        match r {
            Ok(()) => markers.cargo || markers.is_script(),
            Err(error) => !markers.cargo && !markers.is_script() && error.code
                == ErrorCode::InvalidInput && error.message@
                == crate::fault::Fault::NoMarker.wording(),
        },
{
    if markers.cargo || markers.script() {
        Ok(())
    } else {
        Err(ApiError::invalid(crate::fault::Fault::NoMarker.message()))
    }
}

// ---------------------------------------------------------------------------
// Calling the bridge
// ---------------------------------------------------------------------------
/// The parts of a URL that tell whether it is local.
pub struct UrlParts {
    pub scheme: String,
    pub host: Option<String>,
    pub username: String,
    pub has_password: bool,
}

/// The parts of a URL, in the terms of contracts.
pub struct UrlPartsView {
    pub scheme: Seq<char>,
    pub host: Option<Seq<char>>,
    pub username: Seq<char>,
    pub has_password: bool,
}

impl View for UrlParts {
    type V = UrlPartsView;

    open spec fn view(&self) -> UrlPartsView {
        UrlPartsView {
            scheme: self.scheme@,
            host: text::option_view(self.host),
            username: self.username@,
            has_password: self.has_password,
        }
    }
}

/// The parts of a text that is a URL, none if it is no URL.
pub open spec fn url_parts(url: Seq<char>) -> Option<UrlPartsView> {
    match uri::url_normal(url) {
        Err(_) => None,
        Ok(_) => Some(
            UrlPartsView {
                scheme: uri::url_scheme(url)->0,
                host: uri::url_host(url),
                username: uri::url_username(url)->0,
                has_password: uri::url_password(url) is Some,
            },
        ),
    }
}

fn take_url_apart(url: &str) -> (r: Result<UrlParts, String>)
    ensures
        match r {
            Ok(parts) => url_parts(url@) == Some(parts@),
            Err(error) => uri::url_normal(url@) == Err::<Seq<char>, Seq<char>>(error@),
        },
{
    match uri::parse_url(url) {
        Err(error) => {
            return Err(error);
        },
        Ok(_) => {},
    }
    let scheme = match uri::scheme_of_url(url) {
        Some(scheme) => scheme,
        None => String::new(),
    };
    let username = match uri::username_of_url(url) {
        Some(username) => username,
        None => String::new(),
    };
    Ok(
        UrlParts {
            scheme,
            host: uri::host_of_url(url),
            username,
            has_password: uri::password_of_url(url).is_some(),
        },
    )
}

/// A URL with another path and nothing after it; none where it is too long for
/// that.
pub open spec fn bare_url(url: Seq<char>, path: Seq<char>) -> Option<Seq<char>> {
    match uri::url_without_query(url) {
        None => None,
        Some(shorter) => match uri::url_without_fragment(shorter) {
            None => None,
            Some(bare) => match uri::url_normal(bare) {
                Err(_) => None,
                Ok(normal) => if uri::has_room_for(normal, uri::url_path_text(bare)->0, path) {
                    uri::url_with_path(bare, path)
                } else {
                    None
                },
            },
        },
    }
}

fn with_bare_path(url: &str, path: &str) -> (r: Option<String>)
    ensures
        text::option_view(r) == bare_url(url@, path@),
{
    let shorter = match uri::drop_query(url) {
        Some(shorter) => shorter,
        None => {
            return None;
        },
    };
    let bare = match uri::drop_fragment(shorter.as_str()) {
        Some(bare) => bare,
        None => {
            return None;
        },
    };
    let normal = match uri::parse_url(bare.as_str()) {
        Ok(normal) => normal,
        Err(_) => {
            return None;
        },
    };
    let before = match uri::path_text_of_url(bare.as_str()) {
        Some(before) => before,
        None => {
            return None;
        },
    };
    let length: i128 = normal.as_str().as_bytes().len() as i128;
    let old_length: i128 = before.as_str().as_bytes().len() as i128;
    let new_length: i128 = 3 * (path.as_bytes().len() as i128) + 8;
    if length > u32::MAX as i128 || length - old_length + new_length > u32::MAX as i128 {
        return None;
    }
    uri::replace_path(bare.as_str(), path)
}

/// Whether a URL leads to this machine, by plain HTTP and without credentials.
pub open spec fn is_local(parts: UrlPartsView) -> bool {
    &&& parts.scheme == "http"@
    &&& parts.host == Some("127.0.0.1"@) || parts.host == Some("localhost"@) || parts.host == Some(
        "[::1]"@,
    )
    &&& parts.username.len() == 0
    &&& !parts.has_password
}

/// What is said where the bridge is sought elsewhere.
pub open spec fn endpoint_hint() -> Seq<char> {
    "Endpoint must be a local http://127.0.0.1, localhost, or [::1] URL"@
}

/// Whether a URL leads to this machine.
pub fn check_endpoint(parts: &UrlParts) -> (r: Result<(), ApiError>)
    ensures
        match r {
            Ok(()) => is_local(parts@),
            Err(error) => !is_local(parts@) && error.code == ErrorCode::InvalidInput
                && error.message@ == endpoint_hint(),
        },
{
    let here: bool = match &parts.host {
        Some(host) => text::same(host.as_str(), "127.0.0.1") || text::same(
            host.as_str(),
            "localhost",
        ) || text::same(host.as_str(), "[::1]"),
        None => false,
    };
    if text::same(parts.scheme.as_str(), "http") && here && parts.username.as_str().is_empty()
        && !parts.has_password {
        Ok(())
    } else {
        Err(
            ApiError::invalid(
                "Endpoint must be a local http://127.0.0.1, localhost, or [::1] URL",
            ),
        )
    }
}

/// Where requests are sent, or why they are not: the text is no URL, it leads
/// elsewhere, or it is too long.
pub open spec fn execute_target(endpoint: Seq<char>) -> Result<Seq<char>, Seq<char>> {
    match uri::url_normal(endpoint) {
        Err(error) => Err("Invalid endpoint: "@ + error),
        Ok(_) => if !is_local(url_parts(endpoint)->0) {
            Err(endpoint_hint())
        } else {
            match bare_url(endpoint, "/api/execute"@) {
                Some(url) => Ok(url),
                None => Err("Invalid endpoint: too long"@),
            }
        },
    }
}

/// Where requests are sent. Only this machine is ever asked.
pub fn execute_url(endpoint: &str) -> (r: Result<String, ApiError>)
    ensures
        match r {
            Ok(url) => execute_target(endpoint@) == Ok::<Seq<char>, Seq<char>>(url@),
            Err(error) => execute_target(endpoint@) == Err::<Seq<char>, Seq<char>>(error.message@)
                && error.code == ErrorCode::InvalidInput,
        },
        r is Ok ==> (url_parts(endpoint@) matches Some(parts) && is_local(parts)),
{
    let parts = match take_url_apart(endpoint) {
        Ok(parts) => parts,
        Err(error) => {
            return Err(explained("Invalid endpoint: ", error.as_str()));
        },
    };
    match check_endpoint(&parts) {
        Ok(()) => {},
        Err(error) => {
            return Err(error);
        },
    }
    match with_bare_path(endpoint, "/api/execute") {
        Some(url) => Ok(url),
        None => Err(ApiError::invalid("Invalid endpoint: too long")),
    }
}

/// Why the bridge could not be asked.
#[derive(Clone, Copy, Debug, PartialEq, Eq, Structural)]
pub enum Obstacle {
    Refused,
    NotPermitted,
    TimedOut,
    Other,
}

/// What an error says of its cause, if it says one.
#[derive(Clone, Copy, Debug, PartialEq, Eq, Structural)]
pub enum Cause {
    Refused,
    NotPermitted,
    TimedOut,
    Other,
}

/// What kept a request from the bridge, by the causes from one on: the first
/// that says something.
pub open spec fn first_obstacle(causes: Seq<Cause>, i: int) -> Obstacle
    decreases causes.len() - i,
{
    if i >= causes.len() {
        Obstacle::Other
    } else {
        match causes[i] {
            Cause::Refused => Obstacle::Refused,
            Cause::NotPermitted => Obstacle::NotPermitted,
            Cause::TimedOut => Obstacle::TimedOut,
            Cause::Other => first_obstacle(causes, i + 1),
        }
    }
}

/// What kept a request from the bridge. `timed_out` tells that the request took
/// too long; `causes` are those of the error, from the outermost in.
pub fn obstacle(timed_out: bool, causes: &Vec<Cause>) -> (r: Obstacle)
    ensures
        r == if timed_out {
            Obstacle::TimedOut
        } else {
            first_obstacle(causes@, 0)
        },
{
    if timed_out {
        return Obstacle::TimedOut;
    }
    let mut i: usize = 0;
    while i < causes.len()
        invariant
            !timed_out,
            i <= causes@.len(),
            first_obstacle(causes@, 0) == first_obstacle(causes@, i as int),
        decreases causes@.len() - i,
    {
        match causes[i] {
            Cause::Refused => {
                return Obstacle::Refused;
            },
            Cause::NotPermitted => {
                return Obstacle::NotPermitted;
            },
            Cause::TimedOut => {
                return Obstacle::TimedOut;
            },
            Cause::Other => {},
        }
        i = i + 1;
    }
    Obstacle::Other
}

/// The error where the bridge could not be asked.
pub fn unreachable_error(endpoint: &str, obstacle: Obstacle, why: &str) -> (r: ApiError)
    ensures
        r.code == match obstacle {
            Obstacle::Refused => ErrorCode::ConnectionRefused,
            Obstacle::NotPermitted => ErrorCode::PermissionDenied,
            Obstacle::TimedOut => ErrorCode::TimedOut,
            Obstacle::Other => ErrorCode::Unavailable,
        },
        r.message@ == "Cannot reach bridge core at "@ + endpoint@ + ": "@ + why@
            + ". Start it with bridge serve. The CLI does not start another analyzer."@,
{
    let code = match obstacle {
        Obstacle::Refused => ErrorCode::ConnectionRefused,
        Obstacle::NotPermitted => ErrorCode::PermissionDenied,
        Obstacle::TimedOut => ErrorCode::TimedOut,
        Obstacle::Other => ErrorCode::Unavailable,
    };
    let a = text::joined("Cannot reach bridge core at ", endpoint);
    let b = text::joined(a.as_str(), ": ");
    let c = text::joined(b.as_str(), why);
    let message = text::joined(
        c.as_str(),
        ". Start it with bridge serve. The CLI does not start another analyzer.",
    );
    ApiError::of(code, message.as_str())
}

/// What the bridge's response comes to. A response that is neither of the two
/// forms is none; `status` is the HTTP status in words.
pub fn outcome(success: bool, status: &str, response: Result<ApiResponse, String>) -> (r: Result<
    Json,
    ApiError,
>)
    ensures
        match response {
            Ok(ApiResponse::Success { data }) => if success {
                r == Ok::<Json, ApiError>(data)
            } else {
                r matches Err(error) && error.code == ErrorCode::Unavailable && error.message@
                    == "Core returned HTTP "@ + status@
            },
            Ok(ApiResponse::Failure { error }) => r == Err::<Json, ApiError>(error),
            Err(why) => r matches Err(error) && error.code == ErrorCode::Unavailable
                && error.message@ == "Core returned HTTP "@ + status@
                + " with an invalid response: "@ + why@
                + ". Ensure the running core supports the CLI API."@,
        },
{
    match response {
        Ok(ApiResponse::Success { data }) => if success {
            Ok(data)
        } else {
            let message = text::joined("Core returned HTTP ", status);
            Err(ApiError::unavailable(message.as_str()))
        },
        Ok(ApiResponse::Failure { error }) => Err(error),
        Err(why) => {
            let a = text::joined("Core returned HTTP ", status);
            let b = text::joined(a.as_str(), " with an invalid response: ");
            let c = text::joined(b.as_str(), why.as_str());
            let message = text::joined(
                c.as_str(),
                ". Ensure the running core supports the CLI API.",
            );
            Err(ApiError::unavailable(message.as_str()))
        },
    }
}

// ---------------------------------------------------------------------------
// Output
// ---------------------------------------------------------------------------
/// The exit code of a command that met an error: 2 for invalid input, 1 for any
/// other.
pub fn exit_code(error: &ApiError) -> (r: u8)
    ensures
        r == if error.code == ErrorCode::InvalidInput {
            2u8
        } else {
            1u8
        },
{
    match error.code {
        ErrorCode::InvalidInput => 2,
        _ => 1,
    }
}

/// What is printed of an error.
pub fn error_output(error: &ApiError) -> (r: Json)
    ensures
        r@ == JsonView::object().with("error"@, error_json(error.code, error.message@)),
{
    Json::object().with("error", error.to_json())
}

/// What a command leaves behind: what is printed, and its exit code.
pub struct Report {
    pub output: Option<String>,
    pub error: Option<String>,
    pub code: u8,
}

/// What a command leaves behind: a result as one line of JSON on the standard
/// output, an error as one on the standard error.
pub fn report(result: Result<Option<Json>, ApiError>) -> (r: Report)
    ensures
        match result {
            Ok(None) => r.output is None && r.error is None && r.code == 0,
            Ok(Some(value)) => r.error is None && r.code == 0 && text::option_view(r.output)
                == Some(wire::json_text(value@)),
            Err(error) => r.output is None && text::option_view(r.error) == Some(
                wire::json_text(
                    JsonView::object().with("error"@, error_json(error.code, error.message@)),
                ),
            ) && r.code == if error.code == ErrorCode::InvalidInput {
                2u8
            } else {
                1u8
            },
        },
{
    match result {
        Ok(None) => Report { output: None, error: None, code: 0 },
        Ok(Some(value)) => Report { output: Some(wire::render_text(&value)), error: None, code: 0 },
        Err(error) => Report {
            output: None,
            error: Some(wire::render_text(&error_output(&error))),
            code: exit_code(&error),
        },
    }
}

/// What a command is.
pub enum Command {
    Serve,
    Companion,
    Tools,
    Schema,
    /// An operation, by its name.
    Operation(String),
}

/// What a command is, by its name.
pub fn command(name: &str) -> (r: Command)
    ensures
        match r {
            Command::Serve => name@ == "serve"@,
            Command::Companion => name@ == "companion"@,
            Command::Tools => name@ == "tools"@,
            Command::Schema => name@ == "schema"@,
            Command::Operation(operation) => name@ != "serve"@ && name@ != "companion"@ && name@
                != "tools"@ && name@ != "schema"@ && operation@ == replaced(name@, '-', '_'),
        },
{
    if text::same(name, "serve") {
        Command::Serve
    } else if text::same(name, "companion") {
        Command::Companion
    } else if text::same(name, "tools") {
        Command::Tools
    } else if text::same(name, "schema") {
        Command::Schema
    } else {
        Command::Operation(operation_name(name))
    }
}

/// What is said of an operation.
pub open spec fn tool_row(operation: OperationView) -> JsonView {
    JsonView::object().with("name"@, JsonView::Text(operation.name)).with(
        "description"@,
        JsonView::Text(operation.description),
    )
}

/// All operations with what they do.
pub fn tools() -> (r: Json)
    ensures
        r@ == JsonView::Array(
            operation_list().map_values(|operation: OperationView| tool_row(operation)),
        ),
{
    let list = operations();
    let ghost all = operation_list();
    let mut out: Vec<Json> = Vec::new();
    let mut i: usize = 0;
    while i < list.len()
        invariant
            all == operation_views(list@),
            i <= list@.len(),
            out@.len() == i,
            forall|j: int| 0 <= j < i ==> #[trigger] out@[j]@ == tool_row(all[j]),
        decreases list@.len() - i,
    {
        proof {
            assert(all[i as int] == list@[i as int]@);
        }
        out.push(
            Json::object().with("name", Json::text(list[i].name)).with(
                "description",
                Json::text(list[i].description),
            ),
        );
        i = i + 1;
    }
    proof {
        assert(views(out@) =~= all.map_values(|operation: OperationView| tool_row(operation)));
    }
    Json::array(out)
}

/// The error where an operation is not known.
pub fn unknown_operation(name: &str) -> (r: ApiError)
    ensures
        r.code == ErrorCode::InvalidInput,
        r.message@ == "Unknown operation: "@ + name@ + ". Run bridge tools."@,
{
    let start = text::joined("Unknown operation: ", name);
    let message = text::joined(start.as_str(), ". Run bridge tools.");
    ApiError::invalid(message.as_str())
}

// ---------------------------------------------------------------------------
// The editor extension
// ---------------------------------------------------------------------------
/// How an editor starts the companion.
pub struct Launch {
    pub command: String,
    pub args: Vec<String>,
}

/// How an editor starts the companion: the configured binary, else the one that
/// is found; with the configured arguments, else the companion command.
pub fn launch(
    configured: Option<String>,
    found: Option<String>,
    arguments: Option<Vec<String>>,
) -> (r: Result<Launch, &'static str>)
    ensures
        match r {
            Ok(launch) => {
                &&& configured is Some ==> launch.command == configured->0
                &&& configured is None ==> found == Some(launch.command)
                &&& match arguments {
                    Some(args) => launch.args == args,
                    None => text::texts_view(launch.args@) == seq!["companion"@],
                }
            },
            Err(hint) => configured is None && found is None && hint@
                == "Install mcp-editor-lsp-bridge or configure lsp.editor-lsp-bridge.binary.path"@,
        },
{
    let command = match configured {
        Some(command) => command,
        None => match found {
            Some(command) => command,
            None => {
                return Err(
                    "Install mcp-editor-lsp-bridge or configure lsp.editor-lsp-bridge.binary.path",
                );
            },
        },
    };
    let args = match arguments {
        Some(args) => args,
        None => {
            let mut args: Vec<String> = Vec::new();
            args.push("companion".to_owned());
            proof {
                assert(text::texts_view(args@) =~= seq!["companion"@]);
            }
            args
        },
    };
    Ok(Launch { command, args })
}

/// The options of a command become arguments of the same names: a switch that is on
/// is true, a number stays a number, a text a text, and the end of a range is JSON.
/// What was not given is left out.
pub proof fn law_options_become_arguments(options: Options, field: Seq<char>)
    ensures
        field == "workspace"@ ==> option_value(options, field) == Ok::<
            Option<JsonView>,
            Seq<char>,
        >(None),
        field == "apply"@ || field == "check"@ || field == "preview"@ || field == "verbose"@
            ==> option_value(options, field) == Ok::<Option<JsonView>, Seq<char>>(
            if options.switches@.contains_key(field) && options.switches@[field] {
                Some(JsonView::Bool(true))
            } else {
                None
            },
        ),
        field == "line"@ || field == "character"@ ==> option_value(options, field) == Ok::<
            Option<JsonView>,
            Seq<char>,
        >(
            if options.numbers@.contains_key(field) {
                Some(JsonView::Int(options.numbers@[field] as int))
            } else {
                None
            },
        ),
        field == "end"@ && options.texts@.contains_key(field) ==> match wire::json_outcome(
            encode_utf8(options.texts@[field]@),
        ) {
            Ok(value) => option_value(options, field) == Ok::<Option<JsonView>, Seq<char>>(
                Some(value),
            ),
            Err(words) => option_value(options, field) == Err::<Option<JsonView>, Seq<char>>(
                "Invalid --end JSON: "@ + words,
            ),
        },
        field != "workspace"@ && field != "apply"@ && field != "check"@ && field != "preview"@
            && field != "verbose"@ && field != "line"@ && field != "character"@ && field != "end"@
            ==> option_value(options, field) == Ok::<Option<JsonView>, Seq<char>>(
            if options.texts@.contains_key(field) {
                Some(JsonView::Text(options.texts@[field]@))
            } else {
                None
            },
        ),
{
    reveal_strlit("workspace");
    reveal_strlit("apply");
    reveal_strlit("check");
    reveal_strlit("preview");
    reveal_strlit("verbose");
    reveal_strlit("line");
    reveal_strlit("character");
    reveal_strlit("end");
    assert("workspace"@.len() == 9);
    assert("apply"@.len() == 5);
    assert("check"@.len() == 5);
    assert("preview"@.len() == 7);
    assert("verbose"@.len() == 7);
    assert("line"@.len() == 4);
    assert("character"@.len() == 9);
    assert("end"@.len() == 3);
    assert("workspace"@[0] == 'w');
    assert("character"@[0] == 'c');
    assert("apply"@[0] == 'a');
    assert("check"@[0] == 'c');
    assert("preview"@[0] == 'p');
    assert("verbose"@[0] == 'v');
}

/// The arguments hold the value of every option, and nothing else.
pub proof fn law_arguments_hold_all_options(
    options: Options,
    fields: Seq<Seq<char>>,
    more: Seq<char>,
)
    ensures
        option_arguments(options, Seq::empty()) == Ok::<JsonView, Seq<char>>(JsonView::object()),
        option_arguments(options, fields) matches Ok(earlier) ==> match option_value(
            options,
            more,
        ) {
            Ok(Some(value)) => option_arguments(options, fields.push(more)) == Ok::<
                JsonView,
                Seq<char>,
            >(earlier.with(more, value)),
            Ok(None) => option_arguments(options, fields.push(more)) == Ok::<JsonView, Seq<char>>(
                earlier,
            ),
            Err(words) => option_arguments(options, fields.push(more)) == Err::<
                JsonView,
                Seq<char>,
            >(words),
        },
        option_arguments(options, fields) matches Err(words) ==> option_arguments(
            options,
            fields.push(more),
        ) == Err::<JsonView, Seq<char>>(words),
{
    assert(fields.push(more).drop_last() =~= fields);
}

/// Arguments in JSON are taken as they are if they are an object, and from the input
/// only up to two megabytes.
pub proof fn law_json_arguments_are_taken(given: Seq<char>, from_input: bool)
    ensures
        json_arguments(given, from_input) is Ok <==> (from_input ==> text::byte_len(given) <= 2
            * 1024 * 1024) && (wire::json_outcome(encode_utf8(given)) matches Ok(value)
            && value is Object),
        json_arguments(given, from_input) matches Ok(taken) ==> wire::json_outcome(
            encode_utf8(given),
        ) == Ok::<JsonView, Seq<char>>(taken),
{
}

/// The workspace of a request is the one that the option names, or the arguments; both
/// must agree; without either it is inferred, unless all are asked for.
pub proof fn law_workspaces_are_chosen(
    arguments: JsonView,
    operation: Seq<char>,
    option: Option<Seq<char>>,
    all: bool,
)
    ensures
        option matches Some(path) && !arguments.has("workspace"@) ==> workspace_choice(
            arguments,
            operation,
            option,
            all,
        ) == WorkspaceStepView::Resolve(option->0),
        option matches Some(path) && (arguments.field("workspace"@) is Text) ==> workspace_choice(
            arguments,
            operation,
            option,
            all,
        ) == (WorkspaceStepView::Agree {
            option: option->0,
            argument: Some(arguments.field("workspace"@)->Text_0),
        }),
        option matches Some(path) && arguments.has("workspace"@) && !(arguments.field(
            "workspace"@,
        ) is Text) ==> workspace_choice(arguments, operation, option, all) == (
        WorkspaceStepView::Agree { option: option->0, argument: None }),
        option is None && (arguments.field("workspace"@) matches JsonView::Text(path))
            ==> workspace_choice(arguments, operation, option, all) == WorkspaceStepView::Resolve(
            arguments.field("workspace"@)->Text_0,
        ),
        option is None && arguments.has("workspace"@) && !(arguments.field("workspace"@) is Text)
            ==> workspace_choice(arguments, operation, option, all) == WorkspaceStepView::Keep,
        option is None && !arguments.has("workspace"@) && operation == "workspace_status"@ && all
            ==> workspace_choice(arguments, operation, option, all) == WorkspaceStepView::Keep,
        option is None && !arguments.has("workspace"@) && !(operation == "workspace_status"@ && all)
            ==> workspace_choice(arguments, operation, option, all) == WorkspaceStepView::Infer,
{
}

/// A local endpoint is taken, whatever its path, and only a local one; requests go to
/// one path of it.
pub proof fn law_local_endpoints_are_taken(endpoint: Seq<char>)
    ensures
        ({
            let local = uri::url_normal(endpoint) is Ok && uri::url_scheme(endpoint)->0 == "http"@
                && (uri::url_host(endpoint) == Some("127.0.0.1"@) || uri::url_host(endpoint)
                == Some("localhost"@) || uri::url_host(endpoint) == Some("[::1]"@))
                && uri::url_username(endpoint)->0.len() == 0 && uri::url_password(
                endpoint,
            ) is None;
            let target = execute_target(endpoint);
            &&& target is Ok ==> local
            &&& local ==> (bare_url(endpoint, "/api/execute"@) matches Some(url) ==> target == Ok::<
                Seq<char>,
                Seq<char>,
            >(url))
            &&& uri::url_normal(endpoint) matches Err(words) ==> target == Err::<
                Seq<char>,
                Seq<char>,
            >("Invalid endpoint: "@ + words)
            &&& uri::url_normal(endpoint) is Ok && !local ==> target == Err::<Seq<char>, Seq<char>>(
                "Endpoint must be a local http://127.0.0.1, localhost, or [::1] URL"@,
            )
        }),
{
}

/// A URL loses its query and fragment and gets the new path.
pub proof fn law_bare_urls(url: Seq<char>, path: Seq<char>)
    ensures
        bare_url(url, path) matches Some(found) ==> (uri::url_without_query(url) matches Some(
            shorter,
        ) && uri::url_with_path(uri::url_without_fragment(shorter)->0, path) == Some(found)),
        uri::url_without_query(url) matches Some(shorter) ==> (uri::url_without_fragment(
            shorter,
        ) matches Some(bare) ==> (uri::url_normal(bare) matches Ok(normal) ==> (text::byte_len(
            normal,
        ) <= u32::MAX && text::byte_len(normal) - text::byte_len(uri::url_path_text(bare)->0) + 3
            * text::byte_len(path) + 8 <= u32::MAX ==> bare_url(url, path) == uri::url_with_path(
            bare,
            path,
        )))),
{
}

/// What kept a request from the bridge is the first cause that says something.
pub proof fn law_the_first_cause_counts(causes: Seq<Cause>, i: int)
    requires
        0 <= i < causes.len(),
        forall|j: int| 0 <= j < i ==> (#[trigger] causes[j]) is Other,
        !(causes[i] is Other),
    ensures
        first_obstacle(causes, 0) == match causes[i] {
            Cause::Refused => Obstacle::Refused,
            Cause::NotPermitted => Obstacle::NotPermitted,
            Cause::TimedOut => Obstacle::TimedOut,
            Cause::Other => Obstacle::Other,
        },
{
    lemma_first_cause(causes, i, 0);
}

proof fn lemma_first_cause(causes: Seq<Cause>, i: int, at: int)
    requires
        0 <= at <= i < causes.len(),
        forall|j: int| 0 <= j < i ==> (#[trigger] causes[j]) is Other,
        !(causes[i] is Other),
    ensures
        first_obstacle(causes, at) == match causes[i] {
            Cause::Refused => Obstacle::Refused,
            Cause::NotPermitted => Obstacle::NotPermitted,
            Cause::TimedOut => Obstacle::TimedOut,
            Cause::Other => Obstacle::Other,
        },
    decreases i - at,
{
    if at < i {
        assert(causes[at] is Other);
        lemma_first_cause(causes, i, at + 1);
    }
}

/// Arguments come from where they were given: from JSON, from the input or from
/// options.
pub proof fn law_arguments_come_from_their_source(
    given: String,
    options: Options,
    fields: Seq<Seq<char>>,
)
    ensures
        gathered(Source::Options, options, fields) == option_arguments(options, fields),
        gathered(Source::Json(given), options, fields) == json_arguments(given@, false),
        gathered(Source::Input(given), options, fields) == json_arguments(given@, true),
        goes_with_json("workspace"@) && goes_with_json("verbose"@),
        forall|field: Seq<char>| #[trigger]
            goes_with_json(field) ==> field == "workspace"@ || field == "verbose"@,
{
}

/// A name of an operation and that of its command differ in their dashes only.
pub proof fn law_names_are_replaced(name: Seq<char>, from: char, to: char, i: int)
    requires
        0 <= i < name.len(),
    ensures
        replaced(name, from, to).len() == name.len(),
        name[i] == from ==> replaced(name, from, to)[i] == to,
        name[i] != from ==> replaced(name, from, to)[i] == name[i],
{
}

/// A tool is listed with its name and what it does.
pub proof fn law_tools_are_listed(operation: OperationView)
    ensures
        tool_row(operation).field("name"@) == JsonView::Text(operation.name),
        tool_row(operation).field("description"@) == JsonView::Text(operation.description),
{
    reveal_strlit("name");
    reveal_strlit("description");
    assert("name"@.len() == 4);
    assert("description"@.len() == 11);
}

} // verus!
