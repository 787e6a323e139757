//! Places in a document, and the decisions on the way to a rename or a code
//! action.

use crate::application::Position;
use crate::fault::{Failure, FailureView, Fault};
use crate::json::{views, Json, JsonView};
use crate::protocol;
use crate::symbols;
use crate::text;
use crate::wire;
use vstd::prelude::*;

verus! {

/// A place that was chosen, or what stands in the way of a choice.
pub enum Selection {
    Position(Json),
    /// None or several symbols have the name; nothing is done.
    Candidates(Json),
}

/// A place that was chosen, in the terms of contracts.
pub enum SelectionView {
    Position(JsonView),
    Candidates(JsonView),
}

impl View for Selection {
    type V = SelectionView;

    open spec fn view(&self) -> SelectionView {
        match *self {
            Selection::Position(position) => SelectionView::Position(position@),
            Selection::Candidates(answer) => SelectionView::Candidates(answer@),
        }
    }
}

/// The symbols with a name, in order.
pub open spec fn named(rows: Seq<JsonView>, name: Seq<char>) -> Seq<JsonView>
    decreases rows.len(),
{
    if rows.len() == 0 {
        Seq::empty()
    } else {
        let earlier = named(rows.drop_last(), name);
        if rows.last().field("name"@) == JsonView::Text(name) {
            earlier.push(rows.last())
        } else {
            earlier
        }
    }
}

/// The answer where a name does not choose one symbol.
pub open spec fn candidates_view(found: Seq<JsonView>, name: Seq<char>) -> JsonView {
    JsonView::object().with("applied"@, JsonView::Bool(false)).with(
        "reason"@,
        JsonView::Text(
            if found.len() == 0 {
                "symbol_not_found"@
            } else {
                "ambiguous_symbol"@
            },
        ),
    ).with("symbol"@, JsonView::Text(name)).with(
        "candidates"@,
        JsonView::Array(found.map_values(|item: JsonView| symbols::compact_row(item))),
    )
}

/// The place where a symbol starts, as the server said it.
pub open spec fn row_position(row: JsonView) -> JsonView {
    JsonView::object().with("line"@, row.field("line"@)).with(
        "character"@,
        row.field("character"@),
    )
}

/// Why a symbol's place cannot be relied on, if it cannot. A server that gives
/// the extent of a symbol and not that of its name is believed only if the name
/// stands where the extent starts.
pub open spec fn inexactness(row: JsonView, name: Seq<char>, source: Option<Seq<char>>) -> Option<
    Fault,
> {
    if row.field("exactSelection"@) == JsonView::Bool(true) {
        None
    } else {
        match source {
            None => Some(Fault::NotOpen),
            Some(text) => match protocol::position_place(text, row_position(row)) {
                Err(fault) => Some(fault),
                Ok(at) => if text::has_prefix(text.skip(at), name) {
                    None
                } else {
                    Some(Fault::InexactSymbol)
                },
            },
        }
    }
}

/// The place that a symbol's name chooses among a document's symbols.
pub open spec fn chosen(
    result: JsonView,
    uri: Seq<char>,
    name: Seq<char>,
    source: Option<Seq<char>>,
) -> Result<SelectionView, Fault> {
    let found = named(symbols::rows(result.items_or_none(), None, uri), name);
    if found.len() != 1 {
        Ok(SelectionView::Candidates(candidates_view(found, name)))
    } else {
        match inexactness(found[0], name, source) {
            Some(fault) => Err(fault),
            None => Ok(SelectionView::Position(row_position(found[0]))),
        }
    }
}

/// The place that is given by a line and a column, if both are.
pub fn given_position(line: Option<u32>, character: Option<u32>) -> (r: Option<Json>)
    ensures
        match r {
            Some(position) => line is Some && character is Some && position@
                == protocol::position_view(line->0 as int, character->0 as int),
            None => line is None || character is None,
        },
{
    match (line, character) {
        (Some(line), Some(character)) => Some(protocol::position(line as u64, character as u64)),
        _ => None,
    }
}

fn find_named(rows: &Vec<Json>, name: &str) -> (r: Vec<Json>)
    ensures
        views(r@) == named(views(rows@), name@),
{
    let ghost all = views(rows@);
    let mut out: Vec<Json> = Vec::new();
    let mut i: usize = 0;
    proof {
        assert(all.take(0) =~= Seq::<JsonView>::empty());
        assert(views(out@) =~= Seq::<JsonView>::empty());
    }
    while i < rows.len()
        invariant
            all == views(rows@),
            i <= rows@.len(),
            views(out@) == named(all.take(i as int), name@),
        decreases rows@.len() - i,
    {
        proof {
            assert(all.take(i + 1).drop_last() =~= all.take(i as int));
            assert(all.take(i + 1).last() == rows@[i as int]@);
        }
        let ghost before = views(out@);
        if rows[i].at("name").is_str(name) {
            let row = rows[i].copy();
            out.push(row);
            proof {
                assert(views(out@) =~= before.push(row@));
            }
        }
        i = i + 1;
    }
    proof {
        assert(all.take(all.len() as int) =~= all);
    }
    out
}

proof fn lemma_named_are_objects(rows: Seq<JsonView>, name: Seq<char>)
    requires
        forall|i: int| 0 <= i < rows.len() ==> #[trigger] rows[i] is Object,
    ensures
        forall|i: int| 0 <= i < named(rows, name).len() ==> #[trigger] named(rows, name)[i] is Object,
    decreases rows.len(),
{
    if rows.len() > 0 {
        lemma_named_are_objects(rows.drop_last(), name);
    }
}

/// Whether the characters of a text from a place on start with a name.
fn stands_at(source: &str, row: &Json, name: &str) -> (r: Result<bool, Fault>)
    ensures
        match r {
            Ok(there) => protocol::position_place(source@, row_position(row@)) is Ok && there
                == text::has_prefix(
                source@.skip(protocol::position_place(source@, row_position(row@))->Ok_0),
                name@,
            ),
            Err(fault) => protocol::position_place(source@, row_position(row@)) == Err::<
                int,
                Fault,
            >(fault),
        },
{
    let position = Json::object().with("line", row.at("line").copy()).with(
        "character",
        row.at("character").copy(),
    );
    protocol::starts_at(source, &position, name)
}

/// The place that a symbol's name chooses among a document's symbols. `source`
/// is the document's text.
pub fn choose_symbol(result: &Json, uri: &str, name: &str, source: Option<&str>) -> (r: Result<
    Selection,
    Fault,
>)
    ensures
        ({
            let wanted = chosen(
                result@,
                uri@,
                name@,
                match source {
                    Some(text) => Some(text@),
                    None => None,
                },
            );
            match r {
                Ok(selection) => wanted == Ok::<SelectionView, Fault>(selection@),
                Err(fault) => wanted == Err::<SelectionView, Fault>(fault),
            }
        }),
{
    let rows = symbols::flatten(result, uri);
    let found = find_named(&rows, name);
    proof {
        let all = symbols::rows(result@.items_or_none(), None, uri@);
        assert forall|i: int| 0 <= i < all.len() implies #[trigger] all[i] is Object by {
            symbols::law_rows_are_objects(result@.items_or_none(), None, uri@, i);
        }
        lemma_named_are_objects(all, name@);
        assert forall|i: int| 0 <= i < found@.len() implies (#[trigger] found@[i])@ is Object by {
            assert(views(found@)[i] == found@[i]@);
        }
        assert(views(found@).len() == found@.len());
    }
    if found.len() != 1 {
        let reason = if found.len() == 0 {
            "symbol_not_found"
        } else {
            "ambiguous_symbol"
        };
        return Ok(
            Selection::Candidates(
                Json::object().with("applied", Json::boolean(false)).with(
                    "reason",
                    Json::text(reason),
                ).with("symbol", Json::text(name)).with("candidates", symbols::compact(found)),
            ),
        );
    }
    let row = &found[0];
    proof {
        assert(views(found@)[0] == found@[0]@);
    }
    if !row.at("exactSelection").is_bool(true) {
        match source {
            None => {
                return Err(Fault::NotOpen);
            },
            Some(text) => match stands_at(text, row, name) {
                Err(fault) => {
                    return Err(fault);
                },
                Ok(there) => {
                    if !there {
                        return Err(Fault::InexactSymbol);
                    }
                },
            },
        }
    }
    Ok(
        Selection::Position(
            Json::object().with("line", row.at("line").copy()).with(
                "character",
                row.at("character").copy(),
            ),
        ),
    )
}

// ---------------------------------------------------------------------------
// Parameters of requests
// ---------------------------------------------------------------------------
/// The parameters of a request about a place.
pub open spec fn place_params(uri: Seq<char>, position: JsonView) -> JsonView {
    crate::documents::about(uri).with("position"@, position)
}

/// The parameters of a request about a place; `declaration` asks for the
/// declaration too.
pub fn locate_params(uri: &str, position: Json, declaration: bool) -> (r: Json)
    ensures
        r@ == if declaration {
            place_params(uri@, position@).with(
                "context"@,
                JsonView::object().with("includeDeclaration"@, JsonView::Bool(true)),
            )
        } else {
            place_params(uri@, position@)
        },
{
    let params = crate::documents::naming(uri).with("position", position);
    if declaration {
        params.with(
            "context",
            Json::object().with("includeDeclaration", Json::boolean(true)),
        )
    } else {
        params
    }
}

/// The parameters of a rename.
pub fn rename_params(uri: &str, position: Json, new_name: &str) -> (r: Json)
    ensures
        r@ == place_params(uri@, position@).with("newName"@, JsonView::Text(new_name@)),
{
    crate::documents::naming(uri).with("position", position).with("newName", Json::text(new_name))
}

/// Whether a server checks a rename before it makes it.
pub fn prepares_renames(capabilities: &Json) -> (r: bool)
    ensures
        r == (capabilities@.field("renameProvider"@).field("prepareProvider"@) == JsonView::Bool(
            true,
        )),
{
    capabilities.at("renameProvider").at("prepareProvider").is_bool(true)
}

/// The symbol that a server says will be renamed: the text of the range that it
/// gives, else the one that was asked for.
pub open spec fn prepared_symbol(
    prepared: JsonView,
    source: Option<Seq<char>>,
    symbol: Option<Seq<char>>,
) -> Result<Option<Seq<char>>, Fault> {
    let range = if prepared.has("range"@) {
        prepared.field("range"@)
    } else {
        prepared
    };
    if prepared is Null {
        Err(Fault::NoRename)
    } else if !range.has("start"@) {
        Ok(symbol)
    } else {
        match source {
            None => Err(Fault::NotOpen),
            Some(text) => match protocol::text_in_range(
                text,
                range.field("start"@),
                range.field("end"@),
            ) {
                Err(fault) => Err(fault),
                Ok(None) => Err(Fault::InvalidPrepareRange),
                Ok(Some(part)) => Ok(Some(part)),
            },
        }
    }
}

/// The symbol that a server says will be renamed. `source` is the document's
/// text.
pub fn take_prepared(prepared: &Json, source: Option<&str>, symbol: Option<String>) -> (r: Result<
    Option<String>,
    Fault,
>)
    ensures
        ({
            let wanted = prepared_symbol(
                prepared@,
                match source {
                    Some(text) => Some(text@),
                    None => None,
                },
                text::option_view(symbol),
            );
            match r {
                Ok(found) => wanted == Ok::<Option<Seq<char>>, Fault>(text::option_view(found)),
                Err(fault) => wanted == Err::<Option<Seq<char>>, Fault>(fault),
            }
        }),
{
    if prepared.is_null() {
        return Err(Fault::NoRename);
    }
    let range = match prepared.get("range") {
        Some(range) => range,
        None => prepared,
    };
    if !range.has("start") {
        return Ok(symbol);
    }
    match source {
        None => Err(Fault::NotOpen),
        Some(text) => match protocol::text_at(text, range.at("start"), range.at("end")) {
            Err(fault) => Err(fault),
            Ok(part) => match part {
                None => Err(Fault::InvalidPrepareRange),
                Some(part) => Ok(Some(part)),
            },
        },
    }
}

/// What is said of a rename that was made or planned.
pub open spec fn rename_view(
    receipt: JsonView,
    plan: Option<(Seq<char>, Option<int>)>,
    new_name: Seq<char>,
    symbol: Option<Seq<char>>,
) -> JsonView {
    let planned = match plan {
        Some((id, None)) => receipt.with("planId"@, JsonView::Text(id)),
        Some((id, Some(seconds))) => receipt.with("planId"@, JsonView::Text(id)).with(
            "expiresInSeconds"@,
            JsonView::Int(seconds),
        ),
        None => receipt,
    };
    let renamed = planned.with("newName"@, JsonView::Text(new_name));
    match symbol {
        Some(name) => renamed.with("symbol"@, JsonView::Text(name)),
        None => renamed,
    }
}

/// What is said of a rename that was written at once.
pub fn renamed_answer(receipt: Json, new_name: &str, symbol: &Option<String>) -> (r: Json)
    ensures
        r@ == rename_view(receipt@, None, new_name@, text::option_view(*symbol)),
{
    let answer = receipt.with("newName", Json::text(new_name));
    match symbol {
        Some(name) => answer.with("symbol", Json::text(name.as_str())),
        None => answer,
    }
}

/// What is said of a rename that was planned.
pub fn planned_answer(
    receipt: Json,
    plan: &str,
    seconds: u64,
    new_name: &str,
    symbol: &Option<String>,
) -> (r: Json)
    ensures
        r@ == rename_view(
            receipt@,
            Some((plan@, Some(seconds as int))),
            new_name@,
            text::option_view(*symbol),
        ),
{
    let planned = receipt.with("planId", Json::text(plan)).with(
        "expiresInSeconds",
        Json::number(seconds),
    );
    renamed_answer(planned, new_name, symbol)
}

/// What is said of a rename that was planned before and is now written.
pub fn applied_answer(receipt: Json, plan: &str, new_name: &str, symbol: &Option<String>) -> (r:
    Json)
    ensures
        r@ == rename_view(
            receipt@,
            Some((plan@, None)),
            new_name@,
            text::option_view(*symbol),
        ),
{
    let planned = receipt.with("planId", Json::text(plan));
    renamed_answer(planned, new_name, symbol)
}

// ---------------------------------------------------------------------------
// Code actions
// ---------------------------------------------------------------------------
/// Whether a place lies before another.
pub open spec fn is_before(a: Position, b: Position) -> bool {
    a.line < b.line || (a.line == b.line && a.character < b.character)
}

/// The parameters of a request for code actions.
pub open spec fn actions_view(
    uri: Seq<char>,
    start: Position,
    end: Position,
    diagnostics: JsonView,
) -> JsonView {
    crate::documents::about(uri).with(
        "range"@,
        JsonView::object().with(
            "start"@,
            protocol::position_view(start.line as int, start.character as int),
        ).with("end"@, protocol::position_view(end.line as int, end.character as int)),
    ).with("context"@, JsonView::object().with("diagnostics"@, diagnostics))
}

/// The diagnostics of a document, as a server told them last.
pub open spec fn known_diagnostics(entry: Option<JsonView>) -> JsonView {
    match entry {
        Some(entry) => entry.field("diagnostics"@),
        None => JsonView::Array(Seq::empty()),
    }
}

/// The parameters of a request for code actions in a range; `entry` is what the
/// server told last of the document.
pub fn actions_params(uri: &str, start: Position, end: Position, entry: Option<&Json>) -> (r: Result<
    Json,
    Fault,
>)
    ensures
        match r {
            Ok(params) => !is_before(end, start) && params@ == actions_view(
                uri@,
                start,
                end,
                known_diagnostics(
                    match entry {
                        Some(entry) => Some(entry@),
                        None => None,
                    },
                ),
            ),
            Err(fault) => is_before(end, start) && fault == Fault::RangeBackwards,
        },
{
    if end.line < start.line || (end.line == start.line && end.character < start.character) {
        return Err(Fault::RangeBackwards);
    }
    let diagnostics = match entry {
        Some(entry) => entry.at("diagnostics").copy(),
        None => {
            let none: Vec<Json> = Vec::new();
            proof {
                assert(views(none@) =~= Seq::<JsonView>::empty());
            }
            Json::array(none)
        },
    };
    Ok(
        crate::documents::naming(uri).with(
            "range",
            Json::object().with(
                "start",
                protocol::position(start.line as u64, start.character as u64),
            ).with("end", protocol::position(end.line as u64, end.character as u64)),
        ).with("context", Json::object().with("diagnostics", diagnostics)),
    )
}

/// What a code action calls for.
pub enum ActionStep {
    Failed(Failure),
    /// Ask the server to complete the action, then look at it again.
    Resolve,
    /// Make this edit.
    Edit(Json),
}

/// What a code action calls for, in the terms of contracts.
pub enum ActionStepView {
    Failed(FailureView),
    Resolve,
    Edit(JsonView),
}

impl View for ActionStep {
    type V = ActionStepView;

    open spec fn view(&self) -> ActionStepView {
        match *self {
            ActionStep::Failed(failure) => ActionStepView::Failed(failure@),
            ActionStep::Resolve => ActionStepView::Resolve,
            ActionStep::Edit(edit) => ActionStepView::Edit(edit@),
        }
    }
}

/// What a code action calls for; `resolved` tells that the server has completed
/// it. Only text edits are made, never commands.
pub open spec fn action_step(action: JsonView, resolved: bool) -> ActionStepView {
    if !resolved && !(action.field("disabled"@) is Null) {
        ActionStepView::Failed(
            FailureView {
                fault: Fault::ActionDisabled,
                detail: wire::json_text(action.field("disabled"@)),
            },
        )
    } else if !resolved && !action.has("edit"@) && action.has("data"@) {
        ActionStepView::Resolve
    } else if !(action.field("command"@) is Null) {
        ActionStepView::Failed(FailureView::plain(Fault::CommandAction))
    } else if !action.has("edit"@) {
        ActionStepView::Failed(FailureView::plain(Fault::ActionWithoutEdit))
    } else {
        ActionStepView::Edit(action.field("edit"@))
    }
}

/// What a code action calls for.
pub fn judge_action(action: &Json, resolved: bool) -> (r: ActionStep)
    ensures
        r@ == action_step(action@, resolved),
{
    if !resolved && !action.at("disabled").is_null() {
        let detail = wire::render_text(action.at("disabled"));
        return ActionStep::Failed(Failure::of(Fault::ActionDisabled, detail.as_str()));
    }
    if !resolved && !action.has("edit") && action.has("data") {
        return ActionStep::Resolve;
    }
    if !action.at("command").is_null() {
        return ActionStep::Failed(Failure::plain(Fault::CommandAction));
    }
    match action.get("edit") {
        None => ActionStep::Failed(Failure::plain(Fault::ActionWithoutEdit)),
        Some(edit) => ActionStep::Edit(edit.copy()),
    }
}

/// The edit of an action is what is made, and all of it: an action that is neither
/// disabled nor a command and has an edit comes to exactly that edit, whether the
/// server had to complete it or not; and nothing else comes to an edit.
pub proof fn law_edits_of_actions_are_made(action: JsonView, resolved: bool)
    ensures
        action.field("disabled"@) is Null && action.field("command"@) is Null && action.has("edit"@)
            ==> action_step(action, resolved) == ActionStepView::Edit(action.field("edit"@)),
        resolved && action.field("command"@) is Null && action.has("edit"@) ==> action_step(
            action,
            resolved,
        ) == ActionStepView::Edit(action.field("edit"@)),
        action_step(action, resolved) matches ActionStepView::Edit(edit) ==> action.has("edit"@)
            && edit == action.field("edit"@) && action.field("command"@) is Null && (resolved
            || action.field("disabled"@) is Null),
{
}

/// An action is sent to the server to be completed exactly once: if it has data
/// in place of an edit and is not disabled. What is still without an edit then is
/// refused.
pub proof fn law_actions_are_completed_once(action: JsonView)
    ensures
        action_step(action, false) is Resolve <==> action.field("disabled"@) is Null && !action.has(
            "edit"@,
        ) && action.has("data"@),
        !(action_step(action, true) is Resolve),
        !action.has("edit"@) && action.field("command"@) is Null ==> action_step(action, true)
            == ActionStepView::Failed(FailureView::plain(Fault::ActionWithoutEdit)),
        !action.has("edit"@) && !action.has("data"@) && action.field("command"@) is Null
            && action.field("disabled"@) is Null ==> action_step(action, false)
            == ActionStepView::Failed(FailureView::plain(Fault::ActionWithoutEdit)),
        !(action.field("disabled"@) is Null) ==> action_step(action, false)
            == ActionStepView::Failed(
            FailureView {
                fault: Fault::ActionDisabled,
                detail: wire::json_text(action.field("disabled"@)),
            },
        ),
{
}

/// An action that runs a command is never carried out.
pub proof fn law_commands_are_refused(action: JsonView)
    requires
        !(action.field("command"@) is Null),
    ensures
        action_step(action, true) is Failed,
        !(action_step(action, false) is Edit),
{
}

/// The symbols with a name are all that have it, in order.
pub proof fn law_symbols_are_found_by_name(rows: Seq<JsonView>, more: JsonView, name: Seq<char>)
    ensures
        named(Seq::empty(), name) == Seq::<JsonView>::empty(),
        more.field("name"@) == JsonView::Text(name) ==> named(rows.push(more), name) == named(
            rows,
            name,
        ).push(more),
        more.field("name"@) != JsonView::Text(name) ==> named(rows.push(more), name) == named(
            rows,
            name,
        ),
{
    assert(rows.push(more).drop_last() =~= rows);
}

proof fn lemma_none_named(rows: Seq<JsonView>, name: Seq<char>)
    requires
        forall|j: int|
            0 <= j < rows.len() ==> (#[trigger] rows[j]).field("name"@) != JsonView::Text(name),
    ensures
        named(rows, name).len() == 0,
    decreases rows.len(),
{
    if rows.len() > 0 {
        let front = rows.drop_last();
        assert forall|j: int| 0 <= j < front.len() implies (#[trigger] front[j]).field("name"@)
            != JsonView::Text(name) by {
            assert(rows[j] == front[j]);
        }
        lemma_none_named(front, name);
        assert(rows[rows.len() - 1] == rows.last());
    }
}

proof fn lemma_some_named(rows: Seq<JsonView>, name: Seq<char>, i: int)
    requires
        0 <= i < rows.len(),
        rows[i].field("name"@) == JsonView::Text(name),
    ensures
        named(rows, name).len() > 0,
        forall|j: int|
            0 <= j < rows.len() && j != i && (#[trigger] rows[j]).field("name"@) == JsonView::Text(
                name,
            ) ==> named(rows, name).len() > 1,
        (forall|j: int|
            0 <= j < rows.len() && j != i ==> (#[trigger] rows[j]).field("name"@)
                != JsonView::Text(name)) ==> named(rows, name) == seq![rows[i]],
    decreases rows.len(),
{
    let front = rows.drop_last();
    let unique = forall|j: int|
        0 <= j < rows.len() && j != i ==> (#[trigger] rows[j]).field("name"@) != JsonView::Text(
            name,
        );
    if i == rows.len() - 1 {
        if unique {
            assert forall|j: int| 0 <= j < front.len() implies (#[trigger] front[j]).field("name"@)
                != JsonView::Text(name) by {
                assert(rows[j] == front[j]);
            }
            lemma_none_named(front, name);
            assert(named(rows, name) =~= seq![rows[i]]);
        }
        assert forall|j: int|
            0 <= j < rows.len() && j != i && (#[trigger] rows[j]).field("name"@) == JsonView::Text(
                name,
            ) implies named(rows, name).len() > 1 by {
            assert(front[j] == rows[j]);
            lemma_some_named(front, name, j);
        }
    } else {
        assert(front[i] == rows[i]);
        lemma_some_named(front, name, i);
        if unique {
            assert forall|j: int| 0 <= j < front.len() && j != i implies (
            #[trigger] front[j]).field("name"@) != JsonView::Text(name) by {
                assert(rows[j] == front[j]);
            }
            assert(rows[rows.len() - 1].field("name"@) != JsonView::Text(name));
            assert(named(rows, name) =~= seq![rows[i]]);
        }
        assert forall|j: int|
            0 <= j < rows.len() && j != i && (#[trigger] rows[j]).field("name"@) == JsonView::Text(
                name,
            ) implies named(rows, name).len() > 1 by {
            if j < front.len() {
                assert(front[j] == rows[j]);
            }
        }
    }
}

/// A name that one symbol has, at whatever depth, chooses the place of that symbol;
/// one whose place the server gave only by its extent must stand there.
pub proof fn law_a_name_chooses_its_symbol(
    result: JsonView,
    uri: Seq<char>,
    name: Seq<char>,
    source: Option<Seq<char>>,
    i: int,
)
    requires
        ({
            let rows = symbols::rows(result.items_or_none(), None, uri);
            &&& 0 <= i < rows.len()
            &&& rows[i].field("name"@) == JsonView::Text(name)
            &&& forall|j: int|
                0 <= j < rows.len() && j != i ==> (#[trigger] rows[j]).field("name"@)
                    != JsonView::Text(name)
        }),
    ensures
        ({
            let row = symbols::rows(result.items_or_none(), None, uri)[i];
            let position = JsonView::object().with("line"@, row.field("line"@)).with(
                "character"@,
                row.field("character"@),
            );
            let found = chosen(result, uri, name, source);
            &&& row.field("exactSelection"@) == JsonView::Bool(true) ==> found == Ok::<
                SelectionView,
                Fault,
            >(SelectionView::Position(position))
            &&& row.field("exactSelection"@) != JsonView::Bool(true) ==> match source {
                None => found == Err::<SelectionView, Fault>(Fault::NotOpen),
                Some(text) => match protocol::position_place(text, position) {
                    Err(fault) => found == Err::<SelectionView, Fault>(fault),
                    Ok(at) => {
                        let there = 0 <= at && at + name.len() <= text.len() && text.subrange(
                            at,
                            at + name.len(),
                        ) == name;
                        &&& there ==> found == Ok::<SelectionView, Fault>(
                            SelectionView::Position(position),
                        )
                        &&& !there ==> found == Err::<SelectionView, Fault>(Fault::InexactSymbol)
                    },
                },
            }
        }),
{
    let rows = symbols::rows(result.items_or_none(), None, uri);
    lemma_some_named(rows, name, i);
    match source {
        Some(text) => {
            match protocol::position_place(text, row_position(rows[i])) {
                Ok(at) => {
                    protocol::law_position_in_text(text, row_position(rows[i]));
                    if at + name.len() <= text.len() {
                        assert(text.skip(at).take(name.len() as int) =~= text.subrange(
                            at,
                            at + name.len(),
                        ));
                    }
                },
                Err(_) => {},
            }
        },
        None => {},
    }
}

/// A name that no symbol has, or several have, chooses none: the answer says which
/// it is and lists all that have it.
pub proof fn law_candidates_are_told(
    result: JsonView,
    uri: Seq<char>,
    name: Seq<char>,
    source: Option<Seq<char>>,
)
    ensures
        ({
            let rows = symbols::rows(result.items_or_none(), None, uri);
            let found = chosen(result, uri, name, source);
            &&& (forall|j: int|
                0 <= j < rows.len() ==> (#[trigger] rows[j]).field("name"@) != JsonView::Text(name))
                ==> (found matches Ok(SelectionView::Candidates(answer)) && answer.field("reason"@)
                == JsonView::Text("symbol_not_found"@) && answer.field("symbol"@)
                == JsonView::Text(name) && answer.field("applied"@) == JsonView::Bool(false)
                && answer.field("candidates"@) == JsonView::Array(Seq::empty()))
            &&& (exists|i: int, j: int|
                0 <= i < j < rows.len() && (#[trigger] rows[i]).field("name"@) == JsonView::Text(
                    name,
                ) && (#[trigger] rows[j]).field("name"@) == JsonView::Text(name)) ==> (
            found matches Ok(SelectionView::Candidates(answer)) && answer.field("reason"@)
                == JsonView::Text("ambiguous_symbol"@) && answer.field("symbol"@)
                == JsonView::Text(name) && answer.field("applied"@) == JsonView::Bool(false)
                && (answer.field("candidates"@) matches JsonView::Array(told) && told.len() == named(
                rows,
                name,
            ).len() && forall|k: int|
                0 <= k < told.len() ==> (#[trigger] told[k]) == symbols::compact_row(
                    named(rows, name)[k],
                )))
        }),
{
    reveal_strlit("applied");
    reveal_strlit("reason");
    reveal_strlit("symbol");
    reveal_strlit("candidates");
    assert("applied"@.len() == 7);
    assert("reason"@.len() == 6);
    assert("symbol"@.len() == 6);
    assert("candidates"@.len() == 10);
    assert("reason"@[0] == 'r');
    assert("symbol"@[0] == 's');
    let rows = symbols::rows(result.items_or_none(), None, uri);
    if forall|j: int|
        0 <= j < rows.len() ==> (#[trigger] rows[j]).field("name"@) != JsonView::Text(name) {
        lemma_none_named(rows, name);
        assert(named(rows, name).map_values(|item: JsonView| symbols::compact_row(item)) =~= Seq::<
            JsonView,
        >::empty());
    }
    if exists|i: int, j: int|
        0 <= i < j < rows.len() && (#[trigger] rows[i]).field("name"@) == JsonView::Text(name) && (
        #[trigger] rows[j]).field("name"@) == JsonView::Text(name) {
        let (i, j) = choose|i: int, j: int|
            0 <= i < j < rows.len() && (#[trigger] rows[i]).field("name"@) == JsonView::Text(name)
                && (#[trigger] rows[j]).field("name"@) == JsonView::Text(name);
        lemma_some_named(rows, name, i);
        assert(rows[j].field("name"@) == JsonView::Text(name));
    }
}

/// A request about a place names the document and the place; a rename also gives
/// the new name, and a search for references asks for the declaration too.
pub proof fn law_requests_name_their_place(uri: Seq<char>, position: JsonView, new_name: Seq<char>)
    ensures
        place_params(uri, position).field("textDocument"@).field("uri"@) == JsonView::Text(uri),
        place_params(uri, position).field("position"@) == position,
        place_params(uri, position).with("newName"@, JsonView::Text(new_name)).field("position"@)
            == position,
        place_params(uri, position).with("newName"@, JsonView::Text(new_name)).field(
            "textDocument"@,
        ).field("uri"@) == JsonView::Text(uri),
{
    reveal_strlit("textDocument");
    reveal_strlit("uri");
    reveal_strlit("position");
    reveal_strlit("newName");
    assert("textDocument"@.len() == 12);
    assert("uri"@.len() == 3);
    assert("position"@.len() == 8);
    assert("newName"@.len() == 7);
}

/// A request for code actions gives the document, the range that was asked for and
/// what the server last found there.
pub proof fn law_actions_are_asked_for_the_range(
    uri: Seq<char>,
    start: Position,
    end: Position,
    diagnostics: JsonView,
)
    ensures
        ({
            let params = actions_view(uri, start, end, diagnostics);
            let range = params.field("range"@);
            &&& params.field("textDocument"@).field("uri"@) == JsonView::Text(uri)
            &&& range.field("start"@).field("line"@) == JsonView::Int(start.line as int)
            &&& range.field("start"@).field("character"@) == JsonView::Int(start.character as int)
            &&& range.field("end"@).field("line"@) == JsonView::Int(end.line as int)
            &&& range.field("end"@).field("character"@) == JsonView::Int(end.character as int)
            &&& params.field("context"@).field("diagnostics"@) == diagnostics
        }),
{
    reveal_strlit("textDocument");
    reveal_strlit("uri");
    reveal_strlit("range");
    reveal_strlit("context");
    reveal_strlit("start");
    reveal_strlit("end");
    reveal_strlit("line");
    reveal_strlit("character");
    reveal_strlit("diagnostics");
    assert("textDocument"@.len() == 12);
    assert("uri"@.len() == 3);
    assert("range"@.len() == 5);
    assert("context"@.len() == 7);
    assert("start"@.len() == 5);
    assert("end"@.len() == 3);
    assert("line"@.len() == 4);
    assert("character"@.len() == 9);
    assert("diagnostics"@.len() == 11);
    assert("uri"@[0] == 'u');
    assert("end"@[0] == 'e');
    assert("range"@[0] == 'r');
    assert("start"@[0] == 's');
}

/// The name that a server says will be renamed is what stands in the range that it
/// gives, be it bare or in `range`; without one it is the name that was asked for;
/// and null means that nothing can be renamed.
pub proof fn law_prepared_name_stands_in_the_text(
    prepared: JsonView,
    text: Seq<char>,
    symbol: Option<Seq<char>>,
)
    ensures
        ({
            let range = if prepared.has("range"@) {
                prepared.field("range"@)
            } else {
                prepared
            };
            let told = prepared_symbol(prepared, Some(text), symbol);
            let start = protocol::position_place(text, range.field("start"@));
            let end = protocol::position_place(text, range.field("end"@));
            &&& prepared is Null ==> told == Err::<Option<Seq<char>>, Fault>(Fault::NoRename)
            &&& !(prepared is Null) && !range.has("start"@) ==> told == Ok::<
                Option<Seq<char>>,
                Fault,
            >(symbol)
            &&& !(prepared is Null) && range.has("start"@) && start is Ok && end is Ok
                && start->Ok_0 <= end->Ok_0 ==> told == Ok::<Option<Seq<char>>, Fault>(
                Some(text.subrange(start->Ok_0, end->Ok_0)),
            )
            &&& !(prepared is Null) && range.has("start"@) && !(start is Ok && end is Ok
                && start->Ok_0 <= end->Ok_0) ==> told is Err
            &&& !(prepared is Null) && range.has("start"@) ==> prepared_symbol(
                prepared,
                None,
                symbol,
            ) == Err::<Option<Seq<char>>, Fault>(Fault::NotOpen)
        }),
{
    let range = if prepared.has("range"@) {
        prepared.field("range"@)
    } else {
        prepared
    };
    protocol::law_text_in_range(text, range.field("start"@), range.field("end"@));
}

/// What is said of a rename is all that its receipt says, and the new name; the
/// replaced one where it is known, and the plan where there is one.
pub proof fn law_rename_answers_keep_the_receipt(
    receipt: JsonView,
    plan: Option<(Seq<char>, Option<int>)>,
    new_name: Seq<char>,
    symbol: Option<Seq<char>>,
    key: Seq<char>,
)
    requires
        receipt is Object,
    ensures
        ({
            let told = rename_view(receipt, plan, new_name, symbol);
            &&& told.field("newName"@) == JsonView::Text(new_name)
            &&& symbol matches Some(name) ==> told.field("symbol"@) == JsonView::Text(name)
            &&& plan matches Some((id, _)) ==> told.field("planId"@) == JsonView::Text(id)
            &&& plan matches Some((_, Some(seconds))) ==> told.field("expiresInSeconds"@)
                == JsonView::Int(seconds)
            &&& key != "newName"@ && key != "symbol"@ && key != "planId"@ && key
                != "expiresInSeconds"@ ==> told.field(key) == receipt.field(key)
            &&& symbol is None ==> told.field("symbol"@) == receipt.field("symbol"@)
            &&& plan is None ==> told.field("planId"@) == receipt.field("planId"@)
        }),
{
    reveal_strlit("newName");
    reveal_strlit("symbol");
    reveal_strlit("planId");
    reveal_strlit("expiresInSeconds");
    assert("newName"@.len() == 7);
    assert("symbol"@.len() == 6);
    assert("planId"@.len() == 6);
    assert("expiresInSeconds"@.len() == 16);
    assert("symbol"@[0] == 's');
    assert("planId"@[0] == 'p');
}

/// Code actions are asked for with what the server last found in the document, or with
/// nothing where it said nothing.
pub proof fn law_known_findings_go_along(entry: JsonView)
    ensures
        known_diagnostics(Some(entry)) == entry.field("diagnostics"@),
        known_diagnostics(None) == JsonView::Array(Seq::empty()),
{
}

/// A range runs backwards if it ends on an earlier line, or earlier on the same line.
pub proof fn law_ranges_run_forwards(start: Position, end: Position)
    ensures
        is_before(end, start) <==> end.line < start.line || (end.line == start.line && end.character
            < start.character),
{
}

} // verus!
