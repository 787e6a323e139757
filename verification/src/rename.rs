//! The course of a rename, from the place that is named to the edit that is
//! made or planned.

use crate::application::{Place, PlaceView};
use crate::documents::{about, naming};
use crate::fault::Fault;
use crate::json::{Json, JsonView};
use crate::protocol;
use crate::selection::{self, Selection, SelectionView};
use crate::text;
use vstd::prelude::*;

verus! {

/// How a place is found.
pub enum SelectStep {
    Position(Json),
    /// Ask the server for the document's symbols, with these parameters.
    AskSymbols(Json),
    Failed(Fault),
}

/// How a place is found, in the terms of contracts.
pub enum SelectView {
    Position(JsonView),
    AskSymbols(JsonView),
    Failed(Fault),
}

impl View for SelectStep {
    type V = SelectView;

    open spec fn view(&self) -> SelectView {
        match *self {
            SelectStep::Position(position) => SelectView::Position(position@),
            SelectStep::AskSymbols(params) => SelectView::AskSymbols(params@),
            SelectStep::Failed(fault) => SelectView::Failed(fault),
        }
    }
}

/// How a place is found: by its line and column, else by its symbol's name.
pub open spec fn selecting(place: PlaceView, uri: Seq<char>) -> SelectView {
    if place.line is Some && place.character is Some {
        SelectView::Position(
            protocol::position_view(place.line->0 as int, place.character->0 as int),
        )
    } else if place.symbol is None {
        SelectView::Failed(Fault::MissingSymbol)
    } else {
        SelectView::AskSymbols(about(uri))
    }
}

/// How a place is found.
pub fn select_position(place: &Place, uri: &str) -> (r: SelectStep)
    ensures
        r@ == selecting(place@, uri@),
{
    match selection::given_position(place.line, place.character) {
        Some(position) => SelectStep::Position(position),
        None => if place.symbol.is_none() {
            SelectStep::Failed(Fault::MissingSymbol)
        } else {
            SelectStep::AskSymbols(naming(uri))
        },
    }
}

/// A rename under way.
pub struct Rename {
    pub place: Place,
    pub new_name: String,
    /// The document that the place is in.
    pub uri: String,
    /// The document's text, if it is open.
    pub source: Option<String>,
    /// Whether the server checks a rename before it makes it.
    pub prepares: bool,
    /// The place, once it is found.
    pub position: Json,
    /// The name that is replaced, as far as it is known.
    pub symbol: Option<String>,
}

/// A rename under way, in the terms of contracts.
#[verifier::ext_equal]
pub struct RenameView {
    pub place: PlaceView,
    pub new_name: Seq<char>,
    pub uri: Seq<char>,
    pub source: Option<Seq<char>>,
    pub prepares: bool,
    pub position: JsonView,
    pub symbol: Option<Seq<char>>,
}

impl View for Rename {
    type V = RenameView;

    open spec fn view(&self) -> RenameView {
        RenameView {
            place: self.place@,
            new_name: self.new_name@,
            uri: self.uri@,
            source: text::option_view(self.source),
            prepares: self.prepares,
            position: self.position@,
            symbol: text::option_view(self.symbol),
        }
    }
}

/// What a rename calls for next.
pub enum RenameStep {
    /// Ask for the document's symbols; hand the answer to
    /// [`Rename::take_symbols`].
    AskSymbols(Json),
    /// Ask whether the rename can be made; hand the answer to
    /// [`Rename::take_prepared`].
    AskPrepare(Json),
    /// Ask for the rename; hand the answer to [`Rename::take_edit`].
    AskRename(Json),
    /// Prepare this edit, then write or plan it.
    Prepare(Json),
    /// Nothing is done; answer this.
    Answer(Json),
    Failed(Fault),
}

/// What a rename calls for next, in the terms of contracts.
pub enum RenameStepView {
    AskSymbols(JsonView),
    AskPrepare(JsonView),
    AskRename(JsonView),
    Prepare(JsonView),
    Answer(JsonView),
    Failed(Fault),
}

impl View for RenameStep {
    type V = RenameStepView;

    open spec fn view(&self) -> RenameStepView {
        match *self {
            RenameStep::AskSymbols(params) => RenameStepView::AskSymbols(params@),
            RenameStep::AskPrepare(params) => RenameStepView::AskPrepare(params@),
            RenameStep::AskRename(params) => RenameStepView::AskRename(params@),
            RenameStep::Prepare(edit) => RenameStepView::Prepare(edit@),
            RenameStep::Answer(answer) => RenameStepView::Answer(answer@),
            RenameStep::Failed(fault) => RenameStepView::Failed(fault),
        }
    }
}

impl RenameView {
    /// What is asked for once the rename may be made.
    pub open spec fn asking(self) -> RenameStepView {
        RenameStepView::AskRename(
            selection::place_params(self.uri, self.position).with(
                "newName"@,
                JsonView::Text(self.new_name),
            ),
        )
    }

    /// With the place found, and what comes next.
    pub open spec fn placed(self, position: JsonView) -> (RenameView, RenameStepView) {
        let now = RenameView { position, ..self };
        (
            now,
            if self.prepares {
                RenameStepView::AskPrepare(selection::place_params(self.uri, position))
            } else {
                now.asking()
            },
        )
    }

    /// The first step.
    pub open spec fn begun(self) -> (RenameView, RenameStepView) {
        match selecting(self.place, self.uri) {
            SelectView::Position(position) => self.placed(position),
            SelectView::AskSymbols(params) => (self, RenameStepView::AskSymbols(params)),
            SelectView::Failed(fault) => (self, RenameStepView::Failed(fault)),
        }
    }

    /// What the document's symbols lead to.
    pub open spec fn after_symbols(self, result: JsonView) -> (RenameView, RenameStepView) {
        match self.place.symbol {
            None => (self, RenameStepView::Failed(Fault::MissingSymbol)),
            Some(name) => match selection::chosen(result, self.uri, name, self.source) {
                Err(fault) => (self, RenameStepView::Failed(fault)),
                Ok(SelectionView::Candidates(answer)) => (self, RenameStepView::Answer(answer)),
                Ok(SelectionView::Position(position)) => self.placed(position),
            },
        }
    }

    /// What the server's check leads to.
    pub open spec fn after_prepared(self, prepared: JsonView) -> (RenameView, RenameStepView) {
        match selection::prepared_symbol(prepared, self.source, self.symbol) {
            Err(fault) => (self, RenameStepView::Failed(fault)),
            Ok(symbol) => (RenameView { symbol, ..self }, self.asking()),
        }
    }

    /// What the server's rename leads to.
    pub open spec fn after_edit(self, edit: JsonView) -> RenameStepView {
        if edit is Null {
            RenameStepView::Failed(Fault::NoRename)
        } else {
            RenameStepView::Prepare(edit)
        }
    }
}

impl Rename {
    /// A rename of the symbol at a place.
    pub fn new(
        place: Place,
        new_name: String,
        uri: String,
        source: Option<String>,
        prepares: bool,
    ) -> (r: Rename)
        ensures
            r@ == (RenameView {
                place: place@,
                new_name: new_name@,
                uri: uri@,
                source: text::option_view(source),
                prepares,
                position: JsonView::Null,
                symbol: text::option_view(place.symbol),
            }),
    {
        let symbol = text::copy_option(&place.symbol);
        Rename { place, new_name, uri, source, prepares, position: Json::null(), symbol }
    }

    fn ask_rename(&self) -> (r: RenameStep)
        ensures
            r@ == self@.asking(),
    {
        RenameStep::AskRename(
            selection::rename_params(
                self.uri.as_str(),
                self.position.copy(),
                self.new_name.as_str(),
            ),
        )
    }

    fn place_at(&mut self, position: Json) -> (r: RenameStep)
        ensures
            (final(self)@, r@) == old(self)@.placed(position@),
    {
        self.position = position;
        proof {
            assert(self@ =~= (RenameView { position: position@, ..old(self)@ }));
        }
        if self.prepares {
            RenameStep::AskPrepare(
                selection::locate_params(self.uri.as_str(), self.position.copy(), false),
            )
        } else {
            self.ask_rename()
        }
    }

    /// The first step.
    pub fn begin(&mut self) -> (r: RenameStep)
        ensures
            (final(self)@, r@) == old(self)@.begun(),
    {
        match select_position(&self.place, self.uri.as_str()) {
            SelectStep::Position(position) => self.place_at(position),
            SelectStep::AskSymbols(params) => RenameStep::AskSymbols(params),
            SelectStep::Failed(fault) => RenameStep::Failed(fault),
        }
    }

    /// Takes in the document's symbols.
    pub fn take_symbols(&mut self, result: &Json) -> (r: RenameStep)
        ensures
            (final(self)@, r@) == old(self)@.after_symbols(result@),
    {
        let source = match &self.source {
            Some(source) => Some(source.as_str()),
            None => None,
        };
        let selected = match &self.place.symbol {
            None => {
                return RenameStep::Failed(Fault::MissingSymbol);
            },
            Some(name) => selection::choose_symbol(
                result,
                self.uri.as_str(),
                name.as_str(),
                source,
            ),
        };
        match selected {
            Err(fault) => RenameStep::Failed(fault),
            Ok(Selection::Candidates(answer)) => RenameStep::Answer(answer),
            Ok(Selection::Position(position)) => self.place_at(position),
        }
    }

    /// Takes in the server's check.
    pub fn take_prepared(&mut self, prepared: &Json) -> (r: RenameStep)
        ensures
            (final(self)@, r@) == old(self)@.after_prepared(prepared@),
    {
        let source = match &self.source {
            Some(source) => Some(source.as_str()),
            None => None,
        };
        let symbol = text::copy_option(&self.symbol);
        match selection::take_prepared(prepared, source, symbol) {
            Err(fault) => RenameStep::Failed(fault),
            Ok(symbol) => {
                let step = self.ask_rename();
                self.symbol = symbol;
                proof {
                    assert(self@ =~= (RenameView {
                        symbol: text::option_view(symbol),
                        ..old(self)@
                    }));
                }
                step
            },
        }
    }

    /// Takes in the server's rename.
    pub fn take_edit(&self, edit: Json) -> (r: RenameStep)
        ensures
            r@ == self@.after_edit(edit@),
    {
        if edit.is_null() {
            RenameStep::Failed(Fault::NoRename)
        } else {
            RenameStep::Prepare(edit)
        }
    }
}

/// A name that does not choose one symbol never leads to an edit: the answer
/// names the candidates and says that nothing was applied.
pub proof fn law_ambiguous_names_change_nothing(state: RenameView, result: JsonView)
    requires
        state.place.symbol matches Some(name) && selection::named(
            crate::symbols::rows(result.items_or_none(), None, state.uri),
            name,
        ).len() != 1,
    ensures
        state.after_symbols(result).0 == state,
        state.after_symbols(result).1 matches RenameStepView::Answer(answer) && answer.field(
            "applied"@,
        ) == JsonView::Bool(false),
{
    reveal_strlit("applied");
    reveal_strlit("reason");
    reveal_strlit("symbol");
    reveal_strlit("candidates");
    assert("applied"@.len() == 7 && "reason"@.len() == 6 && "symbol"@.len() == 6
        && "candidates"@.len() == 10);
}

/// A place that is given by line and column is the place that is renamed; the
/// server is first asked whether it can be, if it checks that, and then for the
/// rename with the new name.
pub proof fn law_the_named_place_is_renamed(state: RenameView)
    requires
        state.place.line is Some,
        state.place.character is Some,
    ensures
        ({
            let (placed, first) = state.begun();
            let line = JsonView::Int(state.place.line->0 as int);
            let character = JsonView::Int(state.place.character->0 as int);
            &&& placed.position.field("line"@) == line
            &&& placed.position.field("character"@) == character
            &&& state.prepares ==> (first matches RenameStepView::AskPrepare(params)
                && params.field("textDocument"@).field("uri"@) == JsonView::Text(state.uri)
                && params.field("position"@) == placed.position)
            &&& !state.prepares ==> (first matches RenameStepView::AskRename(params)
                && params.field("textDocument"@).field("uri"@) == JsonView::Text(state.uri)
                && params.field("position"@) == placed.position && params.field("newName"@)
                == JsonView::Text(state.new_name))
        }),
{
    reveal_strlit("textDocument");
    reveal_strlit("uri");
    reveal_strlit("position");
    reveal_strlit("newName");
    reveal_strlit("line");
    reveal_strlit("character");
    assert("textDocument"@.len() == 12);
    assert("uri"@.len() == 3);
    assert("position"@.len() == 8);
    assert("newName"@.len() == 7);
    assert("line"@.len() == 4);
    assert("character"@.len() == 9);
}

/// Once the server agrees, the rename is asked for at the place that was found, with
/// the new name; and the edit that comes back is the one that is made, unless there
/// is none.
pub proof fn law_agreed_renames_are_asked_for(state: RenameView, prepared: JsonView, edit: JsonView)
    ensures
        state.after_prepared(prepared).1 is Failed || (state.after_prepared(prepared).1 matches
            RenameStepView::AskRename(params) && params.field("textDocument"@).field("uri"@)
            == JsonView::Text(state.uri) && params.field("position"@) == state.position
            && params.field("newName"@) == JsonView::Text(state.new_name)),
        state.after_prepared(prepared).1 is Failed <==> selection::prepared_symbol(
            prepared,
            state.source,
            state.symbol,
        ) is Err,
        !(edit is Null) ==> state.after_edit(edit) == RenameStepView::Prepare(edit),
        edit is Null ==> state.after_edit(edit) == RenameStepView::Failed(Fault::NoRename),
{
    reveal_strlit("textDocument");
    reveal_strlit("uri");
    reveal_strlit("position");
    reveal_strlit("newName");
    assert("textDocument"@.len() == 12);
    assert("uri"@.len() == 3);
    assert("position"@.len() == 8);
    assert("newName"@.len() == 7);
}

/// A rename by name asks for the document's symbols, and goes on at the place that
/// the name chooses.
pub proof fn law_names_lead_to_places(state: RenameView, result: JsonView)
    requires
        state.place.line is None || state.place.character is None,
    ensures
        state.place.symbol is None ==> state.begun().1 == RenameStepView::Failed(
            Fault::MissingSymbol,
        ),
        state.place.symbol is Some ==> (state.begun().1 matches RenameStepView::AskSymbols(params)
            && params.field("textDocument"@).field("uri"@) == JsonView::Text(state.uri)),
        state.place.symbol matches Some(name) ==> match selection::chosen(
            result,
            state.uri,
            name,
            state.source,
        ) {
            Ok(SelectionView::Position(position)) => {
                let (placed, next) = state.after_symbols(result);
                &&& placed.position == position
                &&& placed.new_name == state.new_name && placed.uri == state.uri
                &&& state.prepares ==> (next matches RenameStepView::AskPrepare(params)
                    && params.field("position"@) == position)
                &&& !state.prepares ==> (next matches RenameStepView::AskRename(params)
                    && params.field("position"@) == position && params.field("newName"@)
                    == JsonView::Text(state.new_name))
            },
            Ok(SelectionView::Candidates(answer)) => state.after_symbols(result).1
                == RenameStepView::Answer(answer),
            Err(fault) => state.after_symbols(result).1 == RenameStepView::Failed(fault),
        },
{
    reveal_strlit("textDocument");
    reveal_strlit("uri");
    reveal_strlit("position");
    reveal_strlit("newName");
    assert("textDocument"@.len() == 12);
    assert("uri"@.len() == 3);
    assert("position"@.len() == 8);
    assert("newName"@.len() == 7);
}

} // verus!
