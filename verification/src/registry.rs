//! Which workspaces are connected, and how they come and go.

use crate::fault::{Failure, FailureView, Fault};
use crate::json::{views, Json, JsonView};
use crate::language::{Language, Markers, TypeScriptBackend};
use crate::order;
use crate::path;
use crate::table::Table;
use crate::text;
use crate::workspace::Config;
use vstd::prelude::*;
use vstd::relations::sorted_by;

verus! {

/// A connected workspace: the number of its session, and the backend that it was
/// started with.
#[derive(Clone, Copy, Debug, PartialEq, Eq, Structural)]
pub struct Connection {
    pub session: u64,
    pub backend: TypeScriptBackend,
}

/// The workspaces of one bridge. No workspace is both connected and
/// disconnected, and no two sessions have the same number.
pub struct Core {
    pub(crate) config: Config,
    /// The connected workspaces.
    pub(crate) sessions: Table<Connection>,
    /// The workspaces that were disconnected on purpose.
    pub(crate) disconnected: Table<bool>,
    /// The backends that were chosen for workspaces.
    pub(crate) backends: Table<TypeScriptBackend>,
    /// The number of the next session.
    pub(crate) next: u64,
}

/// The workspaces of one bridge, in the terms of contracts.
#[verifier::ext_equal]
pub struct CoreView {
    pub config: Config,
    pub sessions: Map<Seq<char>, Connection>,
    pub disconnected: Set<Seq<char>>,
    pub backends: Map<Seq<char>, TypeScriptBackend>,
    pub next: nat,
}

impl View for Core {
    type V = CoreView;

    open(crate) spec fn view(&self) -> CoreView {
        CoreView {
            config: self.config,
            sessions: self.sessions@,
            disconnected: self.disconnected@.dom(),
            backends: self.backends@,
            next: self.next as nat,
        }
    }
}

/// What a directory turned out to be: its real path, and what lies in it.
pub struct Place {
    pub root: String,
    pub markers: Markers,
}

/// What a directory turned out to be, in the terms of contracts.
pub struct PlaceView {
    pub root: Seq<char>,
    pub markers: Markers,
}

impl View for Place {
    type V = PlaceView;

    open spec fn view(&self) -> PlaceView {
        PlaceView { root: self.root@, markers: self.markers }
    }
}

/// What is known of a directory, in the terms of contracts.
pub open spec fn place_view(place: Option<Place>) -> Option<PlaceView> {
    match place {
        Some(place) => Some(place@),
        None => None,
    }
}

/// What attaching to a workspace calls for.
pub enum AttachStep {
    /// Find the directory, and attach with what it is.
    Find,
    /// It is connected, by this session.
    Existing(u64),
    /// Start it with this backend, then [`Core::attached`].
    Start(TypeScriptBackend),
    Failed(Failure),
}

/// What attaching to a workspace calls for, in the terms of contracts.
pub enum AttachView {
    Find,
    Existing(u64),
    Start(TypeScriptBackend),
    Failed(FailureView),
}

impl View for AttachStep {
    type V = AttachView;

    open spec fn view(&self) -> AttachView {
        match *self {
            AttachStep::Find => AttachView::Find,
            AttachStep::Existing(session) => AttachView::Existing(session),
            AttachStep::Start(backend) => AttachView::Start(backend),
            AttachStep::Failed(failure) => AttachView::Failed(failure@),
        }
    }
}

/// What choosing a backend calls for.
#[derive(Clone, Copy, Debug, PartialEq, Eq, Structural)]
pub enum BackendStep {
    /// The workspace is not connected.
    Failed(Fault),
    /// Its session runs with the backend already.
    Unchanged(u64),
    /// Start it anew with the backend in place of this session, then
    /// [`Core::backend_changed`].
    Restart(u64),
}

/// What happens to the workspaces of a bridge.
pub enum Event {
    Attached(Seq<char>, TypeScriptBackend),
    Disconnected(Seq<char>),
    Switched(Seq<char>, TypeScriptBackend),
}

impl Event {
    /// Whether a session of a workspace outlives this.
    pub open spec fn spares(self, root: Seq<char>) -> bool {
        match self {
            Event::Attached(_, _) => true,
            Event::Disconnected(other) => other != root,
            Event::Switched(other, _) => other != root,
        }
    }
}

impl CoreView {
    /// No workspace is both connected and disconnected, and no two sessions have
    /// the same number.
    pub open spec fn is_sound(self) -> bool {
        &&& forall|root: Seq<char>| #[trigger]
            self.sessions.contains_key(root) ==> !self.disconnected.contains(root)
                && self.sessions[root].session < self.next
        &&& forall|root: Seq<char>, other: Seq<char>|
            self.sessions.contains_key(root) && self.sessions.contains_key(other) && root != other
                ==> (#[trigger] self.sessions[root]).session != (
            #[trigger] self.sessions[other]).session
    }

    /// The backend that a workspace is started with: the one chosen for it, else
    /// the configured one.
    pub open spec fn backend_for(self, root: Seq<char>) -> TypeScriptBackend {
        if self.backends.contains_key(root) {
            self.backends[root]
        } else {
            self.config.typescript_backend
        }
    }

    /// What attaching to a workspace calls for. It must be named by an absolute
    /// path; one that was disconnected on purpose is not attached to unless
    /// explicitly.
    pub open spec fn attachment(
        self,
        path: Seq<char>,
        place: Option<PlaceView>,
        explicit: bool,
    ) -> AttachView {
        if !path::is_rooted(path) {
            AttachView::Failed(FailureView::plain(Fault::NotAbsolute))
        } else {
            match place {
                None => AttachView::Find,
                Some(place) => self.attachment_at(place, explicit),
            }
        }
    }

    /// What attaching to a directory calls for.
    pub open spec fn attachment_at(self, place: PlaceView, explicit: bool) -> AttachView {
        if !place.markers.cargo && !place.markers.is_script() {
            AttachView::Failed(FailureView::plain(Fault::NoMarker))
        } else if !explicit && self.disconnected.contains(place.root) {
            AttachView::Failed(FailureView::at(Fault::Disconnected, place.root))
        } else if self.sessions.contains_key(place.root) {
            AttachView::Existing(self.sessions[place.root].session)
        } else {
            AttachView::Start(self.backend_for(place.root))
        }
    }

    /// After a workspace was started.
    pub open spec fn after_attach(self, root: Seq<char>, backend: TypeScriptBackend) -> CoreView {
        CoreView {
            sessions: self.sessions.insert(
                root,
                Connection { session: self.next as u64, backend },
            ),
            disconnected: self.disconnected.remove(root),
            next: self.next + 1,
            ..self
        }
    }

    /// After a workspace was disconnected.
    pub open spec fn after_disconnect(self, root: Seq<char>) -> CoreView {
        CoreView {
            sessions: self.sessions.remove(root),
            disconnected: self.disconnected.insert(root),
            ..self
        }
    }

    /// After a workspace was started anew with another backend.
    pub open spec fn after_backend(self, root: Seq<char>, backend: TypeScriptBackend) -> CoreView {
        CoreView {
            sessions: self.sessions.insert(
                root,
                Connection { session: self.next as u64, backend },
            ),
            backends: self.backends.insert(root, backend),
            next: self.next + 1,
            ..self
        }
    }

    /// Whether something can happen: only a workspace that is not connected is
    /// started, and only a connected one anew.
    pub open spec fn allows(self, event: Event) -> bool {
        match event {
            Event::Attached(root, _) => !self.sessions.contains_key(root) && self.next < u64::MAX,
            Event::Disconnected(_) => true,
            Event::Switched(root, _) => self.sessions.contains_key(root) && self.next < u64::MAX,
        }
    }

    /// After something happened.
    pub open spec fn after(self, event: Event) -> CoreView {
        match event {
            Event::Attached(root, backend) => self.after_attach(root, backend),
            Event::Disconnected(root) => self.after_disconnect(root),
            Event::Switched(root, backend) => self.after_backend(root, backend),
        }
    }

    /// Whether things can happen one after the other.
    pub open spec fn allows_all(self, events: Seq<Event>) -> bool
        decreases events.len(),
    {
        events.len() == 0 || (self.allows(events[0]) && self.after(events[0]).allows_all(
            events.drop_first(),
        ))
    }

    /// After things happened one after the other.
    pub open spec fn after_all(self, events: Seq<Event>) -> CoreView
        decreases events.len(),
    {
        if events.len() == 0 {
            self
        } else {
            self.after(events[0]).after_all(events.drop_first())
        }
    }

    /// What choosing a backend calls for.
    pub open spec fn backend_choice(self, root: Seq<char>, backend: TypeScriptBackend) -> BackendStep {
        if !self.sessions.contains_key(root) {
            BackendStep::Failed(Fault::NotConnected)
        } else if self.sessions[root].backend == backend {
            BackendStep::Unchanged(self.sessions[root].session)
        } else {
            BackendStep::Restart(self.sessions[root].session)
        }
    }
}

/// The answer to a disconnection.
pub open spec fn disconnected_view(root: Seq<char>) -> JsonView {
    JsonView::object().with("workspace"@, JsonView::Text(root)).with(
        "connected"@,
        JsonView::Bool(false),
    )
}

/// A workspace must be named by an absolute path.
pub fn require_absolute(path: &str) -> (r: Result<(), Fault>)
    ensures
        r == if path::is_rooted(path@) {
            Ok(())
        } else {
            Err(Fault::NotAbsolute)
        },
{
    if path::is_absolute(path) {
        Ok(())
    } else {
        Err(Fault::NotAbsolute)
    }
}

impl Core {
    #[verifier::type_invariant]
    pub(crate) open(crate) spec fn well_formed(self) -> bool {
        self@.is_sound()
    }

    /// A bridge without workspaces.
    pub fn new(config: Config) -> (r: Core)
        ensures
            r@ == (CoreView {
                config,
                sessions: Map::empty(),
                disconnected: Set::empty(),
                backends: Map::empty(),
                next: 0,
            }),
    {
        let r = Core {
            config,
            sessions: Table::new(),
            disconnected: Table::new(),
            backends: Table::new(),
            next: 0,
        };
        proof {
            assert(r@ =~= (CoreView {
                config,
                sessions: Map::empty(),
                disconnected: Set::empty(),
                backends: Map::empty(),
                next: 0,
            }));
        }
        r
    }

    /// How workspaces are configured.
    pub fn config(&self) -> (r: &Config)
        ensures
            *r == self@.config,
    {
        &self.config
    }

    /// What attaching to a workspace calls for. `path` is the path that was
    /// given, `place` what is known of the directory.
    pub fn attach(&self, path: &str, place: &Option<Place>, explicit: bool) -> (r: AttachStep)
        ensures
            r@ == self@.attachment(path@, place_view(*place), explicit),
            self@.is_sound(),
    {
        proof {
            use_type_invariant(self);
        }
        match require_absolute(path) {
            Ok(()) => {},
            Err(fault) => {
                return AttachStep::Failed(Failure::plain(fault));
            },
        }
        let place = match place {
            Some(place) => place,
            None => {
                return AttachStep::Find;
            },
        };
        match Language::default_for(place.markers) {
            Ok(_) => {},
            Err(fault) => {
                return AttachStep::Failed(Failure::plain(fault));
            },
        }
        let root = place.root.as_str();
        if !explicit && self.disconnected.contains(root) {
            return AttachStep::Failed(Failure::at(Fault::Disconnected, root));
        }
        match self.sessions.get(root) {
            Some(connection) => {
                return AttachStep::Existing(connection.session);
            },
            None => {},
        }
        match self.backends.get(root) {
            Some(backend) => AttachStep::Start(*backend),
            None => AttachStep::Start(self.config.typescript_backend),
        }
    }

    /// What using a workspace calls for.
    pub fn workspace(&self, path: &str, place: &Option<Place>) -> (r: AttachStep)
        ensures
            r@ == self@.attachment(path@, place_view(*place), false),
    {
        self.attach(path, place, false)
    }

    /// What connecting to a workspace on purpose calls for.
    pub fn connect(&self, path: &str, place: &Option<Place>) -> (r: AttachStep)
        ensures
            r@ == self@.attachment(path@, place_view(*place), true),
    {
        self.attach(path, place, true)
    }

    /// Whether there are numbers left for sessions.
    pub fn has_room(&self) -> (r: bool)
        ensures
            r == (self@.next < u64::MAX),
    {
        self.next < u64::MAX
    }

    /// Notes that a workspace was started, and gives its session a number.
    pub fn attached(&mut self, root: &str, backend: TypeScriptBackend) -> (session: u64)
        requires
            old(self)@.allows(Event::Attached(root@, backend)),
        ensures
            final(self)@ == old(self)@.after_attach(root@, backend),
            final(self)@.is_sound(),
            session == old(self)@.next,
    {
        proof {
            use_type_invariant(&*self);
            law_soundness_is_kept(old(self)@, Event::Attached(root@, backend));
        }
        let session: u64 = self.next;
        let mut sessions: Table<Connection> = Table::new();
        let mut disconnected: Table<bool> = Table::new();
        core::mem::swap(&mut sessions, &mut self.sessions);
        core::mem::swap(&mut disconnected, &mut self.disconnected);
        let _ = disconnected.remove(root);
        sessions.insert(root, Connection { session, backend });
        self.next = session + 1;
        core::mem::swap(&mut disconnected, &mut self.disconnected);
        let ghost after = old(self)@.after_attach(root@, backend);
        proof {
            assert(sessions@ == after.sessions);
            assert(self.disconnected@.dom() =~= after.disconnected);
        }
        core::mem::swap(&mut sessions, &mut self.sessions);
        proof {
            assert(self@ =~= after);
        }
        session
    }

    /// What choosing a backend for a workspace calls for.
    pub fn set_typescript_backend(&self, root: &str, backend: TypeScriptBackend) -> (r: BackendStep)
        ensures
            r == self@.backend_choice(root@, backend),
    {
        match self.sessions.get(root) {
            None => BackendStep::Failed(Fault::NotConnected),
            Some(current) => if current.backend == backend {
                BackendStep::Unchanged(current.session)
            } else {
                BackendStep::Restart(current.session)
            },
        }
    }

    /// Notes that a workspace was started anew with another backend, and gives
    /// its session a number. The choice outlives a disconnection, but not the
    /// bridge.
    pub fn backend_changed(&mut self, root: &str, backend: TypeScriptBackend) -> (session: u64)
        requires
            old(self)@.allows(Event::Switched(root@, backend)),
        ensures
            final(self)@ == old(self)@.after_backend(root@, backend),
            final(self)@.is_sound(),
            session == old(self)@.next,
    {
        proof {
            use_type_invariant(&*self);
            law_soundness_is_kept(old(self)@, Event::Switched(root@, backend));
        }
        let session: u64 = self.next;
        let mut sessions: Table<Connection> = Table::new();
        let mut backends: Table<TypeScriptBackend> = Table::new();
        core::mem::swap(&mut sessions, &mut self.sessions);
        core::mem::swap(&mut backends, &mut self.backends);
        sessions.insert(root, Connection { session, backend });
        backends.insert(root, backend);
        self.next = session + 1;
        core::mem::swap(&mut backends, &mut self.backends);
        let ghost after = old(self)@.after_backend(root@, backend);
        core::mem::swap(&mut sessions, &mut self.sessions);
        proof {
            assert(self@ =~= after);
        }
        session
    }

    /// Disconnects a workspace. The result is the session to stop, if there is
    /// one, and what is answered.
    pub fn disconnect(&mut self, root: &str) -> (r: (Option<u64>, Json))
        ensures
            final(self)@ == old(self)@.after_disconnect(root@),
            final(self)@.is_sound(),
            r.0 == if old(self)@.sessions.contains_key(root@) {
                Some(old(self)@.sessions[root@].session)
            } else {
                None
            },
            r.1@ == disconnected_view(root@),
    {
        proof {
            use_type_invariant(&*self);
            law_soundness_is_kept(old(self)@, Event::Disconnected(root@));
        }
        let mut sessions: Table<Connection> = Table::new();
        let mut disconnected: Table<bool> = Table::new();
        core::mem::swap(&mut sessions, &mut self.sessions);
        core::mem::swap(&mut disconnected, &mut self.disconnected);
        disconnected.insert(root, true);
        let held = match sessions.remove(root) {
            Some(connection) => Some(connection.session),
            None => None,
        };
        core::mem::swap(&mut disconnected, &mut self.disconnected);
        let ghost after = old(self)@.after_disconnect(root@);
        proof {
            assert(self.disconnected@.dom() =~= after.disconnected);
        }
        core::mem::swap(&mut sessions, &mut self.sessions);
        proof {
            assert(self@ =~= after);
        }
        (
            held,
            Json::object().with("workspace", Json::text(root)).with(
                "connected",
                Json::boolean(false),
            ),
        )
    }

    /// The connected workspaces, in the order of their paths.
    pub fn session_roots(&self) -> (r: Vec<String>)
        ensures
            text::texts_view(r@).to_set() == self@.sessions.dom(),
            text::texts_view(r@).no_duplicates(),
            sorted_by(text::texts_view(r@), order::path_order()),
    {
        let roots = self.sessions.key_list();
        proof {
            order::law_arranged_paths(text::texts_view(roots@));
            order::law_arranged_once(text::texts_view(roots@));
        }
        order::arrange(roots)
    }

    /// The session of a workspace, if it is connected.
    pub fn session_of(&self, root: &str) -> (r: Option<u64>)
        ensures
            r == if self@.sessions.contains_key(root@) {
                Some(self@.sessions[root@].session)
            } else {
                None
            },
    {
        match self.sessions.get(root) {
            Some(connection) => Some(connection.session),
            None => None,
        }
    }

    /// What is said of all workspaces, with what is said of each connected one.
    pub fn status(&self, workspaces: Vec<Json>) -> (r: Json)
        ensures
            exists|gone: Seq<Seq<char>>|
                gone.to_set() == self@.disconnected && gone.no_duplicates() && sorted_by(
                    gone,
                    order::path_order(),
                ) && r@ == #[trigger] core_status(views(workspaces@), gone),
    {
        let names = self.disconnected.key_list();
        proof {
            order::law_arranged_paths(text::texts_view(names@));
            order::law_arranged_once(text::texts_view(names@));
        }
        let gone = order::arrange(names);
        let r = Json::object().with("workspaces", Json::array(workspaces)).with(
            "disconnectedWorkspaces",
            Json::texts(&gone),
        );
        proof {
            assert(r@ == core_status(views(workspaces@), text::texts_view(gone@)));
        }
        r
    }
}

/// What is said of all workspaces.
pub open spec fn core_status(workspaces: Seq<JsonView>, gone: Seq<Seq<char>>) -> JsonView {
    JsonView::object().with("workspaces"@, JsonView::Array(workspaces)).with(
        "disconnectedWorkspaces"@,
        JsonView::Array(gone.map_values(|root: Seq<char>| JsonView::Text(root))),
    )
}

/// Whatever happens, no workspace is both connected and disconnected, and no two
/// sessions have the same number.
pub proof fn law_soundness_is_kept(core: CoreView, event: Event)
    requires
        core.is_sound(),
        core.allows(event),
    ensures
        core.after(event).is_sound(),
{
}

/// A workspace must be named by an absolute path.
pub proof fn law_relative_path_is_refused(
    core: CoreView,
    path: Seq<char>,
    place: Option<PlaceView>,
    explicit: bool,
)
    requires
        !path::is_rooted(path),
    ensures
        core.attachment(path, place, explicit) == AttachView::Failed(
            FailureView::plain(Fault::NotAbsolute),
        ),
{
}

/// A session lasts until its workspace is disconnected or started anew.
pub proof fn law_session_lasts(core: CoreView, root: Seq<char>, events: Seq<Event>)
    requires
        core.is_sound(),
        core.sessions.contains_key(root),
        core.allows_all(events),
        forall|i: int| 0 <= i < events.len() ==> (#[trigger] events[i]).spares(root),
    ensures
        core.after_all(events).is_sound(),
        core.after_all(events).sessions.contains_key(root),
        core.after_all(events).sessions[root] == core.sessions[root],
    decreases events.len(),
{
    if events.len() > 0 {
        law_soundness_is_kept(core, events[0]);
        assert(events[0].spares(root));
        let rest = events.drop_first();
        assert forall|i: int| 0 <= i < rest.len() implies (#[trigger] rest[i]).spares(root) by {
            assert(rest[i] == events[i + 1]);
        }
        law_session_lasts(core.after(events[0]), root, rest);
    }
}

/// Attaching to a directory that is attached to already gives its session and
/// starts nothing, by whatever absolute path and whether on purpose or not, as
/// long as it was not disconnected or started anew.
pub proof fn law_attached_again(
    core: CoreView,
    first: Seq<char>,
    second: Seq<char>,
    place: PlaceView,
    seen: PlaceView,
    explicit: bool,
    again: bool,
    events: Seq<Event>,
)
    requires
        core.is_sound(),
        path::is_rooted(second),
        seen.root == place.root,
        seen.markers.cargo || seen.markers.is_script(),
    ensures
        core.attachment(first, Some(place), explicit) matches AttachView::Existing(session) ==> (
        core.allows_all(events) && (forall|i: int|
            0 <= i < events.len() ==> (#[trigger] events[i]).spares(place.root))
            ==> core.after_all(events).attachment(second, Some(seen), again)
            == AttachView::Existing(session)),
        core.attachment(first, Some(place), explicit) matches AttachView::Start(backend) ==> ({
            let begun = core.after_attach(place.root, backend);
            core.next < u64::MAX && begun.allows_all(events) && (forall|i: int|
                0 <= i < events.len() ==> (#[trigger] events[i]).spares(place.root))
                ==> begun.after_all(events).attachment(second, Some(seen), again)
                == AttachView::Existing(core.next as u64)
        }),
{
    let spared = forall|i: int|
        0 <= i < events.len() ==> (#[trigger] events[i]).spares(place.root);
    match core.attachment(first, Some(place), explicit) {
        AttachView::Existing(session) => {
            if core.allows_all(events) && spared {
                law_session_lasts(core, place.root, events);
            }
        },
        AttachView::Start(backend) => {
            let begun = core.after_attach(place.root, backend);
            if core.next < u64::MAX && begun.allows_all(events) && spared {
                law_soundness_is_kept(core, Event::Attached(place.root, backend));
                law_session_lasts(begun, place.root, events);
            }
        },
        _ => {},
    }
}

/// Different directories have different sessions.
pub proof fn law_sessions_are_separate(
    core: CoreView,
    first: Seq<char>,
    second: Seq<char>,
    place: PlaceView,
    other: PlaceView,
    explicit: bool,
    again: bool,
)
    requires
        core.is_sound(),
        place.root != other.root,
    ensures
        match (
            core.attachment(first, Some(place), explicit),
            core.attachment(second, Some(other), again),
        ) {
            (AttachView::Existing(session), AttachView::Existing(another)) => session != another,
            _ => true,
        },
{
}

/// A workspace that was disconnected on purpose is not attached to by merely
/// using it; connecting on purpose starts it again.
pub proof fn law_disconnected_stays_disconnected(core: CoreView, path: Seq<char>, place: PlaceView)
    requires
        path::is_rooted(path),
        place.markers.cargo || place.markers.is_script(),
    ensures
        core.after_disconnect(place.root).attachment(path, Some(place), false)
            == AttachView::Failed(
            FailureView::at(Fault::Disconnected, place.root),
        ),
        core.after_disconnect(place.root).attachment(path, Some(place), true) == AttachView::Start(
            core.backend_for(place.root),
        ),
{
}

/// A chosen backend outlives a disconnection.
pub proof fn law_backend_outlives_disconnection(
    core: CoreView,
    path: Seq<char>,
    place: PlaceView,
    backend: TypeScriptBackend,
)
    requires
        path::is_rooted(path),
        place.markers.cargo || place.markers.is_script(),
    ensures
        core.after_backend(place.root, backend).after_disconnect(place.root).attachment(
            path,
            Some(place),
            true,
        ) == AttachView::Start(backend),
{
}

/// Workspaces are separate: what happens to one does not matter to another.
pub proof fn law_workspaces_are_separate(
    core: CoreView,
    event: Event,
    path: Seq<char>,
    place: PlaceView,
    explicit: bool,
)
    requires
        match event {
            Event::Attached(root, _) => root != place.root,
            Event::Disconnected(root) => root != place.root,
            Event::Switched(root, _) => root != place.root,
        },
    ensures
        core.after(event).attachment(path, Some(place), explicit) == core.attachment(
            path,
            Some(place),
            explicit,
        ),
{
}

/// Choosing a backend starts a connected workspace anew if it runs with another, and
/// then it runs with the chosen one.
pub proof fn law_backends_are_switched(core: CoreView, root: Seq<char>, backend: TypeScriptBackend)
    ensures
        !core.sessions.contains_key(root) ==> core.backend_choice(root, backend)
            == BackendStep::Failed(Fault::NotConnected),
        core.sessions.contains_key(root) && core.sessions[root].backend == backend
            ==> core.backend_choice(root, backend) == BackendStep::Unchanged(
            core.sessions[root].session,
        ),
        core.sessions.contains_key(root) && core.sessions[root].backend != backend
            ==> core.backend_choice(root, backend) == BackendStep::Restart(
            core.sessions[root].session,
        ),
        core.after_backend(root, backend).backend_choice(root, backend) is Unchanged,
{
}

/// A directory with a project file that is neither connected nor disconnected is started
/// with the backend chosen for it, or the configured one.
pub proof fn law_new_workspaces_are_started(core: CoreView, path: Seq<char>, place: PlaceView, explicit: bool)
    requires
        path.len() > 0,
        path[0] == '/',
        place.markers.cargo || place.markers.tsconfig || place.markers.jsconfig
            || place.markers.package,
        !core.sessions.contains_key(place.root),
        explicit || !core.disconnected.contains(place.root),
    ensures
        core.attachment(path, Some(place), explicit) == AttachView::Start(
            if core.backends.contains_key(place.root) {
                core.backends[place.root]
            } else {
                core.config.typescript_backend
            },
        ),
        core.attachment(path, None, explicit) is Find,
{
}

/// The answers tell which workspace was disconnected, and all that are.
pub proof fn law_disconnections_are_told(
    root: Seq<char>,
    workspaces: Seq<JsonView>,
    gone: Seq<Seq<char>>,
    i: int,
)
    ensures
        disconnected_view(root).field("workspace"@) == JsonView::Text(root),
        disconnected_view(root).field("connected"@) == JsonView::Bool(false),
        core_status(workspaces, gone).field("workspaces"@) == JsonView::Array(workspaces),
        core_status(workspaces, gone).field("disconnectedWorkspaces"@) is Array,
        core_status(workspaces, gone).field("disconnectedWorkspaces"@)->Array_0.len() == gone.len(),
        0 <= i < gone.len() ==> core_status(workspaces, gone).field(
            "disconnectedWorkspaces"@,
        )->Array_0[i] == JsonView::Text(gone[i]),
{
    reveal_strlit("workspace");
    reveal_strlit("connected");
    reveal_strlit("workspaces");
    reveal_strlit("disconnectedWorkspaces");
    assert("workspace"@.len() == 9);
    assert("connected"@.len() == 9);
    assert("workspaces"@.len() == 10);
    assert("disconnectedWorkspaces"@.len() == 22);
    assert("workspace"@[0] == 'w');
    assert("connected"@[0] == 'c');
}

} // verus!
