//! The gateway registry: the language servers that were spawned, their
//! lifecycle, and the checks made before a message is sent to one.

use vstd::prelude::*;

verus! {

/// How a language server was started.
pub struct LanguageServerProcess {
    pub id: String,
    pub command: String,
    pub args: Vec<String>,
    pub language: String,
}

/// Where a server is in its life.
#[derive(Clone, Copy, Debug, PartialEq, Eq, Structural)]
pub enum ServerState {
    Starting,
    Running,
    /// A write to its input failed; nothing more is sent to it.
    Degraded,
    Stopping,
    Stopped,
    Crashed,
}

/// What happens to a server.
#[derive(Clone, Copy, Debug, PartialEq, Eq, Structural)]
pub enum LifecycleEvent {
    /// Its reader loops are confirmed alive.
    ReadersAlive,
    /// Its output closed, or it exited, without being asked to stop.
    StreamClosed,
    /// A write to its input failed.
    WriteFailed,
    /// It is asked to stop.
    StopRequested,
    /// It has exited after being asked to stop.
    Exited,
}

/// The state after `e` in state `s`. A closed stream crashes a server that
/// was starting, running or degraded; a failed write degrades a running
/// server; a server that is stopping, stopped or crashed
/// never goes back.
pub open spec fn next_state(s: ServerState, e: LifecycleEvent) -> ServerState {
    match (s, e) {
        (ServerState::Starting, LifecycleEvent::ReadersAlive) => ServerState::Running,
        (ServerState::Starting, LifecycleEvent::StreamClosed) => ServerState::Crashed,
        (ServerState::Running, LifecycleEvent::StreamClosed) => ServerState::Crashed,
        (ServerState::Degraded, LifecycleEvent::StreamClosed) => ServerState::Crashed,
        (ServerState::Running, LifecycleEvent::WriteFailed) => ServerState::Degraded,
        (ServerState::Starting, LifecycleEvent::StopRequested) => ServerState::Stopping,
        (ServerState::Running, LifecycleEvent::StopRequested) => ServerState::Stopping,
        (ServerState::Degraded, LifecycleEvent::StopRequested) => ServerState::Stopping,
        (ServerState::Stopping, LifecycleEvent::Exited) => ServerState::Stopped,
        (ServerState::Stopping, LifecycleEvent::StreamClosed) => ServerState::Stopped,
        _ => s,
    }
}

/// The order in which states follow one another; `Crashed` stands beside
/// `Stopping` and `Stopped` as an end.
pub open spec fn rank(s: ServerState) -> int {
    match s {
        ServerState::Starting => 0,
        ServerState::Running => 1,
        ServerState::Degraded => 2,
        ServerState::Stopping => 3,
        ServerState::Stopped => 4,
        ServerState::Crashed => 4,
    }
}

/// The state after `e` in state `s`.
pub fn advance(s: ServerState, e: LifecycleEvent) -> (r: ServerState)
    ensures
        r == next_state(s, e),
        rank(s) <= rank(r),
{
    match (s, e) {
        (ServerState::Starting, LifecycleEvent::ReadersAlive) => ServerState::Running,
        (ServerState::Starting, LifecycleEvent::StreamClosed) => ServerState::Crashed,
        (ServerState::Running, LifecycleEvent::StreamClosed) => ServerState::Crashed,
        (ServerState::Degraded, LifecycleEvent::StreamClosed) => ServerState::Crashed,
        (ServerState::Running, LifecycleEvent::WriteFailed) => ServerState::Degraded,
        (ServerState::Starting, LifecycleEvent::StopRequested) => ServerState::Stopping,
        (ServerState::Running, LifecycleEvent::StopRequested) => ServerState::Stopping,
        (ServerState::Degraded, LifecycleEvent::StopRequested) => ServerState::Stopping,
        (ServerState::Stopping, LifecycleEvent::Exited) => ServerState::Stopped,
        (ServerState::Stopping, LifecycleEvent::StreamClosed) => ServerState::Stopped,
        _ => s,
    }
}

/// A registered server.
pub struct ServerDescriptor {
    pub process: LanguageServerProcess,
    pub state: ServerState,
}

/// A registered server, as a mathematical value.
pub struct DescriptorView {
    pub id: Seq<char>,
    pub command: Seq<char>,
    pub args: Seq<Seq<char>>,
    pub language: Seq<char>,
    pub state: ServerState,
}

/// The texts of a vector of strings.
pub open spec fn texts_of(v: Seq<String>) -> Seq<Seq<char>> {
    v.map_values(|s: String| s@)
}

impl View for ServerDescriptor {
    type V = DescriptorView;

    open spec fn view(&self) -> DescriptorView {
        DescriptorView {
            id: self.process.id@,
            command: self.process.command@,
            args: texts_of(self.process.args@),
            language: self.process.language@,
            state: self.state,
        }
    }
}

/// The mathematical values of a sequence of descriptors.
pub open spec fn descriptors_of(v: Seq<ServerDescriptor>) -> Seq<DescriptorView> {
    v.map_values(|d: ServerDescriptor| d@)
}

/// No two servers share an id.
pub open spec fn ids_unique(s: Seq<DescriptorView>) -> bool {
    forall|i: int, j: int|
        #![trigger s[i], s[j]]
        0 <= i < s.len() && 0 <= j < s.len() && i != j ==> s[i].id != s[j].id
}

/// The index of the server with id `id`.
pub open spec fn server_index(s: Seq<DescriptorView>, id: Seq<char>) -> Option<int>
    decreases s.len(),
{
    if s.len() == 0 {
        None
    } else if s.last().id == id {
        Some(s.len() - 1)
    } else {
        server_index(s.drop_last(), id)
    }
}

/// Why the registry refused an operation.
#[derive(Clone, Copy, Debug, PartialEq, Eq, Structural)]
pub enum RegistryError {
    /// A server with that id is registered already.
    DuplicateId,
    /// No server has that id.
    NotFound,
    /// The server is not running.
    NotRunning,
}

/// Whether a message can be sent to server `id`: `NotFound` when no
/// server has that id, `NotRunning` when it is not running.
pub open spec fn send_check(s: Seq<DescriptorView>, id: Seq<char>) -> Result<(), RegistryError> {
    match server_index(s, id) {
        None => Err(RegistryError::NotFound),
        Some(i) => if s[i].state == ServerState::Running {
            Ok(())
        } else {
            Err(RegistryError::NotRunning)
        },
    }
}

pub proof fn lemma_server_index(s: Seq<DescriptorView>, id: Seq<char>)
    ensures
        match server_index(s, id) {
            Some(i) => 0 <= i < s.len() && s[i].id == id,
            None => forall|j: int| 0 <= j < s.len() ==> (#[trigger] s[j]).id != id,
        },
    decreases s.len(),
{
    if s.len() > 0 && s.last().id != id {
        lemma_server_index(s.drop_last(), id);
        if server_index(s, id) is None {
            assert forall|j: int| 0 <= j < s.len() implies (#[trigger] s[j]).id != id by {
                if j < s.len() - 1 {
                    assert(s[j] == s.drop_last()[j]);
                }
            }
        }
    }
}

/// The servers that were spawned and not yet shut down.
pub struct Registry {
    servers: Vec<ServerDescriptor>,
}

impl View for Registry {
    type V = Seq<DescriptorView>;

    closed spec fn view(&self) -> Seq<DescriptorView> {
        descriptors_of(self.servers@)
    }
}

impl Registry {
    /// No two servers share an id.
    pub closed spec fn wf(&self) -> bool {
        ids_unique(self@)
    }

    /// An empty registry.
    pub fn new() -> (r: Registry)
        ensures
            r.wf(),
            r@ == Seq::<DescriptorView>::empty(),
    {
        let r = Registry { servers: Vec::new() };
        assert(r@ =~= Seq::<DescriptorView>::empty());
        r
    }

    /// How many servers are registered.
    pub fn len(&self) -> (r: usize)
        ensures
            r == self@.len(),
    {
        self.servers.len()
    }

    fn find(&self, id: &String) -> (r: Option<usize>)
        ensures
            match r {
                Some(i) => server_index(self@, id@) == Some(i as int),
                None => server_index(self@, id@) is None,
            },
    {
        let mut i: usize = self.servers.len();
        assert(self@.take(i as int) =~= self@);
        while i > 0
            invariant
                0 <= i <= self.servers@.len(),
                server_index(self@, id@) == server_index(self@.take(i as int), id@),
            decreases i,
        {
            assert(self@[i - 1] == self.servers@[i - 1]@);
            if self.servers[i - 1].process.id == *id {
                assert(self@.take(i as int).last() == self@[i - 1]);
                return Some(i - 1);
            }
            assert(self@.take(i as int).drop_last() =~= self@.take(i - 1));
            i = i - 1;
        }
        None
    }

    /// Registers a server that is being spawned, in state `Starting`; fails
    /// when its id is taken.
    pub fn insert(&mut self, process: LanguageServerProcess) -> (r: Result<(), RegistryError>)
        requires
            old(self).wf(),
        ensures
            final(self).wf(),
            r is Ok <==> server_index(old(self)@, process.id@) is None,
            r is Ok ==> final(self)@ == old(self)@.push(
                ServerDescriptor { process, state: ServerState::Starting }@,
            ),
            r is Err ==> r == Err::<(), RegistryError>(RegistryError::DuplicateId) && final(self)@
                == old(self)@,
    {
        match self.find(&process.id) {
            Some(_) => Err(RegistryError::DuplicateId),
            None => {
                proof {
                    lemma_server_index(self@, process.id@);
                }
                let d = ServerDescriptor { process, state: ServerState::Starting };
                let ghost dv = d@;
                self.servers.push(d);
                assert(self@ =~= old(self)@.push(dv));
                Ok(())
            },
        }
    }

    /// The state of server `id`, if it is registered.
    pub fn state_of(&self, id: &String) -> (r: Option<ServerState>)
        ensures
            r == match server_index(self@, id@) {
                Some(i) => Some(self@[i].state),
                None => None::<ServerState>,
            },
    {
        match self.find(id) {
            Some(i) => {
                proof {
                    lemma_server_index(self@, id@);
                }
                assert(self@[i as int] == self.servers@[i as int]@);
                Some(self.servers[i].state)
            },
            None => None,
        }
    }

    /// Whether a message can be sent to server `id` now.
    pub fn check_send(&self, id: &String) -> (r: Result<(), RegistryError>)
        ensures
            r == send_check(self@, id@),
    {
        match self.find(id) {
            Some(i) => {
                proof {
                    lemma_server_index(self@, id@);
                }
                assert(self@[i as int] == self.servers@[i as int]@);
                if self.servers[i].state == ServerState::Running {
                    Ok(())
                } else {
                    Err(RegistryError::NotRunning)
                }
            },
            None => Err(RegistryError::NotFound),
        }
    }

    /// Applies a lifecycle event to server `id` and returns its new state.
    pub fn apply(&mut self, id: &String, e: LifecycleEvent) -> (r: Result<ServerState, RegistryError>)
        requires
            old(self).wf(),
        ensures
            final(self).wf(),
            match server_index(old(self)@, id@) {
                Some(i) => {
                    let d = old(self)@[i];
                    let s = next_state(d.state, e);
                    &&& r == Ok::<ServerState, RegistryError>(s)
                    &&& final(self)@ == old(self)@.update(i, DescriptorView { state: s, ..d })
                },
                None => r == Err::<ServerState, RegistryError>(RegistryError::NotFound)
                    && final(self)@ == old(self)@,
            },
    {
        match self.find(id) {
            Some(i) => {
                proof {
                    lemma_server_index(self@, id@);
                }
                let ghost d = old(self)@[i as int];
                assert(d == self.servers@[i as int]@);
                let s = advance(self.servers[i].state, e);
                self.servers[i].state = s;
                assert(self@ =~= old(self)@.update(i as int, DescriptorView { state: s, ..d }));
                Ok(s)
            },
            None => Err(RegistryError::NotFound),
        }
    }

    /// Takes server `id` out of the registry.
    pub fn remove(&mut self, id: &String) -> (r: Option<ServerDescriptor>)
        requires
            old(self).wf(),
        ensures
            final(self).wf(),
            match server_index(old(self)@, id@) {
                Some(i) => r matches Some(d) && d@ == old(self)@[i] && final(self)@ == old(
                    self,
                )@.remove(i),
                None => r is None && final(self)@ == old(self)@,
            },
    {
        match self.find(id) {
            Some(i) => {
                proof {
                    lemma_server_index(self@, id@);
                }
                let d = self.servers.remove(i);
                assert(self@ =~= old(self)@.remove(i as int));
                proof {
                    let s = old(self)@;
                    let t = self@;
                    assert forall|a: int, b: int|
                        #![trigger t[a], t[b]]
                        0 <= a < t.len() && 0 <= b < t.len() && a != b implies t[a].id
                        != t[b].id by {
                        let a2 = if a < i { a } else { a + 1 };
                        let b2 = if b < i { b } else { b + 1 };
                        assert(t[a] == s[a2] && t[b] == s[b2]);
                    }
                }
                Some(d)
            },
            None => None,
        }
    }

    /// Takes every server out of the registry, in registration order, to
    /// shut them all down.
    pub fn drain(&mut self) -> (r: Vec<ServerDescriptor>)
        ensures
            final(self).wf(),
            final(self)@ == Seq::<DescriptorView>::empty(),
            descriptors_of(r@) == old(self)@,
    {
        let mut all: Vec<ServerDescriptor> = Vec::new();
        std::mem::swap(&mut all, &mut self.servers);
        assert(self@ =~= Seq::<DescriptorView>::empty());
        all
    }
}

} // verus!
