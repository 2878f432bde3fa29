use vstd::prelude::*;
use crate::protocols::{DistributorClientMessages, DistributorServerMessages, Endpoint};

verus! {

/// One open lobby: its place in the registry, the endpoint its session takes
/// connections on, and the endpoint clients send datagrams to.
#[derive(Debug, Clone, Copy, PartialEq, Eq, Structural)]
pub struct Lobby {
    pub id: usize,
    pub control: Endpoint,
    pub data: Endpoint,
}

#[derive(Debug, Clone, Copy, PartialEq, Eq, Structural)]
pub enum DistributorError {
    /// Fewer than two endpoints are left in the pool.
    ResourceExhausted,
}

/// The distributor's state in the abstract: the pool of endpoints not yet
/// given out, the endpoint clients reach the distributor on, and the lobbies
/// opened so far, oldest first.
pub struct Registry {
    pub free: Seq<Endpoint>,
    pub main: Endpoint,
    pub lobbies: Seq<Lobby>,
}

impl Registry {
    /// Each lobby knows its own place in the registry, and every endpoint
    /// ever pooled can be counted in a `usize`.
    pub open spec fn wf(self) -> bool {
        &&& forall|i: int| 0 <= i < self.lobbies.len() ==> (#[trigger] self.lobbies[i]).id == i
        &&& self.capacity() <= usize::MAX
    }

    /// The endpoints a lobby takes come from the pool; each lobby uses one pair.
    pub open spec fn capacity(self) -> nat {
        self.free.len() + 2 * self.lobbies.len()
    }

    /// The data endpoint of every lobby, in registry order.
    pub open spec fn lobby_list(self) -> Seq<Endpoint> {
        self.lobbies.map_values(|l: Lobby| l.data)
    }

    /// Opening a lobby: the last endpoint of the pool becomes its data
    /// endpoint, the one before it its control endpoint, and the lobby is
    /// appended. With fewer than two endpoints nothing changes.
    pub open spec fn open_lobby(self) -> (Registry, Result<usize, DistributorError>) {
        let n = self.free.len();
        if n < 2 {
            (self, Err(DistributorError::ResourceExhausted))
        } else {
            let lobby = Lobby {
                id: self.lobbies.len() as usize,
                control: self.free[n - 2],
                data: self.free[n - 1],
            };
            (
                Registry {
                    free: self.free.take(n - 2),
                    main: self.main,
                    lobbies: self.lobbies.push(lobby),
                },
                Ok(self.lobbies.len() as usize),
            )
        }
    }

    /// The registry after one request.
    pub open spec fn handle(self, msg: DistributorClientMessages) -> Registry {
        match msg {
            DistributorClientMessages::AskForLobbies => self,
            DistributorClientMessages::OpenLobby => self.open_lobby().0,
        }
    }

    /// The registry after a sequence of requests, in order.
    pub open spec fn handle_all(self, msgs: Seq<DistributorClientMessages>) -> Registry
        decreases msgs.len(),
    {
        if msgs.len() == 0 {
            self
        } else {
            self.handle_all(msgs.drop_last()).handle(msgs.last())
        }
    }

    /// No endpoint is held twice: the pool has no duplicates, the
    /// distributor's own endpoint is nowhere else, no lobby endpoint is in the
    /// pool, and no two lobbies, nor the two sides of one, share an endpoint.
    pub open spec fn distinct(self) -> bool {
        &&& self.free.no_duplicates()
        &&& !self.free.contains(self.main)
        &&& forall|i: int, j: int|
            #![trigger self.lobbies[i], self.free[j]]
            0 <= i < self.lobbies.len() && 0 <= j < self.free.len() ==> self.free[j]
                != self.lobbies[i].control && self.free[j] != self.lobbies[i].data
        &&& forall|i: int|
            0 <= i < self.lobbies.len() ==> (#[trigger] self.lobbies[i]).control
                != self.lobbies[i].data && self.lobbies[i].control != self.main
                && self.lobbies[i].data != self.main
        &&& forall|i: int, j: int|
            0 <= i < self.lobbies.len() && 0 <= j < self.lobbies.len() && i != j
                ==> (#[trigger] self.lobbies[i]).control != (#[trigger] self.lobbies[j]).control
                && self.lobbies[i].data != self.lobbies[j].data && self.lobbies[i].control
                != self.lobbies[j].data
    }
}

/// Opening a lobby keeps the registry well formed and its capacity unchanged.
pub proof fn lemma_open_preserves(r: Registry)
    requires
        r.wf(),
    ensures
        r.open_lobby().0.wf(),
        r.open_lobby().0.capacity() == r.capacity(),
        r.open_lobby().0.main == r.main,
        r.open_lobby().1 is Ok <==> r.free.len() >= 2,
{
}

/// Opening a lobby never hands out an endpoint that is held elsewhere.
pub proof fn lemma_open_keeps_distinct(r: Registry)
    requires
        r.distinct(),
    ensures
        r.open_lobby().0.distinct(),
{
    let n = r.free.len();
    if n >= 2 {
        let s = r.open_lobby().0;
        let k = r.lobbies.len();
        assert(s.lobbies[k as int] == s.lobbies.last());
        assert forall|i: int, j: int|
            #![trigger s.lobbies[i], s.free[j]]
            0 <= i < s.lobbies.len() && 0 <= j < s.free.len() implies s.free[j]
            != s.lobbies[i].control && s.free[j] != s.lobbies[i].data by {
            assert(s.free[j] == r.free[j]);
            if i < k {
                assert(s.lobbies[i] == r.lobbies[i]);
            }
        }
        assert forall|i: int| 0 <= i < s.lobbies.len() implies (#[trigger] s.lobbies[i]).control
            != s.lobbies[i].data && s.lobbies[i].control != s.main && s.lobbies[i].data
            != s.main by {
            if i < k {
                assert(s.lobbies[i] == r.lobbies[i]);
            } else {
                assert(r.free.contains(r.free[n - 1]));
                assert(r.free.contains(r.free[n - 2]));
            }
        }
        assert forall|i: int, j: int|
            0 <= i < s.lobbies.len() && 0 <= j < s.lobbies.len() && i != j implies (
            #[trigger] s.lobbies[i]).control != (#[trigger] s.lobbies[j]).control
            && s.lobbies[i].data != s.lobbies[j].data && s.lobbies[i].control
            != s.lobbies[j].data by {
            if i < k {
                assert(s.lobbies[i] == r.lobbies[i]);
            }
            if j < k {
                assert(s.lobbies[j] == r.lobbies[j]);
            }
        }
        assert(s.free.no_duplicates());
        assert(!s.free.contains(s.main)) by {
            if s.free.contains(s.main) {
                let j = choose|j: int| 0 <= j < s.free.len() && s.free[j] == s.main;
                assert(r.free[j] == r.main);
            }
        }
    }
}

/// Allocations are bounded by the pool: from a fresh registry, whatever the
/// requests, at most half the pool's endpoints (rounded down) become lobbies,
/// and once that many are open the next request to open one fails.
pub proof fn lemma_allocations_bounded(r: Registry, msgs: Seq<DistributorClientMessages>)
    requires
        r.wf(),
        r.lobbies.len() == 0,
    ensures
        r.handle_all(msgs).lobbies.len() <= r.free.len() / 2,
        r.handle_all(msgs).lobbies.len() == r.free.len() / 2 ==> r.handle_all(
            msgs,
        ).open_lobby().1 is Err,
{
    lemma_handle_all_preserves(r, msgs);
}

/// Any sequence of requests keeps the registry well formed and its capacity.
pub proof fn lemma_handle_all_preserves(r: Registry, msgs: Seq<DistributorClientMessages>)
    requires
        r.wf(),
    ensures
        r.handle_all(msgs).wf(),
        r.handle_all(msgs).capacity() == r.capacity(),
    decreases msgs.len(),
{
    if msgs.len() > 0 {
        lemma_handle_all_preserves(r, msgs.drop_last());
        lemma_open_preserves(r.handle_all(msgs.drop_last()));
    }
}

/// Endpoints are exclusive: from a registry where no endpoint is held twice,
/// whatever the requests, no lobby's endpoints are in the pool and no two
/// lobbies share one.
pub proof fn lemma_endpoints_exclusive(r: Registry, msgs: Seq<DistributorClientMessages>)
    requires
        r.distinct(),
    ensures
        r.handle_all(msgs).distinct(),
    decreases msgs.len(),
{
    if msgs.len() > 0 {
        lemma_endpoints_exclusive(r, msgs.drop_last());
        lemma_open_keeps_distinct(r.handle_all(msgs.drop_last()));
    }
}

/// Listing before any lobby is opened gives nothing; after the first lobby
/// is opened it gives exactly that lobby's data endpoint.
pub proof fn lemma_first_listing(r: Registry)
    requires
        r.lobbies.len() == 0,
    ensures
        r.lobby_list() == Seq::<Endpoint>::empty(),
        r.open_lobby().1 is Ok ==> r.open_lobby().0.lobby_list() == seq![
            r.open_lobby().0.lobbies[r.open_lobby().1->Ok_0 as int].data,
        ],
{
    assert(r.lobby_list() =~= Seq::<Endpoint>::empty());
    if r.open_lobby().1 is Ok {
        assert(r.open_lobby().0.lobby_list() =~= seq![r.open_lobby().0.lobbies[0].data]);
    }
}

/// The registry a distributor keeps: the pool of free endpoints, its own
/// endpoint, and every lobby opened so far.
pub struct Distributer {
    free: Vec<Endpoint>,
    main: Endpoint,
    lobbies: Vec<Lobby>,
}

impl View for Distributer {
    type V = Registry;

    closed spec fn view(&self) -> Registry {
        Registry { free: self.free@, main: self.main, lobbies: self.lobbies@ }
    }
}

impl Distributer {
    /// The first endpoint is the distributor's own; the others seed the pool.
    pub fn new(addresses: Vec<Endpoint>) -> (r: Distributer)
        requires
            addresses@.len() >= 1,
        ensures
            r@.main == addresses@[0],
            r@.free == addresses@.skip(1),
            r@.lobbies.len() == 0,
            r@.wf(),
            addresses@.no_duplicates() ==> r@.distinct(),
    {
        let main = addresses[0];
        let mut free: Vec<Endpoint> = Vec::new();
        let mut i: usize = 1;
        while i < addresses.len()
            invariant
                1 <= i <= addresses.len(),
                free@ == addresses@.subrange(1, i as int),
            decreases addresses.len() - i,
        {
            free.push(addresses[i]);
            i = i + 1;
        }
        assert(free@ =~= addresses@.skip(1));
        let r = Distributer { free, main, lobbies: Vec::new() };
        proof {
            if addresses@.no_duplicates() {
                assert(!r@.free.contains(r@.main)) by {
                    if r@.free.contains(r@.main) {
                        let j = choose|j: int| 0 <= j < r@.free.len() && r@.free[j] == r@.main;
                        assert(addresses@[j + 1] == addresses@[0]);
                    }
                }
                assert forall|a: int, b: int|
                    0 <= a < r@.free.len() && 0 <= b < r@.free.len() && a != b implies r@.free[a]
                    != r@.free[b] by {
                    assert(r@.free[a] == addresses@[a + 1]);
                    assert(r@.free[b] == addresses@[b + 1]);
                }
            }
        }
        r
    }

    /// Takes two endpoints from the pool for a new lobby, records it, and
    /// returns its index. With fewer than two endpoints left it fails and
    /// changes nothing.
    pub fn try_open_lobby(&mut self) -> (r: Result<usize, DistributorError>)
        requires
            old(self)@.wf(),
        ensures
            (final(self)@, r) == old(self)@.open_lobby(),
            final(self)@.wf(),
            r is Err <==> old(self)@.free.len() < 2,
    {
        if self.free.len() < 2 {
            return Err(DistributorError::ResourceExhausted);
        }
        let data = self.free.pop().unwrap();
        let control = self.free.pop().unwrap();
        let id = self.lobbies.len();
        self.lobbies.push(Lobby { id, control, data });
        proof {
            assert(self@.free =~= old(self)@.open_lobby().0.free);
            assert(self@.lobbies =~= old(self)@.open_lobby().0.lobbies);
            lemma_open_preserves(old(self)@);
        }
        Ok(id)
    }

    /// The data endpoint of every lobby, oldest first.
    pub fn list_lobbies(&self) -> (r: Vec<Endpoint>)
        ensures
            r@ == self@.lobby_list(),
    {
        let mut out: Vec<Endpoint> = Vec::new();
        let mut i: usize = 0;
        while i < self.lobbies.len()
            invariant
                0 <= i <= self.lobbies.len(),
                out@ == self@.lobby_list().take(i as int),
            decreases self.lobbies.len() - i,
        {
            out.push(self.lobbies[i].data);
            i = i + 1;
            assert(out@ =~= self@.lobby_list().take(i as int));
        }
        assert(out@ =~= self@.lobby_list());
        out
    }

    /// Answers one request. Asking for lobbies lists them; opening a lobby
    /// answers with its data endpoint, or with nothing when the pool is
    /// exhausted.
    pub fn handle_request(&mut self, msg: DistributorClientMessages) -> (r: Option<
        DistributorServerMessages,
    >)
        requires
            old(self)@.wf(),
        ensures
            final(self)@ == old(self)@.handle(msg),
            final(self)@.wf(),
            msg == DistributorClientMessages::AskForLobbies ==> (r matches Some(
                DistributorServerMessages::Lobbies(v),
            ) && v@ == old(self)@.lobby_list()),
            msg == DistributorClientMessages::OpenLobby ==> match old(self)@.open_lobby().1 {
                Ok(i) => r == Some(DistributorServerMessages::LobbyOpened(final(self)@.lobbies[i as int].data)),
                Err(_) => r is None,
            },
    {
        match msg {
            DistributorClientMessages::AskForLobbies => {
                Some(DistributorServerMessages::Lobbies(self.list_lobbies()))
            },
            DistributorClientMessages::OpenLobby => {
                match self.try_open_lobby() {
                    Ok(i) => Some(DistributorServerMessages::LobbyOpened(self.lobbies[i].data)),
                    Err(_) => None,
                }
            },
        }
    }

    /// The distributor's own endpoint.
    pub fn main_endpoint(&self) -> (r: Endpoint)
        ensures
            r == self@.main,
    {
        self.main
    }

    /// The lobby at index `i`.
    pub fn lobby(&self, i: usize) -> (r: Lobby)
        requires
            i < self@.lobbies.len(),
        ensures
            r == self@.lobbies[i as int],
    {
        self.lobbies[i]
    }

    /// The number of lobbies opened so far.
    pub fn lobby_count(&self) -> (r: usize)
        ensures
            r == self@.lobbies.len(),
    {
        self.lobbies.len()
    }

    /// The endpoints still in the pool.
    pub fn free_endpoints(&self) -> (r: Vec<Endpoint>)
        ensures
            r@ == self@.free,
    {
        self.free.clone()
    }
}

/// What one poll of a session's datagram endpoint gave.
#[derive(Debug, Clone, Copy, PartialEq, Eq, Structural)]
pub enum Poll {
    /// A datagram of this many bytes arrived.
    Received(usize),
    /// Nothing is waiting yet.
    WouldBlock,
    /// The endpoint failed.
    Failed,
    /// The session was told to stop.
    Stopped,
}

/// What a session does next.
#[derive(Debug, Clone, Copy, PartialEq, Eq, Structural)]
pub enum SessionAction {
    /// Send the first this many bytes back to whoever sent them.
    Echo(usize),
    /// Poll again.
    Retry,
    /// End the session loop.
    Finish,
}

/// The session's answer to one poll: echo what arrived, poll again when
/// nothing has, and end on a stop signal or any other failure.
pub fn session_action(poll: Poll) -> (r: SessionAction)
    ensures
        r == match poll {
            Poll::Received(n) => SessionAction::Echo(n),
            Poll::WouldBlock => SessionAction::Retry,
            Poll::Failed => SessionAction::Finish,
            Poll::Stopped => SessionAction::Finish,
        },
{
    match poll {
        Poll::Received(n) => SessionAction::Echo(n),
        Poll::WouldBlock => SessionAction::Retry,
        Poll::Failed => SessionAction::Finish,
        Poll::Stopped => SessionAction::Finish,
    }
}

} // verus!
