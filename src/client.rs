use vstd::prelude::*;

use crate::command::{after_sample, CommandAccumulator, KeyCommand};
use crate::store::{moved, EntityStore, PointActor, PointActorColor};

verus! {

/// Credentials the client presents when it opens a session.
#[derive(Clone, Debug)]
pub struct AuthEvent {
    pub username: String,
    pub password: String,
}

impl AuthEvent {
    pub fn new(username: &str, password: &str) -> (r: AuthEvent)
        ensures
            r.username@ == username@,
            r.password@ == password@,
    {
        AuthEvent { username: username.to_string(), password: password.to_string() }
    }
}

/// Payloads of the example protocol.
#[derive(Clone, Debug)]
pub enum ExampleEvent {
    AuthEvent(AuthEvent),
    KeyCommand(KeyCommand),
}

/// What the network session reports, in the order it happened.
#[derive(Clone, Debug)]
pub enum ClientEvent {
    Connection,
    Disconnection,
    /// One fixed-rate simulation step: the only moment a command is sent.
    Tick,
    AssignPawn(u16),
    UnassignPawn(u16),
    /// A command replayed by the server on the pawn under the key.
    Command(u16, ExampleEvent),
    CreateActor(u16, PointActor),
    UpdateActor(u16, PointActor),
    DeleteActor(u16),
    CreatePawn(u16, PointActor),
    DeletePawn(u16),
}

/// A failure that the session reports in place of an event.
#[derive(Clone, Debug)]
pub struct TransportError {
    pub message: String,
}

/// A command to be sent to the server for the pawn under `pawn_key`.
#[derive(Clone, Copy, Debug, PartialEq, Eq, Structural)]
pub struct Outgoing {
    pub pawn_key: u16,
    pub command: KeyCommand,
}

/// The client's state, as contracts see it.
pub struct ClientView {
    pub connected: bool,
    pub pawn_key: Option<u16>,
    pub pending: Option<KeyCommand>,
    pub actors: Map<u16, PointActor>,
    pub pawns: Map<u16, PointActor>,
}

/// The state after one frame's input sample.
pub open spec fn sampled(m: ClientView, w: bool, s: bool, a: bool, d: bool) -> ClientView {
    ClientView { pending: after_sample(m.pending, w, s, a, d), ..m }
}

/// The state after one event, and the command sent on it, if any.
pub open spec fn step(m: ClientView, e: ClientEvent) -> (ClientView, Option<Outgoing>) {
    match e {
        ClientEvent::Connection => (ClientView { connected: true, ..m }, None),
        ClientEvent::Disconnection => (ClientView { connected: false, ..m }, None),
        ClientEvent::Tick => match (m.pawn_key, m.pending) {
            (Some(k), Some(c)) => (
                ClientView { pending: None, ..m },
                Some(Outgoing { pawn_key: k, command: c }),
            ),
            _ => (m, None),
        },
        ClientEvent::AssignPawn(k) => (ClientView { pawn_key: Some(k), ..m }, None),
        ClientEvent::UnassignPawn(_) => (ClientView { pawn_key: None, ..m }, None),
        ClientEvent::Command(k, ExampleEvent::KeyCommand(c)) => if m.pawns.contains_key(k) {
            (ClientView { pawns: m.pawns.insert(k, moved(m.pawns[k], c)), ..m }, None)
        } else {
            (m, None)
        },
        ClientEvent::Command(_, _) => (m, None),
        ClientEvent::CreateActor(k, p) => (ClientView { actors: m.actors.insert(k, p), ..m }, None),
        ClientEvent::UpdateActor(k, p) => (ClientView { actors: m.actors.insert(k, p), ..m }, None),
        ClientEvent::DeleteActor(k) => (ClientView { actors: m.actors.remove(k), ..m }, None),
        ClientEvent::CreatePawn(k, p) => (ClientView { pawns: m.pawns.insert(k, p), ..m }, None),
        ClientEvent::DeletePawn(k) => (ClientView { pawns: m.pawns.remove(k), ..m }, None),
    }
}

/// One drained item: an error changes nothing and sends nothing.
pub open spec fn step_item(m: ClientView, item: Result<ClientEvent, TransportError>) -> (
    ClientView,
    Option<Outgoing>,
) {
    match item {
        Ok(e) => step(m, e),
        Err(_) => (m, None),
    }
}

/// The state after draining `items` in order, and the commands sent, in order.
pub open spec fn drain(m: ClientView, items: Seq<Result<ClientEvent, TransportError>>) -> (
    ClientView,
    Seq<Outgoing>,
)
    decreases items.len(),
{
    if items.len() == 0 {
        (m, Seq::empty())
    } else {
        let (m1, sent) = drain(m, items.drop_last());
        let (m2, o) = step_item(m1, items.last());
        (
            m2,
            match o {
                Some(x) => sent.push(x),
                None => sent,
            },
        )
    }
}

/// On a tick with a pawn assigned and a command pending, exactly that command
/// is sent, to the assigned pawn, and nothing is pending afterwards.
pub proof fn lemma_tick_sends_pending(m: ClientView)
    requires
        m.pawn_key is Some,
        m.pending is Some,
    ensures
        step(m, ClientEvent::Tick).1 == Some(
            Outgoing { pawn_key: m.pawn_key->Some_0, command: m.pending->Some_0 },
        ),
        step(m, ClientEvent::Tick).0.pending is None,
        step(m, ClientEvent::Tick).0.pawn_key == m.pawn_key,
{
}

/// On a tick with no pawn assigned nothing is sent and the pending command,
/// if any, stays pending.
pub proof fn lemma_tick_unassigned_keeps_pending(m: ClientView)
    requires
        m.pawn_key is None,
    ensures
        step(m, ClientEvent::Tick).1 is None,
        step(m, ClientEvent::Tick).0.pending == m.pending,
{
}

/// Two assignments in a row leave the second key assigned.
pub proof fn lemma_last_assignment_wins(m: ClientView, k1: u16, k2: u16)
    ensures
        step(step(m, ClientEvent::AssignPawn(k1)).0, ClientEvent::AssignPawn(k2)).0.pawn_key == Some(k2),
{
}

/// A replayed command for a key with no pawn changes nothing and sends nothing.
pub proof fn lemma_command_for_absent_pawn(m: ClientView, k: u16, payload: ExampleEvent)
    requires
        !m.pawns.contains_key(k),
    ensures
        step(m, ClientEvent::Command(k, payload)) == (m, Option::<Outgoing>::None),
{
}

/// Fill color of a drawn square.
#[derive(Clone, Copy, Debug, PartialEq, Eq, Structural)]
pub enum Shade {
    Red,
    Blue,
    Yellow,
    White,
}

/// A square to draw at (`x`, `y`) for the entity under `key`.
#[derive(Clone, Copy, Debug, PartialEq, Eq, Structural)]
pub struct Sprite {
    pub key: u16,
    pub x: u16,
    pub y: u16,
    pub shade: Shade,
}

pub open spec fn shade_of(c: PointActorColor) -> Shade {
    match c {
        PointActorColor::Red => Shade::Red,
        PointActorColor::Blue => Shade::Blue,
        PointActorColor::Yellow => Shade::Yellow,
    }
}

/// An actor is drawn in its own color.
pub open spec fn actor_sprite(k: u16, p: PointActor) -> Sprite {
    Sprite { key: k, x: p.x, y: p.y, shade: shade_of(p.color) }
}

/// A pawn is drawn in the color of controlled entities.
pub open spec fn pawn_sprite(k: u16, p: PointActor) -> Sprite {
    Sprite { key: k, x: p.x, y: p.y, shade: Shade::White }
}

/// `r` draws each entity of `m` exactly once, with `f`.
pub open spec fn draws_each(
    r: Seq<Sprite>,
    m: Map<u16, PointActor>,
    f: spec_fn(u16, PointActor) -> Sprite,
) -> bool {
    &&& r.len() == m.len()
    &&& forall|i: int| 0 <= i < r.len() ==> m.contains_key(#[trigger] r[i].key) && r[i] == f(r[i].key, m[r[i].key])
    &&& forall|k: u16| m.contains_key(k) ==> exists|i: int| 0 <= i < r.len() && #[trigger] r[i].key == k
    &&& forall|i: int, j: int| 0 <= i < j < r.len() ==> r[i].key != r[j].key
}

fn color_shade(c: PointActorColor) -> (r: Shade)
    ensures
        r == shade_of(c),
{
    match c {
        PointActorColor::Red => Shade::Red,
        PointActorColor::Blue => Shade::Blue,
        PointActorColor::Yellow => Shade::Yellow,
    }
}

/// Looks up each key of `keys` with `pawns` false in the actors, else in the
/// pawns, and draws it.
fn sprites_of(store: &EntityStore, keys: &Vec<u16>, pawns: bool) -> (r: Vec<Sprite>)
    requires
        store.wf(),
        keys@.no_duplicates(),
        keys@.to_set() == (if pawns {
            store.pawns().dom()
        } else {
            store.actors().dom()
        }),
    ensures
        draws_each(
            r@,
            if pawns {
                store.pawns()
            } else {
                store.actors()
            },
            if pawns {
                |k: u16, p: PointActor| pawn_sprite(k, p)
            } else {
                |k: u16, p: PointActor| actor_sprite(k, p)
            },
        ),
{
    let ghost m = if pawns {
        store.pawns()
    } else {
        store.actors()
    };
    let ghost f = if pawns {
        |k: u16, p: PointActor| pawn_sprite(k, p)
    } else {
        |k: u16, p: PointActor| actor_sprite(k, p)
    };
    let mut r: Vec<Sprite> = Vec::new();
    let mut i: usize = 0;
    while i < keys.len()
        invariant
            0 <= i <= keys@.len(),
            r@.len() == i,
            store.wf(),
            keys@.to_set() == m.dom(),
            m == (if pawns {
                store.pawns()
            } else {
                store.actors()
            }),
            f == (if pawns {
                |k: u16, p: PointActor| pawn_sprite(k, p)
            } else {
                |k: u16, p: PointActor| actor_sprite(k, p)
            }),
            forall|j: int| 0 <= j < i ==> #[trigger] r@[j].key == keys@[j],
            forall|j: int| 0 <= j < i ==> m.contains_key(#[trigger] r@[j].key) && r@[j] == f(r@[j].key, m[r@[j].key]),
        decreases keys@.len() - i,
    {
        let k = keys[i];
        assert(keys@.to_set().contains(k));
        let found = if pawns {
            store.get_pawn(k)
        } else {
            store.get_actor(k)
        };
        match found {
            Some(p) => {
                let shade = if pawns {
                    Shade::White
                } else {
                    color_shade(p.color)
                };
                r.push(Sprite { key: k, x: p.x, y: p.y, shade });
            },
            None => {
                assert(false);
            },
        }
        i = i + 1;
    }
    proof {
        keys@.unique_seq_to_set();
        assert forall|k: u16| m.contains_key(k) implies exists|j: int| 0 <= j < r@.len() && #[trigger] r@[j].key == k by {
            assert(keys@.to_set().contains(k));
            let j = choose|j: int| 0 <= j < keys@.len() && keys@[j] == k;
            assert(r@[j].key == k);
        }
        assert forall|a: int, b: int| 0 <= a < b < r@.len() implies r@[a].key != r@[b].key by {
            assert(r@[a].key == keys@[a] && r@[b].key == keys@[b]);
        }
        assert(m.dom() == keys@.to_set());
        assert(m.len() == m.dom().len());
    }
    r
}

/// The client: session status, pawn assignment, pending command and entities.
pub struct App {
    connected: bool,
    pawn_key: Option<u16>,
    queued_command: CommandAccumulator,
    store: EntityStore,
}

impl View for App {
    type V = ClientView;

    closed spec fn view(&self) -> ClientView {
        ClientView {
            connected: self.connected,
            pawn_key: self.pawn_key,
            pending: self.queued_command@,
            actors: self.store.actors(),
            pawns: self.store.pawns(),
        }
    }
}

impl App {
    pub closed spec fn wf(&self) -> bool {
        self.store.wf()
    }

    pub fn new() -> (r: App)
        ensures
            r.wf(),
            !r@.connected,
            r@.pawn_key is None,
            r@.pending is None,
            r@.actors == Map::<u16, PointActor>::empty(),
            r@.pawns == Map::<u16, PointActor>::empty(),
    {
        App {
            connected: false,
            pawn_key: None,
            queued_command: CommandAccumulator::new(),
            store: EntityStore::new(),
        }
    }

    /// Merges one frame's held keys into the pending command.
    pub fn sample_input(&mut self, w: bool, s: bool, a: bool, d: bool)
        requires
            old(self).wf(),
        ensures
            final(self).wf(),
            final(self)@ == sampled(old(self)@, w, s, a, d),
    {
        self.queued_command.sample(w, s, a, d);
    }

    /// Applies one event; returns the command to send on it, if any.
    pub fn handle_event(&mut self, e: &ClientEvent) -> (r: Option<Outgoing>)
        requires
            old(self).wf(),
        ensures
            final(self).wf(),
            (final(self)@, r) == step(old(self)@, *e),
    {
        match e {
            ClientEvent::Connection => {
                self.connected = true;
                None
            },
            ClientEvent::Disconnection => {
                self.connected = false;
                None
            },
            ClientEvent::Tick => {
                match self.pawn_key {
                    Some(k) => match self.queued_command.take() {
                        Some(c) => Some(Outgoing { pawn_key: k, command: c }),
                        None => None,
                    },
                    None => None,
                }
            },
            ClientEvent::AssignPawn(k) => {
                self.pawn_key = Some(*k);
                None
            },
            ClientEvent::UnassignPawn(_) => {
                self.pawn_key = None;
                None
            },
            ClientEvent::Command(k, payload) => {
                match payload {
                    ExampleEvent::KeyCommand(c) => {
                        self.store.apply_to_pawn(*k, c);
                    },
                    ExampleEvent::AuthEvent(_) => {},
                }
                None
            },
            ClientEvent::CreateActor(k, p) => {
                self.store.insert_actor(*k, *p);
                None
            },
            ClientEvent::UpdateActor(k, p) => {
                self.store.insert_actor(*k, *p);
                None
            },
            ClientEvent::DeleteActor(k) => {
                self.store.remove_actor(*k);
                None
            },
            ClientEvent::CreatePawn(k, p) => {
                self.store.insert_pawn(*k, *p);
                None
            },
            ClientEvent::DeletePawn(k) => {
                self.store.remove_pawn(*k);
                None
            },
        }
    }

    /// Applies one drained item: an error is only reported by the caller.
    pub fn receive(&mut self, item: &Result<ClientEvent, TransportError>) -> (r: Option<Outgoing>)
        requires
            old(self).wf(),
        ensures
            final(self).wf(),
            (final(self)@, r) == step_item(old(self)@, *item),
    {
        match item {
            Ok(e) => self.handle_event(e),
            Err(_) => None,
        }
    }

    /// One frame: samples the held keys, then drains `items` in order;
    /// returns the commands to send, in order.
    pub fn update(
        &mut self,
        w: bool,
        s: bool,
        a: bool,
        d: bool,
        items: &Vec<Result<ClientEvent, TransportError>>,
    ) -> (r: Vec<Outgoing>)
        requires
            old(self).wf(),
        ensures
            final(self).wf(),
            (final(self)@, r@) == drain(sampled(old(self)@, w, s, a, d), items@),
    {
        self.sample_input(w, s, a, d);
        let ghost m0 = self@;
        let mut sent: Vec<Outgoing> = Vec::new();
        let mut i: usize = 0;
        while i < items.len()
            invariant
                0 <= i <= items@.len(),
                self.wf(),
                (self@, sent@) == drain(m0, items@.subrange(0, i as int)),
            decreases items@.len() - i,
        {
            let o = self.receive(&items[i]);
            proof {
                let pre = items@.subrange(0, i as int + 1);
                assert(pre.drop_last() =~= items@.subrange(0, i as int));
                assert(pre.last() == items@[i as int]);
            }
            match o {
                Some(x) => sent.push(x),
                None => {},
            }
            i = i + 1;
        }
        assert(items@.subrange(0, i as int) =~= items@);
        sent
    }

    /// The squares of one frame: none without a connection; else every actor
    /// in its color, then every pawn in the controlled color.
    pub fn sprites(&self) -> (r: Vec<Sprite>)
        requires
            self.wf(),
        ensures
            !self@.connected ==> r@.len() == 0,
            self@.connected ==> exists|n: int|
                0 <= n <= r@.len() && draws_each(
                    r@.subrange(0, n),
                    self@.actors,
                    |k: u16, p: PointActor| actor_sprite(k, p),
                ) && draws_each(
                    r@.subrange(n, r@.len() as int),
                    self@.pawns,
                    |k: u16, p: PointActor| pawn_sprite(k, p),
                ),
    {
        if !self.connected {
            return Vec::new();
        }
        let actor_keys = self.store.actor_keys();
        let mut r = sprites_of(&self.store, &actor_keys, false);
        let pawn_keys = self.store.pawn_keys();
        let mut rest = sprites_of(&self.store, &pawn_keys, true);
        let ghost a = r@;
        let ghost b = rest@;
        r.append(&mut rest);
        assert(r@.subrange(0, a.len() as int) =~= a);
        assert(r@.subrange(a.len() as int, r@.len() as int) =~= b);
        r
    }

    pub fn is_connected(&self) -> (r: bool)
        ensures
            r == self@.connected,
    {
        self.connected
    }

    pub fn pawn_key(&self) -> (r: Option<u16>)
        ensures
            r == self@.pawn_key,
    {
        self.pawn_key
    }

    pub fn pending_command(&self) -> (r: Option<KeyCommand>)
        ensures
            r == self@.pending,
    {
        self.queued_command.peek()
    }

    pub fn store(&self) -> (r: &EntityStore)
        requires
            self.wf(),
        ensures
            r.wf(),
            r.actors() == self@.actors,
            r.pawns() == self@.pawns,
    {
        &self.store
    }
}

} // verus!
