use vstd::prelude::*;

use crate::command::{coord_range, shift, shifted, KeyCommand, SQUARE_SPEED};

verus! {

/// Display category of a server-authoritative point.
#[derive(Clone, Copy, Debug, PartialEq, Eq, Structural)]
pub enum PointActorColor {
    Red,
    Blue,
    Yellow,
}

/// A point entity: a position on a wrapping grid and a color.
#[derive(Clone, Copy, Debug, PartialEq, Eq, Structural)]
pub struct PointActor {
    pub x: u16,
    pub y: u16,
    pub color: PointActorColor,
}

/// The point after one tick of `cmd`: forward lowers `y`, backward raises it,
/// left lowers `x`, right raises it; opposing intents cancel.
pub open spec fn moved(p: PointActor, cmd: KeyCommand) -> PointActor {
    PointActor { x: shifted(p.x, cmd.a, cmd.d), y: shifted(p.y, cmd.w, cmd.s), color: p.color }
}

/// Applies the movement-integration rule shared with the server.
pub fn process_command(cmd: &KeyCommand, p: &mut PointActor)
    ensures
        *final(p) == moved(*old(p), *cmd),
{
    p.x = shift(p.x, cmd.a, cmd.d);
    p.y = shift(p.y, cmd.w, cmd.s);
}

/// One asserted intent moves its axis by exactly one step in its direction;
/// two opposing intents leave that axis where it was.
pub proof fn lemma_movement(p: PointActor, cmd: KeyCommand)
    ensures
        cmd.w && !cmd.s ==> moved(p, cmd).y as int == (p.y as int - SQUARE_SPEED as int) % coord_range(),
        cmd.s && !cmd.w ==> moved(p, cmd).y as int == (p.y as int + SQUARE_SPEED as int) % coord_range(),
        cmd.a && !cmd.d ==> moved(p, cmd).x as int == (p.x as int - SQUARE_SPEED as int) % coord_range(),
        cmd.d && !cmd.a ==> moved(p, cmd).x as int == (p.x as int + SQUARE_SPEED as int) % coord_range(),
        cmd.w == cmd.s ==> moved(p, cmd).y == p.y,
        cmd.a == cmd.d ==> moved(p, cmd).x == p.x,
        moved(p, cmd).color == p.color,
{
}

pub open spec fn has_key(s: Seq<(u16, PointActor)>, k: u16) -> bool {
    exists|i: int| 0 <= i < s.len() && #[trigger] s[i].0 == k
}

pub open spec fn unique_keys(s: Seq<(u16, PointActor)>) -> bool {
    forall|i: int, j: int|
        0 <= i < s.len() && 0 <= j < s.len() && #[trigger] s[i].0 == #[trigger] s[j].0 ==> i == j
}

/// The map from key to point that a list of entries with unique keys stands for.
pub open spec fn entries_map(s: Seq<(u16, PointActor)>) -> Map<u16, PointActor> {
    Map::new(
        |k: u16| has_key(s, k),
        |k: u16| s[choose|i: int| 0 <= i < s.len() && #[trigger] s[i].0 == k].1,
    )
}

proof fn lemma_entry(s: Seq<(u16, PointActor)>, i: int)
    requires
        unique_keys(s),
        0 <= i < s.len(),
    ensures
        entries_map(s).contains_key(s[i].0),
        entries_map(s)[s[i].0] == s[i].1,
{
    let k = s[i].0;
    assert(has_key(s, k));
    let j = choose|j: int| 0 <= j < s.len() && #[trigger] s[j].0 == k;
    assert(s[j].0 == s[i].0);
}

proof fn lemma_map_eq(s: Seq<(u16, PointActor)>, t: Seq<(u16, PointActor)>, m: Map<u16, PointActor>)
    requires
        unique_keys(t),
        forall|k: u16| has_key(t, k) <==> m.contains_key(k),
        forall|i: int| 0 <= i < t.len() ==> m[#[trigger] t[i].0] == t[i].1,
    ensures
        entries_map(t) == m,
{
    assert forall|k: u16| #[trigger] m.contains_key(k) implies entries_map(t)[k] == m[k] by {
        assert(has_key(t, k));
        let i = choose|i: int| 0 <= i < t.len() && #[trigger] t[i].0 == k;
        lemma_entry(t, i);
    }
    assert(entries_map(t) =~= m);
}

/// Points indexed by key, in order of first insertion.
pub struct KeyedPoints {
    entries: Vec<(u16, PointActor)>,
}

impl View for KeyedPoints {
    type V = Map<u16, PointActor>;

    closed spec fn view(&self) -> Map<u16, PointActor> {
        entries_map(self.entries@)
    }
}

impl KeyedPoints {
    pub closed spec fn wf(&self) -> bool {
        unique_keys(self.entries@)
    }

    pub fn new() -> (r: KeyedPoints)
        ensures
            r.wf(),
            r@ == Map::<u16, PointActor>::empty(),
    {
        let r = KeyedPoints { entries: Vec::new() };
        assert(r@ =~= Map::<u16, PointActor>::empty());
        r
    }

    fn index_of(&self, k: u16) -> (r: Option<usize>)
        requires
            self.wf(),
        ensures
            match r {
                Some(i) => i < self.entries@.len() && self.entries@[i as int].0 == k,
                None => !has_key(self.entries@, k),
            },
    {
        let mut i: usize = 0;
        while i < self.entries.len()
            invariant
                0 <= i <= self.entries@.len(),
                forall|j: int| 0 <= j < i ==> #[trigger] self.entries@[j].0 != k,
            decreases self.entries@.len() - i,
        {
            if self.entries[i].0 == k {
                return Some(i);
            }
            i = i + 1;
        }
        None
    }

    pub fn len(&self) -> (r: usize)
        requires
            self.wf(),
        ensures
            r == self@.len(),
    {
        proof {
            self.lemma_len();
        }
        self.entries.len()
    }

    proof fn lemma_len(&self)
        requires
            self.wf(),
        ensures
            self@.dom() == self.entries@.map_values(|e: (u16, PointActor)| e.0).to_set(),
            self@.len() == self.entries@.len(),
    {
        let ks = self.entries@.map_values(|e: (u16, PointActor)| e.0);
        assert forall|k: u16| #[trigger] self@.contains_key(k) <==> ks.contains(k) by {
            if self@.contains_key(k) {
                let i = choose|i: int| 0 <= i < self.entries@.len() && #[trigger] self.entries@[i].0 == k;
                assert(ks[i] == k);
            }
            if ks.contains(k) {
                let i = choose|i: int| 0 <= i < ks.len() && ks[i] == k;
                assert(self.entries@[i].0 == k);
            }
        }
        assert(self@.dom() =~= ks.to_set());
        assert(ks.no_duplicates()) by {
            assert forall|i: int, j: int| 0 <= i < ks.len() && 0 <= j < ks.len() && i != j implies ks[i] != ks[j] by {
                assert(self.entries@[i].0 == ks[i] && self.entries@[j].0 == ks[j]);
            }
        }
        ks.unique_seq_to_set();
    }

    /// The keys, each once, in order of first insertion.
    pub fn keys(&self) -> (r: Vec<u16>)
        requires
            self.wf(),
        ensures
            r@.no_duplicates(),
            r@.to_set() == self@.dom(),
    {
        proof {
            self.lemma_len();
        }
        let mut r: Vec<u16> = Vec::new();
        let mut i: usize = 0;
        while i < self.entries.len()
            invariant
                0 <= i <= self.entries@.len(),
                r@ == self.entries@.subrange(0, i as int).map_values(|e: (u16, PointActor)| e.0),
            decreases self.entries@.len() - i,
        {
            r.push(self.entries[i].0);
            i = i + 1;
            assert(r@ =~= self.entries@.subrange(0, i as int).map_values(|e: (u16, PointActor)| e.0));
        }
        assert(self.entries@.subrange(0, i as int) =~= self.entries@);
        let ghost ks = self.entries@.map_values(|e: (u16, PointActor)| e.0);
        assert(ks.no_duplicates()) by {
            assert forall|a: int, b: int| 0 <= a < ks.len() && 0 <= b < ks.len() && a != b implies ks[a] != ks[b] by {
                assert(self.entries@[a].0 == ks[a] && self.entries@[b].0 == ks[b]);
            }
        }
        r
    }

    pub fn get(&self, k: u16) -> (r: Option<PointActor>)
        requires
            self.wf(),
        ensures
            r == (if self@.contains_key(k) {
                Some(self@[k])
            } else {
                None
            }),
    {
        match self.index_of(k) {
            Some(i) => {
                proof {
                    lemma_entry(self.entries@, i as int);
                }
                Some(self.entries[i].1)
            },
            None => None,
        }
    }

    /// Stores `p` under `k`, replacing the point there if any.
    pub fn insert(&mut self, k: u16, p: PointActor)
        requires
            old(self).wf(),
        ensures
            final(self).wf(),
            final(self)@ == old(self)@.insert(k, p),
    {
        let ghost m = self@;
        match self.index_of(k) {
            Some(i) => {
                let ghost s = self.entries@;
                self.entries.set(i, (k, p));
                proof {
                    let t = self.entries@;
                    assert forall|a: int, b: int|
                        0 <= a < t.len() && 0 <= b < t.len() && #[trigger] t[a].0 == #[trigger] t[b].0 implies a == b by {
                        assert(s[a].0 == t[a].0 && s[b].0 == t[b].0);
                    }
                    assert forall|kk: u16| has_key(t, kk) <==> m.insert(k, p).contains_key(kk) by {
                        if has_key(t, kk) {
                            let a = choose|a: int| 0 <= a < t.len() && #[trigger] t[a].0 == kk;
                            assert(s[a].0 == kk);
                        }
                        if m.contains_key(kk) {
                            let a = choose|a: int| 0 <= a < s.len() && #[trigger] s[a].0 == kk;
                            assert(t[a].0 == kk);
                        }
                        if kk == k {
                            assert(t[i as int].0 == kk);
                        }
                    }
                    assert forall|a: int| 0 <= a < t.len() implies m.insert(k, p)[#[trigger] t[a].0] == t[a].1 by {
                        if a != i {
                            lemma_entry(s, a);
                        }
                    }
                    lemma_map_eq(s, t, m.insert(k, p));
                }
            },
            None => {
                let ghost s = self.entries@;
                self.entries.push((k, p));
                proof {
                    let t = self.entries@;
                    assert forall|a: int, b: int|
                        0 <= a < t.len() && 0 <= b < t.len() && #[trigger] t[a].0 == #[trigger] t[b].0 implies a == b by {
                        if a < s.len() && b < s.len() {
                            assert(s[a].0 == t[a].0 && s[b].0 == t[b].0);
                        } else if a < s.len() {
                            assert(s[a].0 == k);
                        } else if b < s.len() {
                            assert(s[b].0 == k);
                        }
                    }
                    assert forall|kk: u16| has_key(t, kk) <==> m.insert(k, p).contains_key(kk) by {
                        if has_key(t, kk) {
                            let a = choose|a: int| 0 <= a < t.len() && #[trigger] t[a].0 == kk;
                            if a < s.len() {
                                assert(s[a].0 == kk);
                            }
                        }
                        if m.contains_key(kk) {
                            let a = choose|a: int| 0 <= a < s.len() && #[trigger] s[a].0 == kk;
                            assert(t[a].0 == kk);
                        }
                        if kk == k {
                            assert(t[s.len() as int].0 == kk);
                        }
                    }
                    assert forall|a: int| 0 <= a < t.len() implies m.insert(k, p)[#[trigger] t[a].0] == t[a].1 by {
                        if a < s.len() {
                            assert(s[a] == t[a]);
                            lemma_entry(s, a);
                        }
                    }
                    lemma_map_eq(s, t, m.insert(k, p));
                }
            },
        }
    }

    /// Removes the point under `k`, if any.
    pub fn remove(&mut self, k: u16)
        requires
            old(self).wf(),
        ensures
            final(self).wf(),
            final(self)@ == old(self)@.remove(k),
    {
        let ghost m = self@;
        match self.index_of(k) {
            Some(i) => {
                let ghost s = self.entries@;
                self.entries.remove(i);
                proof {
                    let t = self.entries@;
                    assert forall|a: int| 0 <= a < t.len() implies #[trigger] t[a] == (if a < i {
                        s[a]
                    } else {
                        s[a + 1]
                    }) by {}
                    assert forall|a: int, b: int|
                        0 <= a < t.len() && 0 <= b < t.len() && #[trigger] t[a].0 == #[trigger] t[b].0 implies a == b by {
                        let a2 = if a < i { a } else { a + 1 };
                        let b2 = if b < i { b } else { b + 1 };
                        assert(s[a2].0 == t[a].0 && s[b2].0 == t[b].0);
                    }
                    assert forall|kk: u16| has_key(t, kk) <==> m.remove(k).contains_key(kk) by {
                        if has_key(t, kk) {
                            let a = choose|a: int| 0 <= a < t.len() && #[trigger] t[a].0 == kk;
                            let a2 = if a < i { a } else { a + 1 };
                            assert(s[a2].0 == kk);
                            assert(s[i as int].0 == k);
                        }
                        if m.contains_key(kk) && kk != k {
                            let a = choose|a: int| 0 <= a < s.len() && #[trigger] s[a].0 == kk;
                            if a < i {
                                assert(t[a].0 == kk);
                            } else {
                                assert(a != i);
                                assert(t[a - 1].0 == kk);
                            }
                        }
                    }
                    assert forall|a: int| 0 <= a < t.len() implies m.remove(k)[#[trigger] t[a].0] == t[a].1 by {
                        let a2 = if a < i { a } else { a + 1 };
                        lemma_entry(s, a2);
                    }
                    lemma_map_eq(s, t, m.remove(k));
                }
            },
            None => {
                assert(self@ =~= m.remove(k));
            },
        }
    }

    /// Applies `cmd` to the point under `k`; returns whether one was there.
    pub fn apply(&mut self, k: u16, cmd: &KeyCommand) -> (r: bool)
        requires
            old(self).wf(),
        ensures
            final(self).wf(),
            r == old(self)@.contains_key(k),
            final(self)@ == (if r {
                old(self)@.insert(k, moved(old(self)@[k], *cmd))
            } else {
                old(self)@
            }),
    {
        match self.get(k) {
            Some(p) => {
                let mut q = p;
                process_command(cmd, &mut q);
                self.insert(k, q);
                true
            },
            None => false,
        }
    }
}

} // verus!

verus! {

/// Server-mirrored actors and locally predicted pawns, each indexed by key.
pub struct EntityStore {
    actors: KeyedPoints,
    pawns: KeyedPoints,
}

impl EntityStore {
    pub closed spec fn wf(&self) -> bool {
        self.actors.wf() && self.pawns.wf()
    }

    pub closed spec fn actors(&self) -> Map<u16, PointActor> {
        self.actors@
    }

    pub closed spec fn pawns(&self) -> Map<u16, PointActor> {
        self.pawns@
    }

    pub fn new() -> (r: EntityStore)
        ensures
            r.wf(),
            r.actors() == Map::<u16, PointActor>::empty(),
            r.pawns() == Map::<u16, PointActor>::empty(),
    {
        EntityStore { actors: KeyedPoints::new(), pawns: KeyedPoints::new() }
    }

    /// The actor keys, each once.
    pub fn actor_keys(&self) -> (r: Vec<u16>)
        requires
            self.wf(),
        ensures
            r@.no_duplicates(),
            r@.to_set() == self.actors().dom(),
    {
        self.actors.keys()
    }

    /// The pawn keys, each once.
    pub fn pawn_keys(&self) -> (r: Vec<u16>)
        requires
            self.wf(),
        ensures
            r@.no_duplicates(),
            r@.to_set() == self.pawns().dom(),
    {
        self.pawns.keys()
    }

    pub fn get_actor(&self, k: u16) -> (r: Option<PointActor>)
        requires
            self.wf(),
        ensures
            r == (if self.actors().contains_key(k) {
                Some(self.actors()[k])
            } else {
                None
            }),
    {
        self.actors.get(k)
    }

    pub fn get_pawn(&self, k: u16) -> (r: Option<PointActor>)
        requires
            self.wf(),
        ensures
            r == (if self.pawns().contains_key(k) {
                Some(self.pawns()[k])
            } else {
                None
            }),
    {
        self.pawns.get(k)
    }

    pub fn insert_actor(&mut self, k: u16, p: PointActor)
        requires
            old(self).wf(),
        ensures
            final(self).wf(),
            final(self).actors() == old(self).actors().insert(k, p),
            final(self).pawns() == old(self).pawns(),
    {
        self.actors.insert(k, p);
    }

    pub fn remove_actor(&mut self, k: u16)
        requires
            old(self).wf(),
        ensures
            final(self).wf(),
            final(self).actors() == old(self).actors().remove(k),
            final(self).pawns() == old(self).pawns(),
    {
        self.actors.remove(k);
    }

    pub fn insert_pawn(&mut self, k: u16, p: PointActor)
        requires
            old(self).wf(),
        ensures
            final(self).wf(),
            final(self).pawns() == old(self).pawns().insert(k, p),
            final(self).actors() == old(self).actors(),
    {
        self.pawns.insert(k, p);
    }

    pub fn remove_pawn(&mut self, k: u16)
        requires
            old(self).wf(),
        ensures
            final(self).wf(),
            final(self).pawns() == old(self).pawns().remove(k),
            final(self).actors() == old(self).actors(),
    {
        self.pawns.remove(k);
    }

    /// Replays `cmd` on the pawn under `k`; returns whether there was one.
    pub fn apply_to_pawn(&mut self, k: u16, cmd: &KeyCommand) -> (r: bool)
        requires
            old(self).wf(),
        ensures
            final(self).wf(),
            r == old(self).pawns().contains_key(k),
            final(self).pawns() == (if r {
                old(self).pawns().insert(k, moved(old(self).pawns()[k], *cmd))
            } else {
                old(self).pawns()
            }),
            final(self).actors() == old(self).actors(),
    {
        self.pawns.apply(k, cmd)
    }
}

} // verus!
