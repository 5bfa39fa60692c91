//! Controller discovery with stable IDs: every physical controller (a backend
//! and the backend's own ID for it) keeps the public ID it was first given,
//! across disconnects and reconnects.
use vstd::prelude::*;
use crate::input::backends::ControllerInfo;
use std::time::Instant;

verus! {

/// The twelve digital GameCube buttons.
#[derive(Clone, Copy, Debug, PartialEq, Eq, Structural)]
pub struct GameCubeButtons {
    pub a: bool,
    pub b: bool,
    pub x: bool,
    pub y: bool,
    pub start: bool,
    pub d_up: bool,
    pub d_down: bool,
    pub d_left: bool,
    pub d_right: bool,
    pub l: bool,
    pub r: bool,
    pub z: bool,
}

impl Default for GameCubeButtons {
    fn default() -> (b: Self)
        ensures
            !b.a && !b.b && !b.x && !b.y && !b.start && !b.d_up && !b.d_down && !b.d_left && !b.d_right && !b.l && !b.r && !b.z,
    {
        GameCubeButtons {
            a: false, b: false, x: false, y: false, start: false,
            d_up: false, d_down: false, d_left: false, d_right: false,
            l: false, r: false, z: false,
        }
    }
}

/// A known controller: its public ID, what its backend reports, whether it
/// is connected, when it was last seen, and where its input comes from.
#[derive(Debug)]
pub struct ControllerState {
    pub id: usize,
    pub info: ControllerInfo,
    pub connected: bool,
    pub last_update: Instant,
    pub backend_index: usize,
    pub backend_controller_id: usize,
}

impl ControllerState {
    /// The backend and the backend's ID for this controller.
    pub open spec fn backend_key(&self) -> (usize, usize) {
        (self.backend_index, self.backend_controller_id)
    }

    /// The backend and the backend's ID for this controller.
    pub fn backend(&self) -> (r: (usize, usize))
        ensures
            r == self.backend_key(),
    {
        (self.backend_index, self.backend_controller_id)
    }
}

/// The physical controller a discovery entry names: backend index and the backend's ID.
pub open spec fn device_key(d: (usize, ControllerInfo)) -> (usize, usize) {
    (d.0, d.1.id)
}

/// The device keys after registering those of `found` in order: a new key is
/// appended, so its public ID (its index) is the next one.
pub open spec fn with_keys(keys: Seq<(usize, usize)>, found: Seq<(usize, ControllerInfo)>) -> Seq<(usize, usize)>
    decreases found.len(),
{
    if found.len() == 0 {
        keys
    } else {
        let k = with_keys(keys, found.drop_last());
        if k.contains(device_key(found.last())) { k } else { k.push(device_key(found.last())) }
    }
}

/// The info last discovered for `key`.
pub open spec fn last_info(found: Seq<(usize, ControllerInfo)>, key: (usize, usize)) -> Option<ControllerInfo>
    decreases found.len(),
{
    if found.len() == 0 {
        None
    } else if device_key(found.last()) == key {
        Some(found.last().1)
    } else {
        last_info(found.drop_last(), key)
    }
}

/// Whether some state has public ID `id`.
pub open spec fn has_id(states: Seq<ControllerState>, id: usize) -> bool {
    exists|i: int| 0 <= i < states.len() && #[trigger] states[i].id == id
}

/// What a discovery pass changed: IDs that appeared and IDs that went away.
#[derive(Debug)]
pub struct RegistryChanges {
    pub newly_connected: Vec<usize>,
    pub disconnected: Vec<usize>,
}

/// Known controllers and the device keys every public ID was given.
pub struct ControllerRegistry {
    states: Vec<ControllerState>,
    device_keys: Vec<(usize, usize)>,
}

impl ControllerRegistry {
    /// The device key of each public ID: ID `i` belongs to `keys()[i]`.
    pub closed spec fn keys(&self) -> Seq<(usize, usize)> {
        self.device_keys@
    }

    /// The connected controllers, by increasing ID.
    pub closed spec fn states(&self) -> Seq<ControllerState> {
        self.states@
    }

    /// Keys are distinct; states are sorted by ID; each state is connected,
    /// carries its own ID in its info, and its ID belongs to its device key.
    pub open spec fn wf(&self) -> bool {
        &&& forall|i: int, j: int| 0 <= i < j < self.keys().len() ==> self.keys()[i] != self.keys()[j]
        &&& forall|i: int, j: int| 0 <= i < j < self.states().len() ==> self.states()[i].id < self.states()[j].id
        &&& forall|i: int| 0 <= i < self.states().len() ==> {
            let s = #[trigger] self.states()[i];
            &&& s.id < self.keys().len()
            &&& self.keys()[s.id as int] == s.backend_key()
            &&& s.info.id == s.id
            &&& s.connected
        }
    }

    /// No controllers and no IDs given yet.
    pub fn new() -> (r: Self)
        ensures
            r.wf(),
            r.keys().len() == 0,
            r.states().len() == 0,
    {
        ControllerRegistry { states: Vec::new(), device_keys: Vec::new() }
    }

    /// The number of connected controllers.
    pub fn get_controller_count(&self) -> (n: usize)
        ensures
            n == self.states().len(),
    {
        self.states.len()
    }

    /// The number of public IDs given so far, which is also the next ID.
    pub fn next_id(&self) -> (n: usize)
        ensures
            n == self.keys().len(),
    {
        self.device_keys.len()
    }

    /// The connected controllers, by increasing ID.
    pub fn controllers(&self) -> (r: &[ControllerState])
        ensures
            r@ == self.states(),
    {
        self.states.as_slice()
    }

    /// The controller with public ID `id`, if connected.
    pub fn get_controller_state(&self, id: usize) -> (r: Option<&ControllerState>)
        ensures
            match r {
                Some(s) => self.states().contains(*s) && s.id == id,
                None => !has_id(self.states(), id),
            },
    {
        let mut i: usize = 0;
        while i < self.states.len()
            invariant
                i <= self.states@.len(),
                forall|j: int| 0 <= j < i ==> self.states@[j].id != id,
            decreases self.states@.len() - i,
        {
            if self.states[i].id == id {
                assert(self.states@.contains(self.states@[i as int]));
                return Some(&self.states[i]);
            }
            i = i + 1;
        }
        assert(!has_id(self.states@, id)) by {
            if has_id(self.states@, id) {
                let w = choose|k: int| 0 <= k < self.states@.len() && #[trigger] self.states@[k].id == id;
                assert(self.states@[w].id != id);
            }
        }
        None
    }

    /// The public ID of `key`, registering it with the next ID when new.
    fn register(&mut self, key: (usize, usize)) -> (id: usize)
        requires
            forall|i: int, j: int| 0 <= i < j < old(self).keys().len() ==> old(self).keys()[i] != old(self).keys()[j],
            old(self).keys().len() < usize::MAX,
        ensures
            final(self).states() == old(self).states(),
            final(self).keys() == if old(self).keys().contains(key) { old(self).keys() } else { old(self).keys().push(key) },
            id < final(self).keys().len(),
            final(self).keys()[id as int] == key,
            forall|i: int, j: int| 0 <= i < j < final(self).keys().len() ==> final(self).keys()[i] != final(self).keys()[j],
    {
        let mut i: usize = 0;
        proof {
            assert forall|a: int, b: int| 0 <= a < b < self.device_keys@.len() implies self.device_keys@[a] != self.device_keys@[b] by {
                assert(old(self).keys()[a] == self.device_keys@[a] && old(self).keys()[b] == self.device_keys@[b]);
            }
        }
        while i < self.device_keys.len()
            invariant
                i <= self.device_keys@.len(),
                self.device_keys@ == old(self).device_keys@,
                self.states@ == old(self).states@,
                forall|a: int, b: int| 0 <= a < b < self.device_keys@.len() ==> self.device_keys@[a] != self.device_keys@[b],
                forall|j: int| 0 <= j < i ==> self.device_keys@[j] != key,
            decreases self.device_keys@.len() - i,
        {
            if self.device_keys[i].0 == key.0 && self.device_keys[i].1 == key.1 {
                assert(self.device_keys@[i as int] == key);
                assert(self.device_keys@.contains(key));
                return i;
            }
            i = i + 1;
        }
        assert(!self.device_keys@.contains(key));
        let ghost k0 = self.device_keys@;
        self.device_keys.push(key);
        proof {
            let k1 = self.device_keys@;
            assert forall|a: int, b: int| 0 <= a < b < k1.len() implies k1[a] != k1[b] by {
                if b == k0.len() {
                    assert(k1[a] == k0[a]);
                    assert(k0[a] != key);
                } else {
                    assert(k1[a] == k0[a] && k1[b] == k0[b]);
                }
            }
        }
        i
    }

    /// Puts `st` in place of the state with its ID, or inserts it in ID order;
    /// says whether it was inserted.
    fn upsert_state(&mut self, st: ControllerState) -> (inserted: bool)
        requires
            forall|a: int, b: int| 0 <= a < b < old(self).states().len() ==> old(self).states()[a].id < old(self).states()[b].id,
        ensures
            final(self).keys() == old(self).keys(),
            forall|a: int, b: int| 0 <= a < b < final(self).states().len() ==> final(self).states()[a].id < final(self).states()[b].id,
            forall|x: ControllerState| #[trigger] final(self).states().contains(x) <==> (x == st || (old(self).states().contains(x) && x.id != st.id)),
            inserted == !has_id(old(self).states(), st.id),
    {
        let ghost old_s = self.states@;
        assert forall|a: int, b: int| 0 <= a < b < old_s.len() implies old_s[a].id < old_s[b].id by {
            assert(old(self).states()[a] == old_s[a] && old(self).states()[b] == old_s[b]);
        }
        let id = st.id;
        let mut p: usize = 0;
        while p < self.states.len() && self.states[p].id < id
            invariant
                self.states@ == old_s,
                p <= old_s.len(),
                forall|a: int| 0 <= a < p ==> old_s[a].id < id,
            decreases old_s.len() - p,
        {
            p = p + 1;
        }
        proof {
            assert forall|a: int| p <= a < old_s.len() implies old_s[a].id >= id by {
                if a > p {
                    assert(old_s[p as int].id < old_s[a].id);
                }
            }
        }
        if p < self.states.len() && self.states[p].id == id {
            self.states.set(p, st);
            proof {
                let t = self.states@;
                assert(t == old_s.update(p as int, st));
                assert forall|x: ControllerState| #[trigger] t.contains(x) <==> (x == st || (old_s.contains(x) && x.id != id)) by {
                    if t.contains(x) {
                        let w = choose|k: int| 0 <= k < t.len() && t[k] == x;
                        if w != p {
                            assert(old_s[w] == x);
                            assert(old_s.contains(x));
                            if w < p { assert(old_s[w].id < id); } else { assert(old_s[p as int].id < old_s[w].id); }
                        }
                    }
                    if x == st {
                        assert(t[p as int] == st);
                    } else if old_s.contains(x) && x.id != id {
                        let w = choose|k: int| 0 <= k < old_s.len() && old_s[k] == x;
                        assert(w != p);
                        assert(t[w] == x);
                    }
                }
                assert(has_id(old_s, id)) by {
                    assert(old_s[p as int].id == id);
                }
            }
            false
        } else {
            self.states.insert(p, st);
            proof {
                let t = self.states@;
                assert(t == old_s.insert(p as int, st));
                assert forall|a: int, b: int| 0 <= a < b < t.len() implies t[a].id < t[b].id by {
                    if b < p {
                    } else if b == p {
                    } else if a < p {
                        assert(t[b] == old_s[b - 1]);
                    } else if a == p {
                        assert(t[b] == old_s[b - 1]);
                    } else {
                        assert(t[a] == old_s[a - 1] && t[b] == old_s[b - 1]);
                    }
                }
                assert(!has_id(old_s, id)) by {
                    if has_id(old_s, id) {
                        let w = choose|k: int| 0 <= k < old_s.len() && #[trigger] old_s[k].id == id;
                        if w < p { assert(old_s[w].id < id); } else if w == p { } else { assert(old_s[p as int].id < old_s[w].id); }
                    }
                }
                assert forall|x: ControllerState| #[trigger] t.contains(x) <==> (x == st || (old_s.contains(x) && x.id != id)) by {
                    if t.contains(x) {
                        let w = choose|k: int| 0 <= k < t.len() && t[k] == x;
                        if w < p {
                            assert(old_s[w] == x);
                            assert(old_s.contains(x));
                        } else if w > p {
                            assert(old_s[w - 1] == x);
                            assert(old_s.contains(x));
                        }
                    }
                    if x == st {
                        assert(t[p as int] == st);
                    } else if old_s.contains(x) && x.id != id {
                        let w = choose|k: int| 0 <= k < old_s.len() && old_s[k] == x;
                        if w < p { assert(t[w] == x); } else { assert(t[w + 1] == x); }
                    }
                }
            }
            true
        }
    }

    /// Drops the states whose ID is not in `seen`; returns their IDs.
    fn retain_seen(&mut self, seen: &Vec<usize>) -> (gone: Vec<usize>)
        requires
            forall|a: int, b: int| 0 <= a < b < old(self).states().len() ==> old(self).states()[a].id < old(self).states()[b].id,
        ensures
            final(self).keys() == old(self).keys(),
            forall|a: int, b: int| 0 <= a < b < final(self).states().len() ==> final(self).states()[a].id < final(self).states()[b].id,
            forall|x: ControllerState| #[trigger] final(self).states().contains(x) <==> (old(self).states().contains(x) && seen@.contains(x.id)),
            forall|id: usize| #[trigger] gone@.contains(id) <==> (has_id(old(self).states(), id) && !seen@.contains(id)),
    {
        let ghost orig = self.states@;
        assert forall|a: int, b: int| 0 <= a < b < orig.len() implies orig[a].id < orig[b].id by {
            assert(old(self).states()[a] == orig[a] && old(self).states()[b] == orig[b]);
        }
        let mut kept: Vec<ControllerState> = Vec::new();
        let mut gone: Vec<usize> = Vec::new();
        let ghost mut m: int = 0;
        proof {
            assert(orig.skip(0) =~= orig);
            assert(orig.take(0) =~= Seq::<ControllerState>::empty());
            assert forall|id: usize| !has_id(orig.take(0), id) by {}
        }
        while self.states.len() > 0
            invariant
                0 <= m <= orig.len(),
                self.states@ == orig.skip(m),
                self.device_keys@ == old(self).device_keys@,
                forall|a: int, b: int| 0 <= a < b < orig.len() ==> orig[a].id < orig[b].id,
                forall|a: int, b: int| 0 <= a < b < kept@.len() ==> kept@[a].id < kept@[b].id,
                forall|a: int, b: int| 0 <= a < kept@.len() && m <= b < orig.len() ==> kept@[a].id < orig[b].id,
                forall|x: ControllerState| #[trigger] kept@.contains(x) <==> (orig.take(m).contains(x) && seen@.contains(x.id)),
                forall|id: usize| #[trigger] gone@.contains(id) <==> (has_id(orig.take(m), id) && !seen@.contains(id)),
            decreases orig.len() - m,
        {
            let s = self.states.remove(0);
            let ghost t0 = orig.take(m);
            let ghost t1 = orig.take(m + 1);
            assert(s == orig[m]);
            assert(t1 == t0.push(s));
            let id = s.id;
            let mut found = false;
            let mut k: usize = 0;
            while k < seen.len()
                invariant
                    k <= seen@.len(),
                    found == (exists|t: int| 0 <= t < k && seen@[t] == id),
                decreases seen@.len() - k,
            {
                if seen[k] == id {
                    found = true;
                }
                k = k + 1;
            }
            assert(found == seen@.contains(id));
            let ghost kept0 = kept@;
            let ghost gone0 = gone@;
            if found {
                kept.push(s);
                proof {
                    assert forall|x: ControllerState| #[trigger] kept@.contains(x) <==> (t1.contains(x) && seen@.contains(x.id)) by {
                        if kept@.contains(x) {
                            let w = choose|k: int| 0 <= k < kept@.len() && kept@[k] == x;
                            if w < kept0.len() { assert(kept0[w] == x); assert(kept0.contains(x)); }
                        }
                        if t1.contains(x) && seen@.contains(x.id) {
                            let w = choose|k: int| 0 <= k < t1.len() && t1[k] == x;
                            if w < t0.len() { assert(t0[w] == x); assert(t0.contains(x)); assert(kept0.contains(x)); let v = choose|k: int| 0 <= k < kept0.len() && kept0[k] == x; assert(kept@[v] == x); }
                            else { assert(kept@[kept0.len() as int] == x); }
                        }
                    }
                    assert forall|id2: usize| #[trigger] gone@.contains(id2) <==> (has_id(t1, id2) && !seen@.contains(id2)) by {
                        if has_id(t1, id2) && !seen@.contains(id2) {
                            let w = choose|k: int| 0 <= k < t1.len() && #[trigger] t1[k].id == id2;
                            if w < t0.len() { assert(t0[w].id == id2); assert(has_id(t0, id2)); }
                        }
                        if has_id(t0, id2) {
                            let w = choose|k: int| 0 <= k < t0.len() && #[trigger] t0[k].id == id2;
                            assert(t1[w].id == id2);
                        }
                    }
                }
            } else {
                gone.push(id);
                proof {
                    assert forall|x: ControllerState| #[trigger] kept@.contains(x) <==> (t1.contains(x) && seen@.contains(x.id)) by {
                        if t1.contains(x) && seen@.contains(x.id) {
                            let w = choose|k: int| 0 <= k < t1.len() && t1[k] == x;
                            if w < t0.len() { assert(t0[w] == x); assert(t0.contains(x)); }
                        }
                        if kept@.contains(x) {
                            let w = choose|k: int| 0 <= k < t0.len() && t0[k] == x && seen@.contains(x.id);
                            assert(t1[w] == x);
                        }
                    }
                    assert forall|id2: usize| #[trigger] gone@.contains(id2) <==> (has_id(t1, id2) && !seen@.contains(id2)) by {
                        if gone@.contains(id2) {
                            let w = choose|k: int| 0 <= k < gone@.len() && gone@[k] == id2;
                            if w < gone0.len() {
                                assert(gone0.contains(id2));
                                let v = choose|k: int| 0 <= k < t0.len() && #[trigger] t0[k].id == id2;
                                assert(t1[v].id == id2);
                            } else {
                                assert(t1[m].id == id2);
                            }
                        }
                        if has_id(t1, id2) && !seen@.contains(id2) {
                            let w = choose|k: int| 0 <= k < t1.len() && #[trigger] t1[k].id == id2;
                            if w < t0.len() { assert(t0[w].id == id2); assert(has_id(t0, id2)); assert(gone0.contains(id2)); let v = choose|k: int| 0 <= k < gone0.len() && gone0[k] == id2; assert(gone@[v] == id2); }
                            else { assert(gone@[gone0.len() as int] == id2); }
                        }
                    }
                }
            }
            proof {
                m = m + 1;
                assert(self.states@ =~= orig.skip(m));
            }
        }
        assert(orig.take(m) =~= orig);
        self.states = kept;
        gone
    }

    /// Records what the backends report now: each discovered controller gets
    /// the public ID of its device key (a new key gets the next ID), is marked
    /// connected with the info last reported for it (its `id` replaced by
    /// the public ID) and the time `now`; controllers not reported are
    /// dropped. Returns the IDs that appeared and those that went away.
    pub fn update(&mut self, discovered: &Vec<(usize, ControllerInfo)>, now: Instant) -> (r: RegistryChanges)
        requires
            old(self).wf(),
            old(self).keys().len() + discovered@.len() < usize::MAX,
        ensures
            final(self).wf(),
            final(self).keys() == with_keys(old(self).keys(), discovered@),
            forall|i: int| 0 <= i < final(self).states().len() ==> {
                let s = #[trigger] final(self).states()[i];
                &&& last_info(discovered@, s.backend_key()) matches Some(info)
                &&& s.info == (ControllerInfo { id: s.id, ..info })
                &&& s.last_update == now
            },
            forall|j: int| 0 <= j < discovered@.len() ==> exists|i: int|
                0 <= i < final(self).states().len() && #[trigger] final(self).states()[i].backend_key() == device_key(#[trigger] discovered@[j]),
            forall|id: usize| #[trigger] r.newly_connected@.contains(id) <==> (has_id(final(self).states(), id) && !has_id(old(self).states(), id)),
            forall|id: usize| #[trigger] r.disconnected@.contains(id) <==> (has_id(old(self).states(), id) && !has_id(final(self).states(), id)),
    {
        let ghost old_states = self.states@;
        let ghost old_keys = self.device_keys@;
        let mut newly: Vec<usize> = Vec::new();
        let mut seen: Vec<usize> = Vec::new();
        let n = discovered.len();
        proof {
            assert(discovered@.take(0) =~= Seq::<(usize, ControllerInfo)>::empty());
            assert forall|x: ControllerState| #[trigger] old_states.contains(x) implies x.id < old_keys.len()
                && old_keys[x.id as int] == x.backend_key() && x.info.id == x.id && x.connected by {
                let w = choose|k: int| 0 <= k < old_states.len() && old_states[k] == x;
                assert(self.states()[w] == x);
            }
        }
        let mut j: usize = 0;
        while j < n
            invariant
                n == discovered@.len(),
                j <= n,
                old_keys.len() + n < usize::MAX,
                self.device_keys@ == with_keys(old_keys, discovered@.take(j as int)),
                self.device_keys@.len() <= old_keys.len() + j,
                step_inv(old_states, self.states@, self.device_keys@, discovered@, j as int, seen@, newly@, now),
            decreases n - j,
        {
            let ghost t0 = discovered@.take(j as int);
            let ghost t1 = discovered@.take(j + 1);
            assert(t1.drop_last() =~= t0);
            let b = discovered[j].0;
            let info = &discovered[j].1;
            let key = (b, info.id);
            assert(key == device_key(t1.last()));
            let ghost states0 = self.states@;
            let ghost seen0 = seen@;
            let ghost newly0 = newly@;
            let ghost keys0 = self.device_keys@;
            let pid = self.register(key);
            let st = ControllerState {
                id: pid,
                info: ControllerInfo {
                    id: pid,
                    name: info.name.clone(),
                    controller_type: info.controller_type,
                    button_count: info.button_count,
                    axis_count: info.axis_count,
                },
                connected: true,
                last_update: now,
                backend_index: b,
                backend_controller_id: info.id,
            };
            let ghost stg = st;
            let inserted = self.upsert_state(st);
            if inserted {
                newly.push(pid);
            }
            seen.push(pid);
            proof {
                lemma_update_step(old_states, states0, self.states@, stg, keys0, self.device_keys@, discovered@, j as int,
                    seen0, seen@, newly0, newly@, now, inserted);
            }
            j = j + 1;
        }
        assert(discovered@.take(n as int) =~= discovered@);
        let ghost states1 = self.states@;
        let gone = self.retain_seen(&seen);
        proof {
            lemma_update_finish(old_states, states1, self.states@, self.device_keys@, discovered@, seen@, newly@, gone@, now);
        }
        RegistryChanges { newly_connected: newly, disconnected: gone }
    }
}

/// The state of a discovery pass after its first `j` entries.
pub open spec fn step_inv(
    old_states: Seq<ControllerState>,
    states: Seq<ControllerState>,
    keys: Seq<(usize, usize)>,
    disc: Seq<(usize, ControllerInfo)>,
    j: int,
    seen: Seq<usize>,
    newly: Seq<usize>,
    now: Instant,
) -> bool {
    &&& forall|a: int, b: int| 0 <= a < b < keys.len() ==> keys[a] != keys[b]
    &&& forall|a: int, b: int| 0 <= a < b < states.len() ==> states[a].id < states[b].id
    &&& forall|x: ControllerState| #[trigger] states.contains(x) ==> {
        &&& x.id < keys.len()
        &&& keys[x.id as int] == x.backend_key()
        &&& x.info.id == x.id
        &&& x.connected
        &&& if seen.contains(x.id) {
            &&& last_info(disc.take(j), x.backend_key()) matches Some(info)
            &&& x.info == (ControllerInfo { id: x.id, ..info })
            &&& x.last_update == now
        } else {
            old_states.contains(x)
        }
    }
    &&& forall|id: usize| #[trigger] seen.contains(id) ==> has_id(states, id)
    &&& forall|k: int| 0 <= k < j ==> exists|x: ControllerState| #[trigger] states.contains(x)
        && x.backend_key() == device_key(#[trigger] disc[k]) && seen.contains(x.id)
    &&& forall|id: usize| has_id(old_states, id) ==> #[trigger] has_id(states, id)
    &&& forall|id: usize| #[trigger] newly.contains(id) ==> seen.contains(id)
    &&& forall|id: usize| #[trigger] newly.contains(id) <==> (has_id(states, id) && !has_id(old_states, id))
}

/// `has_id` through membership.
proof fn lemma_has_id_contains(states: Seq<ControllerState>, x: ControllerState)
    requires
        states.contains(x),
    ensures
        has_id(states, x.id),
{
    let w = choose|k: int| 0 <= k < states.len() && states[k] == x;
    assert(states[w].id == x.id);
}

/// One discovery entry keeps [`step_inv`].
proof fn lemma_update_step(
    old_states: Seq<ControllerState>,
    states0: Seq<ControllerState>,
    states1: Seq<ControllerState>,
    st: ControllerState,
    keys0: Seq<(usize, usize)>,
    keys1: Seq<(usize, usize)>,
    disc: Seq<(usize, ControllerInfo)>,
    j: int,
    seen0: Seq<usize>,
    seen1: Seq<usize>,
    newly0: Seq<usize>,
    newly1: Seq<usize>,
    now: Instant,
    inserted: bool,
)
    requires
        0 <= j < disc.len(),
        step_inv(old_states, states0, keys0, disc, j, seen0, newly0, now),
        keys1 == if keys0.contains(device_key(disc[j])) { keys0 } else { keys0.push(device_key(disc[j])) },
        st.id < keys1.len(),
        keys1[st.id as int] == device_key(disc[j]),
        forall|a: int, b: int| 0 <= a < b < keys1.len() ==> keys1[a] != keys1[b],
        st.backend_key() == device_key(disc[j]),
        st.info == (ControllerInfo { id: st.id, ..disc[j].1 }),
        st.connected,
        st.last_update == now,
        forall|a: int, b: int| 0 <= a < b < states1.len() ==> states1[a].id < states1[b].id,
        forall|x: ControllerState| #[trigger] states1.contains(x) <==> (x == st || (states0.contains(x) && x.id != st.id)),
        inserted == !has_id(states0, st.id),
        seen1 == seen0.push(st.id),
        newly1 == if inserted { newly0.push(st.id) } else { newly0 },
    ensures
        step_inv(old_states, states1, keys1, disc, j + 1, seen1, newly1, now),
{
    let pid = st.id;
    let t0 = disc.take(j);
    let t1 = disc.take(j + 1);
    assert(t1.drop_last() =~= t0);
    assert(t1.last() == disc[j]);
    assert(states1.contains(st));
    assert forall|a: int| 0 <= a < keys0.len() implies keys1[a] == keys0[a] by {}
    // has_id in states1 is has_id in states0 or the new ID.
    assert forall|id: usize| #[trigger] has_id(states1, id) <==> (id == pid || has_id(states0, id)) by {
        if has_id(states1, id) {
            let w = choose|k: int| 0 <= k < states1.len() && #[trigger] states1[k].id == id;
            assert(states1.contains(states1[w]));
            if states1[w] != st {
                lemma_has_id_contains(states0, states1[w]);
            }
        }
        if id == pid {
            lemma_has_id_contains(states1, st);
        } else if has_id(states0, id) {
            let w = choose|k: int| 0 <= k < states0.len() && #[trigger] states0[k].id == id;
            assert(states0.contains(states0[w]));
            assert(states1.contains(states0[w]));
            lemma_has_id_contains(states1, states0[w]);
        }
    }
    assert forall|x: ControllerState| #[trigger] states1.contains(x) implies {
        &&& x.id < keys1.len()
        &&& keys1[x.id as int] == x.backend_key()
        &&& x.info.id == x.id
        &&& x.connected
        &&& if seen1.contains(x.id) {
            &&& last_info(t1, x.backend_key()) matches Some(info)
            &&& x.info == (ControllerInfo { id: x.id, ..info })
            &&& x.last_update == now
        } else {
            old_states.contains(x)
        }
    } by {
        if x == st {
            assert(seen1.contains(pid)) by { assert(seen1[seen0.len() as int] == pid); }
        } else {
            assert(states0.contains(x) && x.id != pid);
            assert(seen1.contains(x.id) == seen0.contains(x.id)) by {
                if seen1.contains(x.id) {
                    let w = choose|k: int| 0 <= k < seen1.len() && seen1[k] == x.id;
                    if w < seen0.len() { assert(seen0[w] == x.id); }
                }
                if seen0.contains(x.id) {
                    let w = choose|k: int| 0 <= k < seen0.len() && seen0[k] == x.id;
                    assert(seen1[w] == x.id);
                }
            }
            assert(x.backend_key() != device_key(disc[j])) by {
                assert(keys1[x.id as int] == x.backend_key());
                assert(keys1[pid as int] == device_key(disc[j]));
            }
        }
    }
    assert forall|id: usize| #[trigger] seen1.contains(id) implies has_id(states1, id) by {
        if id != pid {
            let w = choose|k: int| 0 <= k < seen1.len() && seen1[k] == id;
            assert(w < seen0.len());
            assert(seen0[w] == id);
            assert(seen0.contains(id));
        }
    }
    assert forall|k: int| 0 <= k < j + 1 implies exists|x: ControllerState| #[trigger] states1.contains(x)
        && x.backend_key() == device_key(#[trigger] disc[k]) && seen1.contains(x.id) by {
        assert(seen1.contains(pid)) by { assert(seen1[seen0.len() as int] == pid); }
        if k == j {
            assert(states1.contains(st) && st.backend_key() == device_key(disc[k]));
        } else {
            let x = choose|x: ControllerState| #[trigger] states0.contains(x)
                && x.backend_key() == device_key(#[trigger] disc[k]) && seen0.contains(x.id);
            let w = choose|t: int| 0 <= t < seen0.len() && seen0[t] == x.id;
            assert(seen1[w] == x.id);
            if x.id == pid {
                assert(keys0[pid as int] == x.backend_key());
                assert(states1.contains(st) && st.backend_key() == device_key(disc[k]));
            } else {
                assert(states1.contains(x));
            }
        }
    }
    assert forall|id: usize| #[trigger] newly1.contains(id) implies seen1.contains(id) by {
        if id == pid {
            assert(seen1[seen0.len() as int] == pid);
        } else {
            let w = choose|k: int| 0 <= k < newly1.len() && newly1[k] == id;
            assert(w < newly0.len());
            assert(newly0[w] == id);
            assert(newly0.contains(id));
            let v = choose|k: int| 0 <= k < seen0.len() && seen0[k] == id;
            assert(seen1[v] == id);
        }
    }
    assert forall|id: usize| #[trigger] newly1.contains(id) <==> (has_id(states1, id) && !has_id(old_states, id)) by {
        if inserted && !has_id(states0, pid) {
            assert(!has_id(old_states, pid));
        }
        if newly1.contains(id) && id != pid {
            let w = choose|k: int| 0 <= k < newly1.len() && newly1[k] == id;
            if inserted { assert(w < newly0.len()); }
            assert(newly0[w] == id);
            assert(newly0.contains(id));
        }
        if newly0.contains(id) {
            let w = choose|k: int| 0 <= k < newly0.len() && newly0[k] == id;
            assert(newly1[w] == id);
        }
        if inserted && id == pid {
            assert(newly1[newly0.len() as int] == pid);
        }
    }
}

/// Dropping the unseen states after all entries gives what `update` promises.
proof fn lemma_update_finish(
    old_states: Seq<ControllerState>,
    states1: Seq<ControllerState>,
    states2: Seq<ControllerState>,
    keys: Seq<(usize, usize)>,
    disc: Seq<(usize, ControllerInfo)>,
    seen: Seq<usize>,
    newly: Seq<usize>,
    gone: Seq<usize>,
    now: Instant,
)
    requires
        step_inv(old_states, states1, keys, disc, disc.len() as int, seen, newly, now),
        forall|a: int, b: int| 0 <= a < b < states2.len() ==> states2[a].id < states2[b].id,
        forall|x: ControllerState| #[trigger] states2.contains(x) <==> (states1.contains(x) && seen.contains(x.id)),
        forall|id: usize| #[trigger] gone.contains(id) <==> (has_id(states1, id) && !seen.contains(id)),
    ensures
        forall|i: int| 0 <= i < states2.len() ==> {
            let s = #[trigger] states2[i];
            &&& s.id < keys.len()
            &&& keys[s.id as int] == s.backend_key()
            &&& s.info.id == s.id
            &&& s.connected
            &&& last_info(disc, s.backend_key()) matches Some(info)
            &&& s.info == (ControllerInfo { id: s.id, ..info })
            &&& s.last_update == now
        },
        forall|j: int| 0 <= j < disc.len() ==> exists|i: int|
            0 <= i < states2.len() && #[trigger] states2[i].backend_key() == device_key(#[trigger] disc[j]),
        forall|id: usize| #[trigger] newly.contains(id) <==> (has_id(states2, id) && !has_id(old_states, id)),
        forall|id: usize| #[trigger] gone.contains(id) <==> (has_id(old_states, id) && !has_id(states2, id)),
{
    assert(disc.take(disc.len() as int) =~= disc);
    assert forall|i: int| 0 <= i < states2.len() implies {
        let s = #[trigger] states2[i];
        &&& s.id < keys.len()
        &&& keys[s.id as int] == s.backend_key()
        &&& s.info.id == s.id
        &&& s.connected
        &&& last_info(disc, s.backend_key()) matches Some(info)
        &&& s.info == (ControllerInfo { id: s.id, ..info })
        &&& s.last_update == now
    } by {
        assert(states2.contains(states2[i]));
    }
    assert forall|j: int| 0 <= j < disc.len() implies exists|i: int|
        0 <= i < states2.len() && #[trigger] states2[i].backend_key() == device_key(#[trigger] disc[j]) by {
        let x = choose|x: ControllerState| #[trigger] states1.contains(x)
            && x.backend_key() == device_key(#[trigger] disc[j]) && seen.contains(x.id);
        assert(states2.contains(x));
        let w = choose|k: int| 0 <= k < states2.len() && states2[k] == x;
        assert(states2[w].backend_key() == device_key(disc[j]));
    }
    assert forall|id: usize| #[trigger] newly.contains(id) <==> (has_id(states2, id) && !has_id(old_states, id)) by {
        if newly.contains(id) {
            assert(seen.contains(id));
            assert(has_id(states1, id));
            let w = choose|k: int| 0 <= k < states1.len() && #[trigger] states1[k].id == id;
            assert(states1.contains(states1[w]));
            assert(states2.contains(states1[w]));
            lemma_has_id_contains(states2, states1[w]);
        }
        if has_id(states2, id) {
            let w = choose|k: int| 0 <= k < states2.len() && #[trigger] states2[k].id == id;
            assert(states2.contains(states2[w]));
            lemma_has_id_contains(states1, states2[w]);
        }
    }
    assert forall|id: usize| #[trigger] gone.contains(id) <==> (has_id(old_states, id) && !has_id(states2, id)) by {
        if gone.contains(id) {
            let w = choose|k: int| 0 <= k < states1.len() && #[trigger] states1[k].id == id;
            assert(states1.contains(states1[w]));
            assert(old_states.contains(states1[w]));
            lemma_has_id_contains(old_states, states1[w]);
            if has_id(states2, id) {
                let v = choose|k: int| 0 <= k < states2.len() && #[trigger] states2[k].id == id;
                assert(states2.contains(states2[v]));
            }
        }
        if has_id(old_states, id) && !has_id(states2, id) {
            assert(has_id(states1, id));
            let w = choose|k: int| 0 <= k < states1.len() && #[trigger] states1[k].id == id;
            assert(states1.contains(states1[w]));
            if seen.contains(id) {
                assert(states2.contains(states1[w]));
                lemma_has_id_contains(states2, states1[w]);
            }
        }
    }
}

/// Stable IDs: registering discovered devices only appends keys, so every
/// device keeps the public ID (index) it was first given, and afterwards
/// every discovered device has one.
pub proof fn lemma_ids_are_stable(keys: Seq<(usize, usize)>, found: Seq<(usize, ControllerInfo)>)
    ensures
        with_keys(keys, found).len() >= keys.len(),
        with_keys(keys, found).take(keys.len() as int) == keys,
        forall|j: int| 0 <= j < found.len() ==> with_keys(keys, found).contains(device_key(#[trigger] found[j])),
    decreases found.len(),
{
    if found.len() > 0 {
        let prev = found.drop_last();
        lemma_ids_are_stable(keys, prev);
        let k = with_keys(keys, prev);
        let r = with_keys(keys, found);
        if !k.contains(device_key(found.last())) {
            assert(r.take(keys.len() as int) =~= k.take(keys.len() as int));
            assert(r[k.len() as int] == device_key(found.last()));
        }
        assert forall|j: int| 0 <= j < found.len() implies r.contains(device_key(#[trigger] found[j])) by {
            if j < prev.len() {
                assert(prev[j] == found[j]);
                assert(k.contains(device_key(prev[j])));
                let w = choose|t: int| 0 <= t < k.len() && k[t] == device_key(prev[j]);
                assert(r[w] == k[w]);
            } else if !k.contains(device_key(found.last())) {
                assert(r[k.len() as int] == device_key(found[j]));
            }
        }
    } else {
        assert(keys.take(keys.len() as int) =~= keys);
    }
}

} // verus!
