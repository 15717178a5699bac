//! Process-wide connection registry: one record per connected identity,
//! holding its outbound channel, client version and subscriber set.
//!
//! The registry is modelled by two maps keyed by identity: `rel`, the
//! subscriber relation (who is subscribed to whom, in subscription order),
//! and `versions`, the client version each identity reported. Every
//! operation's contract is stated over those maps.
use vstd::prelude::*;
use vstd::seq_lib::group_seq_lib_default;

verus! {

broadcast use group_seq_lib_default;

#[verifier::external_type_specification]
#[verifier::external_body]
#[verifier::reject_recursive_types(T)]
pub struct ExSender<T>(futures::channel::mpsc::Sender<T>);

/// Relies on futures::channel::mpsc::Sender::start_send: queues the message
/// if the channel is open and has room, and reports failure otherwise.
/// Whether it succeeds depends on the channel's current state, so nothing
/// more is assumed of the outcome.
#[verifier::external_body]
fn channel_send(tx: &mut futures::channel::mpsc::Sender<String>, frame: String) -> (r: bool) {
    tx.start_send(frame).is_ok()
}

/// Why a frame could not be handed to an identity's outbound channel.
#[derive(Clone, Copy, Debug, PartialEq, Eq, Structural)]
pub enum DeliveryError {
    /// The identity has no live connection record.
    TargetNotRegistered,
    /// The identity is registered but its channel is closed or full.
    ChannelError,
}

/// The per-connection record: outbound channel, the identities subscribed
/// to this connection's presence, and the client version it reported.
pub struct PlayerData {
    pub ws_tx: futures::channel::mpsc::Sender<String>,
    pub subbed_by: Vec<i32>,
    pub game_version: String,
}

impl PlayerData {
    pub fn new(tx: futures::channel::mpsc::Sender<String>, game_version: String) -> (r: PlayerData)
        ensures
            r.ws_tx == tx,
            r.subbed_by@ == Seq::<i32>::empty(),
            r.game_version == game_version,
    {
        PlayerData { ws_tx: tx, subbed_by: vec![], game_version }
    }
}

/// The predicate that keeps every subscriber other than `x`.
pub open spec fn keep_others(x: i32) -> spec_fn(i32) -> bool {
    |s: i32| s != x
}

/// The subscriber relation after identity `caller` replaces its
/// subscriptions with `targets`: `caller` is first removed from every
/// subscriber sequence, then appended to the sequence of each connected
/// target. This is the overwrite semantics of a subscription update.
pub open spec fn apply_update(rel: Map<i32, Seq<i32>>, caller: i32, targets: Seq<i32>) -> Map<
    i32,
    Seq<i32>,
> {
    Map::new(
        |k: i32| rel.dom().contains(k),
        |k: i32|
            rel[k].filter(keep_others(caller)) + if targets.contains(k) {
                seq![caller]
            } else {
                Seq::<i32>::empty()
            },
    )
}

/// The subscriber relation after identity `a` disconnects: `a`'s own
/// record is dropped and `a` is removed from every other identity's
/// subscriber sequence.
pub open spec fn apply_unregister(rel: Map<i32, Seq<i32>>, a: i32) -> Map<i32, Seq<i32>> {
    Map::new(
        |k: i32| rel.dom().contains(k) && k != a,
        |k: i32| rel[k].filter(keep_others(a)),
    )
}

/// Disconnecting `a` removes `a` from every identity's subscriber
/// sequence, and `a` itself is no longer connected (so a broadcast
/// addressed to it is refused).
pub proof fn lemma_unregister_purges(rel: Map<i32, Seq<i32>>, a: i32)
    ensures
        !apply_unregister(rel, a).dom().contains(a),
        forall|k: i32| #[trigger]
            apply_unregister(rel, a).dom().contains(k) ==> !apply_unregister(rel, a)[k].contains(
                a,
            ),
{
    assert forall|k: i32| #[trigger]
        apply_unregister(rel, a).dom().contains(k) implies !apply_unregister(rel, a)[k].contains(
        a,
    ) by {
        lemma_filter_drops_x(rel[k], a);
    }
}

proof fn lemma_filter_singleton(x: i32, p: spec_fn(i32) -> bool)
    ensures
        seq![x].filter(p) == if p(x) {
            seq![x]
        } else {
            Seq::<i32>::empty()
        },
{
    reveal_with_fuel(Seq::filter, 2);
    assert(seq![x].drop_last() =~= Seq::<i32>::empty());
    assert(seq![x].last() == x);
    if p(x) {
        assert(Seq::<i32>::empty().push(x) =~= seq![x]);
    }
}

proof fn lemma_filter_all_true(s: Seq<i32>, p: spec_fn(i32) -> bool)
    requires
        forall|i: int| 0 <= i < s.len() ==> p(s[i]),
    ensures
        s.filter(p) == s,
    decreases s.len(),
{
    reveal(Seq::filter);
    if s.len() > 0 {
        lemma_filter_all_true(s.drop_last(), p);
        assert(s.drop_last().push(s.last()) =~= s);
    }
}

/// A sequence filtered by `keep_others(x)` never contains `x`.
proof fn lemma_filter_drops_x(s: Seq<i32>, x: i32)
    ensures
        !s.filter(keep_others(x)).contains(x),
{
    let out = s.filter(keep_others(x));
    if out.contains(x) {
        let i = choose|i: int| 0 <= i < out.len() && out[i] == x;
        assert(keep_others(x)(out[i]));
    }
}

/// Overwrite, not union: two successive subscription updates from the
/// same caller leave exactly the relation of the second update alone.
pub proof fn lemma_update_overwrites(
    rel: Map<i32, Seq<i32>>,
    caller: i32,
    t1: Seq<i32>,
    t2: Seq<i32>,
)
    ensures
        apply_update(apply_update(rel, caller, t1), caller, t2) =~= apply_update(rel, caller, t2),
{
    let p = keep_others(caller);
    let once = apply_update(rel, caller, t1);
    let twice = apply_update(once, caller, t2);
    let direct = apply_update(rel, caller, t2);
    assert forall|k: i32| twice.dom().contains(k) implies twice[k] == direct[k] by {
        let base = rel[k].filter(p);
        let e1: Seq<i32> = if t1.contains(k) {
            seq![caller]
        } else {
            Seq::<i32>::empty()
        };
        assert(once[k] == base + e1);
        assert((base + e1).filter(p) == base.filter(p) + e1.filter(p));
        assert(base.filter(p) == base) by {
            lemma_filter_all_true(base, p);
        }
        assert(e1.filter(p) =~= Seq::<i32>::empty()) by {
            if t1.contains(k) {
                lemma_filter_singleton(caller, p);
            } else {
                reveal(Seq::filter);
            }
        }
        assert(base + Seq::<i32>::empty() =~= base);
    }
}

/// The subscriber relation after a whole sequence of subscription updates
/// from one caller, applied oldest first.
pub open spec fn apply_updates(rel: Map<i32, Seq<i32>>, caller: i32, updates: Seq<Seq<i32>>) -> Map<
    i32,
    Seq<i32>,
>
    decreases updates.len(),
{
    if updates.len() == 0 {
        rel
    } else {
        apply_update(apply_updates(rel, caller, updates.drop_last()), caller, updates.last())
    }
}

/// For any sequence of subscription updates from one caller, the final
/// subscriber relation is exactly that of the most recent update alone:
/// an update overwrites, it does not accumulate.
pub proof fn lemma_last_update_wins(rel: Map<i32, Seq<i32>>, caller: i32, updates: Seq<Seq<i32>>)
    requires
        updates.len() > 0,
    ensures
        apply_updates(rel, caller, updates) =~= apply_update(rel, caller, updates.last()),
    decreases updates.len(),
{
    if updates.len() == 1 {
        assert(updates.drop_last().len() == 0);
        assert(apply_updates(rel, caller, updates.drop_last()) == rel);
    } else {
        lemma_last_update_wins(rel, caller, updates.drop_last());
        lemma_update_overwrites(rel, caller, updates.drop_last().last(), updates.last());
    }
}

/// After any sequence of subscription updates from one caller, the caller
/// stands in a connected identity's subscriber sequence exactly when that
/// identity is in the most recently supplied target set.
pub proof fn lemma_last_update_membership(
    rel: Map<i32, Seq<i32>>,
    caller: i32,
    updates: Seq<Seq<i32>>,
    k: i32,
)
    requires
        updates.len() > 0,
        rel.dom().contains(k),
    ensures
        apply_updates(rel, caller, updates)[k].contains(caller) <==> updates.last().contains(k),
{
    lemma_last_update_wins(rel, caller, updates);
    lemma_update_membership(rel, caller, updates.last(), k);
}

/// After a subscription update from `caller` with target set `targets`,
/// `caller` stands in the subscriber sequence of a connected identity
/// exactly when that identity is in `targets`.
pub proof fn lemma_update_membership(
    rel: Map<i32, Seq<i32>>,
    caller: i32,
    targets: Seq<i32>,
    k: i32,
)
    requires
        rel.dom().contains(k),
    ensures
        apply_update(rel, caller, targets)[k].contains(caller) <==> targets.contains(k),
{
    let p = keep_others(caller);
    let base = rel[k].filter(p);
    lemma_filter_drops_x(rel[k], caller);
    let out = apply_update(rel, caller, targets)[k];
    if targets.contains(k) {
        assert(out == base + seq![caller]);
        assert(out[out.len() - 1] == caller);
        assert(out.contains(caller));
    } else {
        assert(out == base + Seq::<i32>::empty());
        assert(out =~= base);
        if out.contains(caller) {
            assert(base.contains(caller));
        }
    }
}

/// Builds a copy of `v` that leaves out every occurrence of `x`.
fn filter_out(v: &Vec<i32>, x: i32) -> (r: Vec<i32>)
    ensures
        r@ == v@.filter(keep_others(x)),
{
    let mut out: Vec<i32> = Vec::new();
    let mut i: usize = 0;
    while i < v.len()
        invariant
            i <= v@.len(),
            out@ == v@.take(i as int).filter(keep_others(x)),
        decreases v@.len() - i,
    {
        proof {
            assert(v@.take(i + 1) =~= v@.take(i as int) + seq![v@[i as int]]);
            lemma_filter_singleton(v@[i as int], keep_others(x));
            assert(v@.take(i + 1).filter(keep_others(x)) == v@.take(i as int).filter(
                keep_others(x),
            ) + seq![v@[i as int]].filter(keep_others(x)));
        }
        if v[i] != x {
            out.push(v[i]);
            proof {
                assert(out@ =~= v@.take(i + 1).filter(keep_others(x)));
            }
        } else {
            proof {
                assert(out@ =~= v@.take(i + 1).filter(keep_others(x)));
            }
        }
        i = i + 1;
    }
    proof {
        assert(v@.take(v@.len() as int) =~= v@);
    }
    out
}

/// The connection table. At most one record exists per identity.
pub struct Registry {
    entries: Vec<(i32, PlayerData)>,
}

impl Registry {
    spec fn ids(self) -> Seq<i32> {
        self.entries@.map_values(|e: (i32, PlayerData)| e.0)
    }

    /// At most one record per identity.
    pub closed spec fn wf(self) -> bool {
        forall|i: int, j: int|
            0 <= i < j < self.ids().len() ==> self.ids()[i] != self.ids()[j]
    }

    /// The subscriber relation: for each connected identity, the sequence
    /// of identities subscribed to it, in subscription order.
    pub closed spec fn rel(self) -> Map<i32, Seq<i32>> {
        Map::new(
            |k: i32| self.ids().contains(k),
            |k: i32| self.entries@[self.ids().index_of(k)].1.subbed_by@,
        )
    }

    /// The client version reported by each connected identity.
    pub closed spec fn versions(self) -> Map<i32, Seq<char>> {
        Map::new(
            |k: i32| self.ids().contains(k),
            |k: i32| self.entries@[self.ids().index_of(k)].1.game_version@,
        )
    }

    pub open spec fn contains_id(self, id: i32) -> bool {
        self.rel().dom().contains(id)
    }

    pub open spec fn subs(self, id: i32) -> Seq<i32> {
        self.rel()[id]
    }

    proof fn lemma_at(self, i: int)
        requires
            self.wf(),
            0 <= i < self.entries@.len(),
        ensures
            self.ids().contains(self.entries@[i].0),
            self.ids().index_of(self.entries@[i].0) == i,
            self.rel().dom().contains(self.entries@[i].0),
            self.rel()[self.entries@[i].0] == self.entries@[i].1.subbed_by@,
            self.versions()[self.entries@[i].0] == self.entries@[i].1.game_version@,
    {
        let id = self.entries@[i].0;
        assert(self.ids()[i] == id);
        assert(self.ids().contains(id));
        let j = self.ids().index_of(id);
        assert(0 <= j < self.ids().len() && self.ids()[j] == id);
        if i != j {
            assert(self.ids()[i] == self.ids()[j]);
        }
    }

    proof fn lemma_lookup(self, id: i32)
        requires
            self.wf(),
            self.ids().contains(id),
        ensures
            0 <= self.ids().index_of(id) < self.entries@.len(),
            self.entries@[self.ids().index_of(id)].0 == id,
            self.rel()[id] == self.entries@[self.ids().index_of(id)].1.subbed_by@,
            self.versions()[id] == self.entries@[self.ids().index_of(id)].1.game_version@,
    {
        let j = self.ids().index_of(id);
        assert(0 <= j < self.ids().len() && self.ids()[j] == id);
    }

    pub fn new() -> (r: Registry)
        ensures
            r.wf(),
            r.rel() =~= Map::<i32, Seq<i32>>::empty(),
            r.versions() =~= Map::<i32, Seq<char>>::empty(),
    {
        Registry { entries: Vec::new() }
    }

    fn find_index(&self, account_id: i32) -> (r: Option<usize>)
        ensures
            match r {
                Some(i) => i < self.entries@.len() && self.entries@[i as int].0 == account_id,
                None => !self.ids().contains(account_id),
            },
    {
        let mut i: usize = 0;
        while i < self.entries.len()
            invariant
                i <= self.entries@.len(),
                forall|t: int| 0 <= t < i ==> self.entries@[t].0 != account_id,
            decreases self.entries@.len() - i,
        {
            if self.entries[i].0 == account_id {
                return Some(i);
            }
            i = i + 1;
        }
        proof {
            assert forall|t: int| 0 <= t < self.ids().len() implies self.ids()[t]
                != account_id by {
                assert(self.entries@[t].0 != account_id);
            }
        }
        None
    }

    /// True when the identity currently has a live connection record.
    pub fn is_connected(&self, account_id: i32) -> (r: bool)
        ensures
            r == self.contains_id(account_id),
    {
        match self.find_index(account_id) {
            Some(i) => {
                proof {
                    assert(self.ids()[i as int] == account_id);
                    assert(self.ids().contains(account_id));
                }
                true
            },
            None => false,
        }
    }

    /// Adds a record for `account_id` with an empty subscriber set.
    /// Refuses to overwrite: if the identity is already registered the
    /// registry is left untouched and `false` is returned.
    pub fn register(
        &mut self,
        account_id: i32,
        tx: futures::channel::mpsc::Sender<String>,
        game_version: String,
    ) -> (r: bool)
        requires
            old(self).wf(),
        ensures
            final(self).wf(),
            r == !old(self).contains_id(account_id),
            !r ==> *final(self) == *old(self),
            r ==> final(self).rel() =~= old(self).rel().insert(account_id, Seq::<i32>::empty()),
            r ==> final(self).versions() =~= old(self).versions().insert(
                account_id,
                game_version@,
            ),
    {
        if self.is_connected(account_id) {
            return false;
        }
        let ghost pre = *self;
        self.entries.push((account_id, PlayerData::new(tx, game_version)));
        proof {
            let n = pre.entries@.len();
            assert(self.ids() =~= pre.ids().push(account_id));
            assert forall|i: int, j: int|
                0 <= i < j < self.ids().len() implies self.ids()[i] != self.ids()[j] by {
                if j == n {
                    if pre.ids()[i] == account_id {
                        assert(pre.ids().contains(account_id));
                    }
                }
            }
            assert(self.ids()[n as int] == account_id);
            assert(self.ids().contains(account_id));
            assert forall|k: i32| #[trigger] self.ids().contains(k) && k != account_id implies pre
                .ids().contains(k) by {
                let t = choose|t: int| 0 <= t < self.ids().len() && self.ids()[t] == k;
                assert(pre.ids()[t] == k);
            }
            assert forall|k: i32| #[trigger] pre.ids().contains(k) implies self.ids().contains(
                k,
            ) by {
                let t = choose|t: int| 0 <= t < pre.ids().len() && pre.ids()[t] == k;
                assert(self.ids()[t] == k);
            }
            assert(self.rel().dom() =~= pre.rel().insert(
                account_id,
                Seq::<i32>::empty(),
            ).dom());
            assert(self.versions().dom() =~= pre.versions().insert(
                account_id,
                game_version@,
            ).dom());
            assert forall|k: i32| #[trigger]
                self.rel().dom().contains(k) implies self.rel()[k] == pre.rel().insert(
                account_id,
                Seq::<i32>::empty(),
            )[k] && self.versions()[k] == pre.versions().insert(account_id, game_version@)[k] by {
                if k == account_id {
                    self.lemma_at(n as int);
                } else {
                    let t = choose|t: int| 0 <= t < self.ids().len() && self.ids()[t] == k;
                    assert(t < n);
                    assert(pre.ids()[t] == k);
                    assert(pre.ids().contains(k));
                    pre.lemma_lookup(k);
                    let j = pre.ids().index_of(k);
                    self.lemma_at(j);
                }
            }
        }
        true
    }

    /// Removes `x` from the subscriber sequence of every entry in place.
    /// Ids, versions and channels stay untouched.
    fn purge_subscriber(&mut self, x: i32)
        requires
            old(self).wf(),
        ensures
            final(self).wf(),
            final(self).entries@.len() == old(self).entries@.len(),
            forall|j: int|
                0 <= j < old(self).entries@.len() ==> {
                    &&& (#[trigger] final(self).entries@[j]).0 == old(self).entries@[j].0
                    &&& final(self).entries@[j].1.subbed_by@ == old(self).entries@[j].1.subbed_by@
                        .filter(keep_others(x))
                    &&& final(self).entries@[j].1.game_version == old(
                        self,
                    ).entries@[j].1.game_version
                    &&& final(self).entries@[j].1.ws_tx == old(self).entries@[j].1.ws_tx
                },
    {
        let ghost snap = self.entries@;
        let n = self.entries.len();
        let mut i: usize = 0;
        while i < n
            invariant
                i <= n,
                n == snap.len(),
                self.entries@.len() == n,
                forall|j: int| i <= j < n ==> #[trigger] self.entries@[j] == snap[j],
                forall|j: int|
                    0 <= j < i ==> {
                        &&& (#[trigger] self.entries@[j]).0 == snap[j].0
                        &&& self.entries@[j].1.subbed_by@ == snap[j].1.subbed_by@.filter(
                            keep_others(x),
                        )
                        &&& self.entries@[j].1.game_version == snap[j].1.game_version
                        &&& self.entries@[j].1.ws_tx == snap[j].1.ws_tx
                    },
            decreases n - i,
        {
            let ghost before = self.entries@;
            let e = self.entries.remove(i);
            let id = e.0;
            let mut pd = e.1;
            pd.subbed_by = filter_out(&pd.subbed_by, x);
            self.entries.insert(i, (id, pd));
            proof {
                assert(self.entries@ =~= before.update(i as int, self.entries@[i as int]));
            }
            i = i + 1;
        }
        proof {
            assert(self.ids() =~= old(self).ids());
        }
    }

    /// Removes the record for `account_id`, then removes `account_id` from
    /// every remaining record's subscriber sequence. After the call no
    /// subscriber sequence mentions the departed identity.
    pub fn unregister(&mut self, account_id: i32)
        requires
            old(self).wf(),
        ensures
            final(self).wf(),
            final(self).rel() =~= apply_unregister(old(self).rel(), account_id),
            final(self).versions() =~= old(self).versions().remove(account_id),
            forall|k: i32|
                #[trigger] final(self).contains_id(k) ==> !final(self).subs(k).contains(
                    account_id,
                ),
    {
        let ghost pre = *self;
        match self.find_index(account_id) {
            Some(i) => {
                proof {
                    assert(pre.ids()[i as int] == account_id);
                    assert(pre.ids().contains(account_id));
                    pre.lemma_at(i as int);
                }
                let _ = self.entries.remove(i);
                proof {
                    assert(self.ids() =~= pre.ids().remove(i as int));
                }
            },
            None => {
                proof {
                    assert(!pre.ids().contains(account_id));
                }
            },
        }
        let ghost mid = *self;
        proof {
            assert(mid.wf()) by {
                assert forall|a: int, b: int|
                    0 <= a < b < mid.ids().len() implies mid.ids()[a] != mid.ids()[b] by {
                    assert(pre.wf());
                }
            }
            // the removed identity is gone from the domain, everything else kept
            assert forall|k: i32| #[trigger] mid.ids().contains(k) implies pre.ids().contains(k)
                && k != account_id by {
                let t = choose|t: int| 0 <= t < mid.ids().len() && mid.ids()[t] == k;
                if pre.ids().contains(account_id) {
                    let i = pre.ids().index_of(account_id);
                    pre.lemma_lookup(account_id);
                    let t0: int = if t < i {
                        t
                    } else {
                        t + 1
                    };
                    assert(pre.ids()[t0] == k);
                    assert(pre.ids().contains(k));
                    if k == account_id {
                        assert(pre.ids()[t0] == pre.ids()[i]);
                    }
                } else {
                    assert(pre.ids()[t] == k);
                    if k == account_id {
                        assert(pre.ids().contains(account_id));
                    }
                }
            }
            assert forall|k: i32|
                pre.ids().contains(k) && k != account_id implies #[trigger] mid.ids().contains(
                k,
            ) by {
                let t = choose|t: int| 0 <= t < pre.ids().len() && pre.ids()[t] == k;
                if pre.ids().contains(account_id) {
                    let i = pre.ids().index_of(account_id);
                    pre.lemma_lookup(account_id);
                    assert(t != i);
                    let t1: int = if t < i {
                        t
                    } else {
                        t - 1
                    };
                    assert(mid.ids()[t1] == k);
                } else {
                    assert(mid.ids()[t] == k);
                }
            }
            // records that stay keep their data
            assert forall|k: i32| #[trigger] mid.ids().contains(k) implies mid.rel()[k]
                == pre.rel()[k] && mid.versions()[k] == pre.versions()[k] by {
                mid.lemma_lookup(k);
                pre.lemma_lookup(k);
                let j = mid.ids().index_of(k);
                let j0 = pre.ids().index_of(k);
                if pre.ids().contains(account_id) {
                    let i = pre.ids().index_of(account_id);
                    let jj: int = if j < i {
                        j
                    } else {
                        j + 1
                    };
                    assert(pre.ids()[jj] == k);
                    assert(jj == j0) by {
                        if jj != j0 {
                            assert(pre.ids()[jj] == pre.ids()[j0]);
                        }
                    }
                    assert(mid.entries@[j] == pre.entries@[j0]);
                } else {
                    assert(mid.entries@ == pre.entries@);
                    assert(j == j0) by {
                        if j != j0 {
                            assert(pre.ids()[j] == pre.ids()[j0]);
                        }
                    }
                }
            }
        }
        self.purge_subscriber(account_id);
        proof {
            assert(self.ids() =~= mid.ids());
            assert forall|k: i32| #[trigger] self.ids().contains(k) implies self.rel()[k]
                == mid.rel()[k].filter(keep_others(account_id)) && self.versions()[k]
                == mid.versions()[k] by {
                self.lemma_lookup(k);
                mid.lemma_lookup(k);
                let j = self.ids().index_of(k);
                let j0 = mid.ids().index_of(k);
                assert(j == j0) by {
                    if j != j0 {
                        assert(mid.ids()[j] == mid.ids()[j0]);
                    }
                }
            }
            assert(self.rel().dom() =~= apply_unregister(pre.rel(), account_id).dom());
            assert(self.versions().dom() =~= pre.versions().remove(account_id).dom());
            assert forall|k: i32| #[trigger] self.contains_id(k) implies !self.subs(k).contains(
                account_id,
            ) by {
                lemma_filter_drops_x(pre.rel()[k], account_id);
            }
        }
    }

    /// For every entry: drop `caller` from its subscriber sequence, then
    /// append `caller` if the entry's identity is among `targets`.
    fn overwrite_subscriber(&mut self, caller: i32, targets: &Vec<i32>)
        requires
            old(self).wf(),
        ensures
            final(self).wf(),
            final(self).entries@.len() == old(self).entries@.len(),
            forall|j: int|
                0 <= j < old(self).entries@.len() ==> {
                    &&& (#[trigger] final(self).entries@[j]).0 == old(self).entries@[j].0
                    &&& final(self).entries@[j].1.subbed_by@ == old(self).entries@[j].1.subbed_by@
                        .filter(keep_others(caller)) + if targets@.contains(
                        old(self).entries@[j].0,
                    ) {
                        seq![caller]
                    } else {
                        Seq::<i32>::empty()
                    }
                    &&& final(self).entries@[j].1.game_version == old(
                        self,
                    ).entries@[j].1.game_version
                    &&& final(self).entries@[j].1.ws_tx == old(self).entries@[j].1.ws_tx
                },
    {
        let ghost snap = self.entries@;
        let n = self.entries.len();
        let mut i: usize = 0;
        while i < n
            invariant
                i <= n,
                n == snap.len(),
                self.entries@.len() == n,
                forall|j: int| i <= j < n ==> #[trigger] self.entries@[j] == snap[j],
                forall|j: int|
                    0 <= j < i ==> {
                        &&& (#[trigger] self.entries@[j]).0 == snap[j].0
                        &&& self.entries@[j].1.subbed_by@ == snap[j].1.subbed_by@.filter(
                            keep_others(caller),
                        ) + if targets@.contains(snap[j].0) {
                            seq![caller]
                        } else {
                            Seq::<i32>::empty()
                        }
                        &&& self.entries@[j].1.game_version == snap[j].1.game_version
                        &&& self.entries@[j].1.ws_tx == snap[j].1.ws_tx
                    },
            decreases n - i,
        {
            let ghost before = self.entries@;
            let e = self.entries.remove(i);
            let id = e.0;
            let mut pd = e.1;
            pd.subbed_by = filter_out(&pd.subbed_by, caller);
            if crate::photon::contains_id(targets, id) {
                pd.subbed_by.push(caller);
                proof {
                    assert(pd.subbed_by@ =~= snap[i as int].1.subbed_by@.filter(
                        keep_others(caller),
                    ) + seq![caller]);
                }
            } else {
                proof {
                    assert(pd.subbed_by@ =~= snap[i as int].1.subbed_by@.filter(
                        keep_others(caller),
                    ) + Seq::<i32>::empty());
                }
            }
            self.entries.insert(i, (id, pd));
            proof {
                assert(self.entries@ =~= before.update(i as int, self.entries@[i as int]));
            }
            i = i + 1;
        }
        proof {
            assert(self.ids() =~= old(self).ids());
        }
    }

    /// Applies a subscription update from `caller` with target set
    /// `targets`, atomically across the whole table: `caller`'s previous
    /// subscriptions are entirely replaced by the new set. Fails (and
    /// leaves the table untouched) when `caller` has no record.
    pub fn apply_subscription_update(&mut self, caller: i32, targets: &Vec<i32>) -> (found: bool)
        requires
            old(self).wf(),
        ensures
            final(self).wf(),
            found == old(self).contains_id(caller),
            !found ==> *final(self) == *old(self),
            found ==> final(self).rel() =~= apply_update(old(self).rel(), caller, targets@),
            found ==> final(self).versions() =~= old(self).versions(),
    {
        if !self.is_connected(caller) {
            return false;
        }
        let ghost pre = *self;
        self.overwrite_subscriber(caller, targets);
        proof {
            assert(self.ids() =~= pre.ids());
            assert forall|k: i32| #[trigger] self.ids().contains(k) implies self.rel()[k]
                == apply_update(pre.rel(), caller, targets@)[k] && self.versions()[k]
                == pre.versions()[k] by {
                self.lemma_lookup(k);
                pre.lemma_lookup(k);
                let j = self.ids().index_of(k);
                let j0 = pre.ids().index_of(k);
                assert(j == j0) by {
                    if j != j0 {
                        assert(pre.ids()[j] == pre.ids()[j0]);
                    }
                }
            }
            assert(self.rel().dom() =~= apply_update(pre.rel(), caller, targets@).dom());
            assert(self.versions().dom() =~= pre.versions().dom());
        }
        true
    }

    /// A snapshot of the identities currently subscribed to `account_id`,
    /// for broadcast purposes; absent identities yield no snapshot.
    pub fn lookup_subscribers(&self, account_id: i32) -> (r: Option<Vec<i32>>)
        requires
            self.wf(),
        ensures
            r is Some <==> self.contains_id(account_id),
            r matches Some(v) ==> v@ == self.subs(account_id),
    {
        match self.find_index(account_id) {
            Some(i) => {
                proof {
                    self.lemma_at(i as int);
                }
                let subs = &self.entries[i].1.subbed_by;
                let mut out: Vec<i32> = Vec::new();
                let mut j: usize = 0;
                while j < subs.len()
                    invariant
                        j <= subs@.len(),
                        out@ =~= subs@.take(j as int),
                    decreases subs@.len() - j,
                {
                    out.push(subs[j]);
                    j = j + 1;
                }
                proof {
                    assert(subs@.take(subs@.len() as int) =~= subs@);
                }
                Some(out)
            },
            None => None,
        }
    }

    /// Hands a frame to the identity's outbound channel. Fails with
    /// `TargetNotRegistered` exactly when the identity has no record, and
    /// with `ChannelError` when the record's channel refused the frame.
    /// The subscriber relation and versions are untouched either way.
    pub fn deliver(&mut self, account_id: i32, frame: String) -> (r: Result<(), DeliveryError>)
        requires
            old(self).wf(),
        ensures
            final(self).wf(),
            final(self).rel() =~= old(self).rel(),
            final(self).versions() =~= old(self).versions(),
            r == Err::<(), DeliveryError>(DeliveryError::TargetNotRegistered) <==> !old(
                self,
            ).contains_id(account_id),
            old(self).contains_id(account_id) ==> r == Ok::<(), DeliveryError>(()) || r == Err::<
                (),
                DeliveryError,
            >(DeliveryError::ChannelError),
    {
        let ghost pre = *self;
        match self.find_index(account_id) {
            Some(i) => {
                proof {
                    assert(pre.ids()[i as int] == account_id);
                    assert(pre.ids().contains(account_id));
                }
                let ghost before = self.entries@;
                let e = self.entries.remove(i);
                let id = e.0;
                let mut pd = e.1;
                let sent = channel_send(&mut pd.ws_tx, frame);
                self.entries.insert(i, (id, pd));
                proof {
                    assert(self.entries@ =~= before.update(i as int, self.entries@[i as int]));
                    assert(self.ids() =~= pre.ids());
                    assert forall|k: i32| #[trigger] self.ids().contains(k) implies self.rel()[k]
                        == pre.rel()[k] && self.versions()[k] == pre.versions()[k] by {
                        self.lemma_lookup(k);
                        pre.lemma_lookup(k);
                        let j = self.ids().index_of(k);
                        let j0 = pre.ids().index_of(k);
                        assert(j == j0) by {
                            if j != j0 {
                                assert(pre.ids()[j] == pre.ids()[j0]);
                            }
                        }
                    }
                    assert(self.rel().dom() =~= pre.rel().dom());
                    assert(self.versions().dom() =~= pre.versions().dom());
                }
                if sent {
                    Ok(())
                } else {
                    Err(DeliveryError::ChannelError)
                }
            },
            None => Err(DeliveryError::TargetNotRegistered),
        }
    }
}

} // verus!
