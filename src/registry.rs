//! The in-memory source of truth for what happens to each process's traffic.
use std::collections::HashMap;
use vstd::prelude::*;
use vstd::std_specs::iter::IteratorSpec;

verus! {

broadcast use vstd::std_specs::hash::group_hash_axioms;

/// What is enforced on one process.
#[derive(Debug, Clone, Copy, PartialEq, Eq, Structural)]
pub enum PolicyState {
    /// Nothing is enforced (the process has no entry).
    Unmanaged,
    /// Every packet attributed to the process is dropped.
    Blocked,
    /// An operating-system policy was requested at `kbps` KiB/s; `fallback`
    /// tells that the policy failed and the delay-based limiter stands in.
    Limited { kbps: u32, fallback: bool },
}

/// Map from process id to the state enforced on it. A process without an
/// entry is `Unmanaged`, and no entry holds `Unmanaged`.
pub struct PolicyRegistry {
    entries: HashMap<u32, PolicyState>,
}

/// The state of `pid` in the map `m`.
pub open spec fn state_in(m: Map<u32, PolicyState>, pid: u32) -> PolicyState {
    if m.contains_key(pid) {
        m[pid]
    } else {
        PolicyState::Unmanaged
    }
}

/// `m` after `pid` is put in state `s`.
pub open spec fn with_state(m: Map<u32, PolicyState>, pid: u32, s: PolicyState) -> Map<
    u32,
    PolicyState,
> {
    if s == PolicyState::Unmanaged {
        m.remove(pid)
    } else {
        m.insert(pid, s)
    }
}

impl View for PolicyRegistry {
    type V = Map<u32, PolicyState>;

    closed spec fn view(&self) -> Map<u32, PolicyState> {
        self.entries@
    }
}

impl PolicyRegistry {
    /// No entry holds `Unmanaged`.
    pub open spec fn wf(&self) -> bool {
        forall|p: u32| #[trigger] self@.contains_key(p) ==> self@[p] != PolicyState::Unmanaged
    }

    /// The state of `pid`.
    pub open spec fn state(&self, pid: u32) -> PolicyState {
        state_in(self@, pid)
    }

    /// An empty registry.
    pub fn new() -> (r: Self)
        ensures
            r.wf(),
            r@ == Map::<u32, PolicyState>::empty(),
    {
        PolicyRegistry { entries: HashMap::new() }
    }

    /// The state of `pid`, `Unmanaged` where it has no entry.
    pub fn get(&self, pid: u32) -> (r: PolicyState)
        ensures
            r == self.state(pid),
    {
        match self.entries.get(&pid) {
            Some(s) => *s,
            None => PolicyState::Unmanaged,
        }
    }

    /// Puts `pid` in state `s`; `Unmanaged` removes its entry.
    pub fn set(&mut self, pid: u32, s: PolicyState)
        requires
            old(self).wf(),
        ensures
            final(self).wf(),
            final(self)@ == with_state(old(self)@, pid, s),
    {
        if s == PolicyState::Unmanaged {
            self.entries.remove(&pid);
        } else {
            self.entries.insert(pid, s);
        }
    }

    /// Blocks `pid` (`true`) or returns it to `Unmanaged` (`false`).
    pub fn set_blocked(&mut self, pid: u32, blocked: bool)
        requires
            old(self).wf(),
        ensures
            final(self).wf(),
            final(self)@ == with_state(
                old(self)@,
                pid,
                if blocked {
                    PolicyState::Blocked
                } else {
                    PolicyState::Unmanaged
                },
            ),
    {
        if blocked {
            self.set(pid, PolicyState::Blocked);
        } else {
            self.set(pid, PolicyState::Unmanaged);
        }
    }

    /// Whether packets of `pid` are to be dropped.
    pub fn is_blocked(&self, pid: u32) -> (r: bool)
        ensures
            r == (self.state(pid) == PolicyState::Blocked),
    {
        match self.entries.get(&pid) {
            Some(s) => *s == PolicyState::Blocked,
            None => false,
        }
    }

    /// Removes the entry of `pid`.
    pub fn remove(&mut self, pid: u32)
        requires
            old(self).wf(),
        ensures
            final(self).wf(),
            final(self)@ == old(self)@.remove(pid),
    {
        self.entries.remove(&pid);
    }

    /// Removes every entry.
    pub fn clear(&mut self)
        ensures
            final(self).wf(),
            final(self)@ == Map::<u32, PolicyState>::empty(),
    {
        self.entries.clear();
    }

    /// Number of managed processes.
    pub fn len(&self) -> (r: usize)
        ensures
            r == self@.len(),
    {
        self.entries.len()
    }

    /// Every managed process, in no particular order.
    pub fn managed_pids(&self) -> (r: Vec<u32>)
        ensures
            forall|p: u32| r@.contains(p) <==> self@.contains_key(p),
    {
        let mut out: Vec<u32> = Vec::new();
        let ghost whole = vstd::std_specs::hash::spec_hash_map_iter(&self.entries).remaining();
        for (k, v) in it: self.entries.iter()
            invariant
                it.seq() == whole,
                whole == vstd::std_specs::hash::spec_hash_map_iter(&self.entries).remaining(),
                out@ == whole.take(it.index() as int).map_values(|e: (&u32, &PolicyState)| *e.0),
        {
            out.push(*k);
            assert(out@ =~= whole.take(it.index() + 1).map_values(|e: (&u32, &PolicyState)| *e.0));
        }
        proof {
            assert(whole.take(whole.len() as int) =~= whole);
            let ks = whole.map_values(|e: (&u32, &PolicyState)| *e.0);
            assert(out@ == ks);
            assert forall|p: u32| out@.contains(p) <==> self@.contains_key(p) by {
                if self@.contains_key(p) {
                    assert(whole.contains((&p, &self@[p])));
                    let j = choose|j: int| 0 <= j < whole.len() && whole[j] == (&p, &self@[p]);
                    assert(ks[j] == p);
                }
                if out@.contains(p) {
                    let j = choose|j: int| 0 <= j < ks.len() && ks[j] == p;
                    assert(self@.contains_key(*whole[j].0));
                }
            }
        }
        out
    }
}

} // verus!
