//! Session statistics and the per-function table of the largest gas cost seen.
use vstd::prelude::*;

use crate::value::Value;

verus! {

/// The name of a function descriptor (empty for any other value).
pub open spec fn function_name(v: Value) -> Seq<char> {
    match v {
        Value::Function(name, _, _) => name@,
        _ => Seq::empty(),
    }
}

/// The largest gas recorded for `name`, or 0 when none was.
pub open spec fn gas_lookup(table: Map<Seq<char>, u64>, name: Seq<char>) -> u64 {
    if table.contains_key(name) {
        table[name]
    } else {
        0
    }
}

/// The table after a successful call to `name` that cost `gas`.
pub open spec fn gas_after_update(table: Map<Seq<char>, u64>, name: Seq<char>, gas: u64) -> Map<
    Seq<char>,
    u64,
> {
    let prev = gas_lookup(table, name);
    table.insert(name, if gas > prev { gas } else { prev })
}

/// The table after a sequence of updates, applied in order.
pub open spec fn gas_after_updates(
    table: Map<Seq<char>, u64>,
    updates: Seq<(Seq<char>, u64)>,
) -> Map<Seq<char>, u64>
    decreases updates.len(),
{
    if updates.len() == 0 {
        table
    } else {
        let u = updates.last();
        gas_after_update(gas_after_updates(table, updates.drop_last()), u.0, u.1)
    }
}

/// After one update the recorded maximum of `name` is the larger of `gas` and
/// what it was, and no other function's maximum decreases.
pub proof fn lemma_gas_update_max(
    table: Map<Seq<char>, u64>,
    name: Seq<char>,
    gas: u64,
    key: Seq<char>,
)
    ensures
        gas_lookup(gas_after_update(table, name, gas), name) == if gas > gas_lookup(
            table,
            name,
        ) {
            gas
        } else {
            gas_lookup(table, name)
        },
        gas_lookup(gas_after_update(table, name, gas), key) >= gas_lookup(table, key),
{
}

/// Along any sequence of updates, no function's recorded maximum ever decreases.
pub proof fn lemma_gas_monotone(
    table: Map<Seq<char>, u64>,
    updates: Seq<(Seq<char>, u64)>,
    key: Seq<char>,
)
    ensures
        gas_lookup(gas_after_updates(table, updates), key) >= gas_lookup(table, key),
    decreases updates.len(),
{
    if updates.len() > 0 {
        let u = updates.last();
        lemma_gas_monotone(table, updates.drop_last(), key);
        lemma_gas_update_max(gas_after_updates(table, updates.drop_last()), u.0, u.1, key);
    }
}

/// Function name to the largest gas cost of a successful call to it.
pub struct GasTable {
    entries: Vec<(String, u64)>,
    model: Ghost<Map<Seq<char>, u64>>,
}

impl GasTable {
    /// What the table maps each recorded name to.
    pub closed spec fn view(&self) -> Map<Seq<char>, u64> {
        self.model@
    }

    /// The entries hold each name once and agree with the view.
    pub closed spec fn wf(&self) -> bool {
        let e = self.entries@;
        &&& forall|i: int, j: int|
            0 <= i < j < e.len() ==> #[trigger] e[i].0@ != #[trigger] e[j].0@
        &&& forall|k: Seq<char>|
            #[trigger] self.model@.contains_key(k) <==> exists|i: int|
                0 <= i < e.len() && #[trigger] e[i].0@ == k
        &&& forall|i: int| 0 <= i < e.len() ==> self.model@[#[trigger] e[i].0@] == e[i].1
    }

    /// An empty table.
    pub fn new() -> (r: Self)
        ensures
            r.wf(),
            r.view() == Map::<Seq<char>, u64>::empty(),
    {
        GasTable { entries: Vec::new(), model: Ghost(Map::empty()) }
    }

    /// The index of the entry for `name`, if there is one.
    fn find_entry(&self, name: &String) -> (r: Option<usize>)
        requires
            self.wf(),
        ensures
            match r {
                Some(i) => i < self.entries@.len() && self.entries@[i as int].0@ == name@,
                None => !self.view().contains_key(name@),
            },
    {
        let mut i: usize = 0;
        while i < self.entries.len()
            invariant
                self.wf(),
                i <= self.entries@.len(),
                forall|j: int| 0 <= j < i ==> self.entries@[j].0@ != name@,
            decreases self.entries@.len() - i,
        {
            if self.entries[i].0 == *name {
                return Some(i);
            }
            i = i + 1;
        }
        None
    }

    /// Records a cost of `gas` for `name`: the stored maximum becomes the
    /// larger of the two, and an absent name is added.
    pub fn record(&mut self, name: &String, gas: u64)
        requires
            old(self).wf(),
        ensures
            final(self).wf(),
            final(self)@ == gas_after_update(old(self)@, name@, gas),
    {
        match self.find_entry(name) {
            Some(i) => {
                let stored = self.entries[i].1;
                if gas > stored {
                    let key = self.entries[i].0.clone();
                    self.entries.set(i, (key, gas));
                    self.model = Ghost(self.model@.insert(name@, gas));
                    proof {
                        let e = self.entries@;
                        let o = old(self).entries@;
                        assert forall|j: int| 0 <= j < e.len() implies #[trigger] e[j].0@
                            == o[j].0@ by {}
                        assert forall|k: Seq<char>| #[trigger]
                            self.model@.contains_key(k) implies exists|j: int|
                                0 <= j < e.len() && #[trigger] e[j].0@ == k by {
                            let j = choose|j: int| 0 <= j < o.len() && #[trigger] o[j].0@ == k;
                            assert(e[j].0@ == k);
                        }
                        assert forall|j: int| 0 <= j < e.len() implies self.model@[#[trigger] e[j].0@]
                            == e[j].1 by {
                            if j != i {
                                assert(o[j].0@ != o[i as int].0@);
                            }
                        }
                    }
                }
                proof {
                    assert(self.model@ =~= gas_after_update(old(self)@, name@, gas));
                }
            },
            None => {
                self.entries.push((name.clone(), gas));
                self.model = Ghost(self.model@.insert(name@, gas));
                proof {
                    let e = self.entries@;
                    let o = old(self).entries@;
                    assert(e[e.len() - 1].0@ == name@);
                    assert forall|j: int| 0 <= j < o.len() implies #[trigger] o[j].0@ != name@ by {
                        if o[j].0@ == name@ {
                            assert(old(self).model@.contains_key(o[j].0@));
                        }
                    }
                    assert forall|a: int, b: int|
                        0 <= a < b < e.len() implies #[trigger] e[a].0@ != #[trigger] e[b].0@ by {
                        if b == e.len() - 1 {
                            assert(e[a] == o[a]);
                            assert(o[a].0@ != name@);
                            assert(e[b].0@ == name@);
                            assert(e[a].0@ != name@);
                        } else {
                            assert(e[a] == o[a] && e[b] == o[b]);
                            assert(o[a].0@ != o[b].0@);
                        }
                    }
                    assert forall|j: int| 0 <= j < e.len() implies self.model@[#[trigger] e[j].0@]
                        == e[j].1 by {
                        if j < e.len() - 1 {
                            assert(e[j] == o[j]);
                        }
                    }
                    assert forall|k: Seq<char>| #[trigger]
                        self.model@.contains_key(k) implies exists|i: int|
                            0 <= i < e.len() && #[trigger] e[i].0@ == k by {
                        if k != name@ {
                            let i = choose|i: int|
                                0 <= i < old(self).entries@.len()
                                    && #[trigger] old(self).entries@[i].0@ == k;
                            assert(e[i].0@ == k);
                        }
                    }
                    assert forall|j: int| 0 <= j < e.len() implies self.model@.contains_key(
                        #[trigger] e[j].0@,
                    ) by {
                        if j < e.len() - 1 {
                            assert(e[j] == o[j]);
                            assert(old(self).model@.contains_key(o[j].0@));
                        }
                    }
                    assert(self.model@ =~= gas_after_update(old(self)@, name@, gas));
                }
            },
        }
    }

    /// The largest gas recorded for `name`, or 0 when none was.
    pub fn lookup(&self, name: &String) -> (r: u64)
        requires
            self.wf(),
        ensures
            r == gas_lookup(self@, name@),
    {
        match self.find_entry(name) {
            Some(i) => {
                proof {
                    let e = self.entries@;
                    assert(self.model@.contains_key(e[i as int].0@));
                }
                self.entries[i].1
            },
            None => 0,
        }
    }
}

/// The largest gas among the updates for `name`, or 0 when there is none.
pub open spec fn max_reported(updates: Seq<(Seq<char>, u64)>, name: Seq<char>) -> u64
    decreases updates.len(),
{
    if updates.len() == 0 {
        0
    } else {
        let prev = max_reported(updates.drop_last(), name);
        let u = updates.last();
        if u.0 == name && u.1 > prev {
            u.1
        } else {
            prev
        }
    }
}

/// Starting from an empty table, after any sequence of updates the recorded
/// maximum of a name is the largest gas ever reported for it, 0 if none.
pub proof fn lemma_gas_history(updates: Seq<(Seq<char>, u64)>, name: Seq<char>)
    ensures
        gas_lookup(gas_after_updates(Map::empty(), updates), name) == max_reported(updates, name),
    decreases updates.len(),
{
    if updates.len() > 0 {
        lemma_gas_history(updates.drop_last(), name);
    }
}

/// Counters of a fuzzing session, and the gas table.
pub struct Stats {
    pub crashes: u64,
    pub unique_crashes: u64,
    pub execs: u64,
    pub time_running: u64,
    pub execs_per_sec: u64,
    pub coverage_size: u64,
    pub secs_since_last_cov: u64,
    pub gas_map: GasTable,
}

impl Stats {
    /// The gas table is well formed.
    pub open spec fn wf(&self) -> bool {
        self.gas_map.wf()
    }

    /// A session with every counter at zero and an empty gas table.
    pub fn new() -> (r: Self)
        ensures
            r.wf(),
            r.gas_map@ == Map::<Seq<char>, u64>::empty(),
            r.crashes == 0,
            r.unique_crashes == 0,
            r.execs == 0,
            r.time_running == 0,
            r.execs_per_sec == 0,
            r.coverage_size == 0,
            r.secs_since_last_cov == 0,
    {
        Stats {
            crashes: 0,
            unique_crashes: 0,
            time_running: 0,
            execs: 0,
            coverage_size: 0,
            execs_per_sec: 0,
            secs_since_last_cov: 0,
            gas_map: GasTable::new(),
        }
    }

    /// Records a successful call of `function` that cost `gas`.
    pub fn update_gas_usage(&mut self, function: &Value, gas: u64)
        requires
            old(self).wf(),
            function is Function,
        ensures
            final(self).wf(),
            final(self).gas_map@ == gas_after_update(
                old(self).gas_map@,
                function_name(*function),
                gas,
            ),
            final(self).crashes == old(self).crashes,
            final(self).unique_crashes == old(self).unique_crashes,
            final(self).execs == old(self).execs,
            final(self).time_running == old(self).time_running,
            final(self).execs_per_sec == old(self).execs_per_sec,
            final(self).coverage_size == old(self).coverage_size,
            final(self).secs_since_last_cov == old(self).secs_since_last_cov,
    {
        if let Value::Function(name, _, _) = function {
            self.gas_map.record(name, gas);
        }
    }

    /// Counts one execution.
    pub fn record_execution(&mut self)
        requires
            old(self).execs < u64::MAX,
        ensures
            *final(self) == (Stats { execs: (old(self).execs + 1) as u64, ..*old(self) }),
    {
        self.execs = self.execs + 1;
    }

    /// Marks that another whole second of the session has passed, `secs_elapsed`
    /// in all: the throughput becomes executions per elapsed second.
    pub fn record_second(&mut self, secs_elapsed: u64)
        requires
            secs_elapsed > 0,
            old(self).secs_since_last_cov < u64::MAX,
        ensures
            *final(self) == (Stats {
                execs_per_sec: old(self).execs / secs_elapsed,
                secs_since_last_cov: (old(self).secs_since_last_cov + 1) as u64,
                ..*old(self)
            }),
    {
        self.secs_since_last_cov = self.secs_since_last_cov + 1;
        self.execs_per_sec = self.execs / secs_elapsed;
    }

    /// Counts one failed execution, and one distinct crash when `novel`.
    pub fn record_crash(&mut self, novel: bool)
        requires
            old(self).crashes < u64::MAX,
            old(self).unique_crashes < u64::MAX,
        ensures
            *final(self) == (Stats {
                crashes: (old(self).crashes + 1) as u64,
                unique_crashes: if novel {
                    (old(self).unique_crashes + 1) as u64
                } else {
                    old(self).unique_crashes
                },
                ..*old(self)
            }),
    {
        self.crashes = self.crashes + 1;
        if novel {
            self.unique_crashes = self.unique_crashes + 1;
        }
    }

    /// The largest gas recorded for `function`, or 0 when none was.
    pub fn get_max_gas(&self, function: &Value) -> (r: u64)
        requires
            self.wf(),
            function is Function,
        ensures
            r == gas_lookup(self.gas_map@, function_name(*function)),
    {
        match function {
            Value::Function(name, _, _) => self.gas_map.lookup(name),
            _ => 0,
        }
    }
}

} // verus!
