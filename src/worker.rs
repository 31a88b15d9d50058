//! One fuzzing worker: the pools of entry points, the call-sequence scheduler,
//! argument mutation per call, and crash deduplication.
use rand::seq::SliceRandom;
use vstd::prelude::*;

use crate::crash::{known, lemma_dedup_idempotent, Crash, CrashSet, Error, WorkerEvent};
use crate::mutator::{
    all_mutable, all_mutated_by, all_mutations_of, are_mutable, draw, extends, intensity,
    lemma_draw_bounds,
    passes_since, Mutator, SuiMutator,
};
use crate::pass_log::{ByteMutator, Pass};
use crate::stats::{function_name, gas_after_update, Stats};
use crate::rng::{after_pick, pick, Rng};
use crate::value::{all_equiv, duplicate_all, equiv, lemma_equiv_sym, lemma_equiv_trans, Value};

verus! {

/// The mutation intensity requested for each call.
pub const MUTATIONS_PER_CALL: usize = 4;

/// Relies on rand's `SliceRandom::shuffle` with the thread-local generator,
/// which only swaps elements: the result is a permutation of the input.
#[verifier::external_body]
fn shuffle_calls(v: &mut Vec<Value>)
    ensures
        final(v)@.to_multiset() == old(v)@.to_multiset(),
{
    v.shuffle(&mut rand::thread_rng());
}

/// The parameter template of a function descriptor (empty for any other value).
pub open spec fn params_of(v: Value) -> Seq<Value> {
    match v {
        Value::Function(_, ps, _) => ps@,
        _ => Seq::empty(),
    }
}

/// Whether `v` describes a function whose parameters the engine can mutate.
pub open spec fn callable(v: Value) -> bool {
    v is Function && all_mutable(params_of(v))
}

/// Whether `v` describes a function whose parameters the engine can mutate.
pub fn is_callable(v: &Value) -> (r: bool)
    ensures
        r == callable(*v),
{
    match v {
        Value::Function(_, ps, _) => are_mutable(ps),
        _ => false,
    }
}

/// Whether `pool` is `base` extended by `size` picks, each a copy of the
/// element at the index the engine draws from `seed` (uniformly when
/// `exp_disabled`) over the pool so far.
pub open spec fn is_call_pool(
    base: Seq<Value>,
    seed: u64,
    exp_disabled: bool,
    size: nat,
    pool: Seq<Value>,
) -> bool {
    &&& pool.len() == base.len() + size
    &&& all_equiv(base, pool.subrange(0, base.len() as int))
    &&& forall|j: int|
        base.len() <= j < pool.len() ==> equiv(
            pool[draw(seed, exp_disabled, 0, (j - 1) as u64) as int],
            #[trigger] pool[j],
        )
}

/// Whether `c` is a copy of one of `base`.
pub open spec fn drawn_from(base: Seq<Value>, c: Value) -> bool {
    exists|k: int| 0 <= k < base.len() && equiv(#[trigger] base[k], c)
}

/// Call pools extended from the same base with the same seed and draw mode
/// are the same, call by call, up to structural equality: only the shuffle
/// that follows can tell two runs apart.
pub proof fn lemma_call_pool_determined(
    base: Seq<Value>,
    seed: u64,
    exp_disabled: bool,
    size: nat,
    pool: Seq<Value>,
    other: Seq<Value>,
)
    requires
        is_call_pool(base, seed, exp_disabled, size, pool),
        is_call_pool(base, seed, exp_disabled, size, other),
        pool.len() <= u64::MAX,
        base.len() > 0 || size == 0,
    ensures
        all_equiv(pool, other),
{
    assert forall|j: int| 0 <= j < pool.len() implies equiv(#[trigger] pool[j], other[j]) by {
        lemma_pool_element_determined(base, seed, exp_disabled, size, pool, other, j);
    }
}

proof fn lemma_pool_element_determined(
    base: Seq<Value>,
    seed: u64,
    exp_disabled: bool,
    size: nat,
    pool: Seq<Value>,
    other: Seq<Value>,
    j: int,
)
    requires
        is_call_pool(base, seed, exp_disabled, size, pool),
        is_call_pool(base, seed, exp_disabled, size, other),
        pool.len() <= u64::MAX,
        base.len() > 0 || size == 0,
        0 <= j < pool.len(),
    ensures
        equiv(pool[j], other[j]),
    decreases j,
{
    if j < base.len() {
        assert(pool.subrange(0, base.len() as int)[j] == pool[j]);
        assert(other.subrange(0, base.len() as int)[j] == other[j]);
        lemma_equiv_sym(base[j], pool[j]);
        lemma_equiv_trans(pool[j], base[j], other[j]);
    } else {
        let d = draw(seed, exp_disabled, 0, (j - 1) as u64) as int;
        lemma_draw_bounds(seed, exp_disabled, 0, (j - 1) as u64);
        assert(0 <= d < j);
        lemma_pool_element_determined(base, seed, exp_disabled, size, pool, other, d);
        lemma_equiv_sym(pool[d], pool[j]);
        lemma_equiv_trans(pool[j], pool[d], other[d]);
        lemma_equiv_trans(pool[j], other[d], other[j]);
    }
}

/// Whether a copy of `f` is among `calls`.
pub open spec fn is_called(calls: Seq<Value>, f: Value) -> bool {
    exists|i: int| 0 <= i < calls.len() && equiv(f, #[trigger] calls[i])
}

/// Every call of a call pool is a copy of one of the base entry points.
pub proof fn lemma_pool_from_base(
    base: Seq<Value>,
    seed: u64,
    exp_disabled: bool,
    size: nat,
    pool: Seq<Value>,
)
    requires
        is_call_pool(base, seed, exp_disabled, size, pool),
        pool.len() <= u64::MAX,
        base.len() > 0 || size == 0,
    ensures
        forall|j: int| 0 <= j < pool.len() ==> drawn_from(base, #[trigger] pool[j]),
{
    assert forall|j: int| 0 <= j < pool.len() implies drawn_from(base, #[trigger] pool[j]) by {
        lemma_pool_element_from_base(base, seed, exp_disabled, size, pool, j);
    }
}

proof fn lemma_pool_element_from_base(
    base: Seq<Value>,
    seed: u64,
    exp_disabled: bool,
    size: nat,
    pool: Seq<Value>,
    j: int,
)
    requires
        is_call_pool(base, seed, exp_disabled, size, pool),
        pool.len() <= u64::MAX,
        base.len() > 0 || size == 0,
        0 <= j < pool.len(),
    ensures
        drawn_from(base, pool[j]),
    decreases j,
{
    if j < base.len() {
        assert(pool.subrange(0, base.len() as int)[j] == pool[j]);
        assert(equiv(base[j], pool[j]));
    } else {
        let d = draw(seed, exp_disabled, 0, (j - 1) as u64) as int;
        lemma_draw_bounds(seed, exp_disabled, 0, (j - 1) as u64);
        assert(0 <= d < j);
        assert(equiv(pool[d], pool[j]));
        lemma_pool_element_from_base(base, seed, exp_disabled, size, pool, d);
        let k = choose|k: int| 0 <= k < base.len() && equiv(#[trigger] base[k], pool[d]);
        lemma_equiv_trans(base[k], pool[d], pool[j]);
    }
}

/// The name of the auxiliary entry point that sets a target up, which is
/// never scheduled.
pub open spec fn init_name() -> Seq<char> {
    "fuzz_init"@
}

/// `abi` without its first entry named `fuzz_init`, if it has one.
pub open spec fn without_init(abi: Seq<(String, Vec<Value>, Vec<Value>)>) -> Seq<
    (String, Vec<Value>, Vec<Value>),
> {
    if exists|i: int| 0 <= i < abi.len() && #[trigger] abi[i].0@ == init_name() {
        let i = choose|i: int|
            0 <= i < abi.len() && #[trigger] abi[i].0@ == init_name() && forall|j: int|
                0 <= j < i ==> #[trigger] abi[j].0@ != init_name();
        abi.remove(i)
    } else {
        abi
    }
}

/// The crash record of a failed call of `function` in `module`.
pub open spec fn crash_of(module: String, function: Value, inputs: Vec<Value>, error: Error) -> Crash {
    match function {
        Value::Function(name, _, _) => Crash { module, function: name, inputs, error },
        _ => Crash { module, function: module, inputs, error },
    }
}

/// Two failures of `function` in `module` with structurally equal inputs and
/// the same error message are one crash: once the first is recorded, the
/// second is known and reports nothing. A failure whose inputs differ in
/// structure from the first is new if it was new before.
pub proof fn lemma_failure_reported_once(
    seen: Seq<Crash>,
    module: String,
    function: Value,
    inputs: Vec<Value>,
    error: Error,
    again: Vec<Value>,
    again_error: Error,
    other: Vec<Value>,
    other_error: Error,
)
    requires
        function is Function,
        all_equiv(inputs@, again@),
        error.message_of() == again_error.message_of(),
    ensures
        known(
            seen.push(crash_of(module, function, inputs, error)),
            crash_of(module, function, again, again_error),
        ),
        !all_equiv(inputs@, other@) && !known(seen, crash_of(module, function, other, other_error))
            ==> !known(
            seen.push(crash_of(module, function, inputs, error)),
            crash_of(module, function, other, other_error),
        ),
{
    lemma_dedup_idempotent(
        seen,
        crash_of(module, function, inputs, error),
        crash_of(module, function, again, again_error),
        crash_of(module, function, other, other_error),
    );
}

/// Whether `ev` reports a new crash of the function named `function`, with
/// the given inputs and error message.
pub open spec fn reports(
    ev: WorkerEvent,
    function: Seq<char>,
    inputs: Seq<Value>,
    message: Seq<char>,
) -> bool {
    match ev {
        WorkerEvent::NewCrash(f, ins, e) => {
            &&& f@ == function
            &&& all_equiv(inputs, ins@)
            &&& e.message_of() == message
        },
    }
}

/// A fuzzing worker over the entry points of one target module.
pub struct StatefulWorker<B> {
    mutator: SuiMutator<B>,
    rng: Rng,
    unique_crashes_set: CrashSet,
    target_functions: Vec<Value>,
    fuzz_functions: Vec<Value>,
    max_call_sequence_size: u32,
}

impl<B: ByteMutator> StatefulWorker<B> {
    /// The target entry points.
    pub closed spec fn targets(&self) -> Seq<Value> {
        self.target_functions@
    }

    /// The auxiliary entry points.
    pub closed spec fn fuzz(&self) -> Seq<Value> {
        self.fuzz_functions@
    }

    /// The crashes reported so far.
    pub closed spec fn crashes(&self) -> Seq<Crash> {
        self.unique_crashes_set@
    }

    /// The state of the generator of sequence lengths.
    pub closed spec fn rng_state(&self) -> Rng {
        self.rng
    }

    /// The seed of the engine's number draws.
    pub closed spec fn mutator_seed(&self) -> u64 {
        self.mutator.seed()
    }

    /// Whether the engine's number draws are uniform.
    pub closed spec fn mutator_exp_disabled(&self) -> bool {
        self.mutator.exp_disabled()
    }

    /// The byte-level passes the engine has run so far.
    pub closed spec fn passes(&self) -> Seq<Pass> {
        self.mutator.passes()
    }

    /// The largest number of extra calls in a sequence.
    pub closed spec fn max_size(&self) -> u32 {
        self.max_call_sequence_size
    }

    /// A worker over `targets` (name and parameter template of each target
    /// entry point) and `fuzz_abi` (name, parameters and return types of each
    /// auxiliary one), drawing sequence lengths from `seed`.
    pub fn new(
        mutator: SuiMutator<B>,
        seed: u64,
        targets: Vec<(String, Vec<Value>)>,
        fuzz_abi: Vec<(String, Vec<Value>, Vec<Value>)>,
        max_call_sequence_size: u32,
    ) -> (r: Self)
        ensures
            r.rng_state() == (Rng { seed, exp_disabled: false }),
            r.crashes() == Seq::<Crash>::empty(),
            r.mutator_seed() == mutator.seed(),
            r.mutator_exp_disabled() == mutator.exp_disabled(),
            r.passes() == mutator.passes(),
            r.max_size() == max_call_sequence_size,
            r.targets().len() == targets@.len(),
            forall|i: int|
                0 <= i < targets@.len() ==> #[trigger] r.targets()[i] == Value::Function(
                    targets@[i].0,
                    targets@[i].1,
                    None,
                ),
            r.fuzz().len() == without_init(fuzz_abi@).len(),
            forall|i: int|
                0 <= i < r.fuzz().len() ==> #[trigger] r.fuzz()[i] == Value::Function(
                    without_init(fuzz_abi@)[i].0,
                    without_init(fuzz_abi@)[i].1,
                    None,
                ),
    {
        let ghost torig = targets@;
        let mut rest = targets;
        let mut functions: Vec<Value> = Vec::new();
        while rest.len() > 0
            invariant
                functions@.len() + rest@.len() == torig.len(),
                rest@ == torig.subrange(functions@.len() as int, torig.len() as int),
                forall|k: int|
                    0 <= k < functions@.len() ==> #[trigger] functions@[k] == Value::Function(
                        torig[k].0,
                        torig[k].1,
                        None,
                    ),
            decreases rest@.len(),
        {
            let (name, params) = rest.remove(0);
            functions.push(Value::Function(name, params, None));
        }
        let mut abi = fuzz_abi;
        let init = "fuzz_init".to_owned();
        let mut i: usize = 0;
        let mut pos: Option<usize> = None;
        while i < abi.len()
            invariant
                i <= abi@.len(),
                abi@ == fuzz_abi@,
                init@ == init_name(),
                match pos {
                    Some(p) => {
                        &&& p < i
                        &&& abi@[p as int].0@ == init_name()
                        &&& forall|j: int| 0 <= j < p ==> #[trigger] abi@[j].0@ != init_name()
                    },
                    None => forall|j: int| 0 <= j < i ==> #[trigger] abi@[j].0@ != init_name(),
                },
            decreases abi@.len() - i,
        {
            if pos.is_none() && abi[i].0 == init {
                pos = Some(i);
            }
            i = i + 1;
        }
        proof {
            match pos {
                Some(p) => {
                    let w = p as int;
                    assert(0 <= w < fuzz_abi@.len() && fuzz_abi@[w].0@ == init_name() && forall|
                        j: int,
                    | 0 <= j < w ==> #[trigger] fuzz_abi@[j].0@ != init_name());
                    let k = choose|k: int|
                        0 <= k < fuzz_abi@.len() && #[trigger] fuzz_abi@[k].0@ == init_name()
                            && forall|j: int|
                            0 <= j < k ==> #[trigger] fuzz_abi@[j].0@ != init_name();
                    if k < w {
                    } else if k > w {
                        assert(fuzz_abi@[w].0@ == init_name());
                    }
                    assert(k == w);
                },
                None => {},
            }
        }
        if let Some(p) = pos {
            abi.remove(p);
        }
        assert(abi@ == without_init(fuzz_abi@));
        let ghost forig = abi@;
        let mut fuzz_functions: Vec<Value> = Vec::new();
        while abi.len() > 0
            invariant
                fuzz_functions@.len() + abi@.len() == forig.len(),
                abi@ == forig.subrange(fuzz_functions@.len() as int, forig.len() as int),
                forall|k: int|
                    0 <= k < fuzz_functions@.len() ==> #[trigger] fuzz_functions@[k]
                        == Value::Function(forig[k].0, forig[k].1, None),
            decreases abi@.len(),
        {
            let (name, params, _return_types) = abi.remove(0);
            fuzz_functions.push(Value::Function(name, params, None));
        }
        StatefulWorker {
            mutator,
            rng: Rng { seed, exp_disabled: false },
            unique_crashes_set: CrashSet::new(),
            target_functions: functions,
            fuzz_functions,
            max_call_sequence_size,
        }
    }

    /// Draws the number of extra calls of the next sequence, in
    /// `[1, max_call_sequence_size]`.
    pub fn next_sequence_size(&mut self) -> (r: u32)
        requires
            old(self).max_size() >= 1,
        ensures
            r == pick(old(self).rng_state().seed, 1, old(self).max_size() as u64),
            1 <= r <= old(self).max_size(),
            final(self).rng_state() == (Rng {
                seed: after_pick(old(self).rng_state().seed, 1, old(self).max_size() as u64),
                ..old(self).rng_state()
            }),
            final(self).targets() == old(self).targets(),
            final(self).fuzz() == old(self).fuzz(),
            final(self).crashes() == old(self).crashes(),
            final(self).mutator_seed() == old(self).mutator_seed(),
            final(self).passes() == old(self).passes(),
            final(self).mutator_exp_disabled() == old(self).mutator_exp_disabled(),
            final(self).max_size() == old(self).max_size(),
    {
        let n = self.rng.rand(1, self.max_call_sequence_size as u64);
        n as u32
    }

    /// Whether a sequence with `size` extra calls can be built: the pools are
    /// not both empty when calls must be picked, and the length fits.
    pub fn can_schedule(&self, size: u32) -> (r: bool)
        ensures
            r == (self.fuzz().len() + self.targets().len() + size <= usize::MAX && (size == 0
                || self.fuzz().len() + self.targets().len() > 0)),
    {
        let n = self.fuzz_functions.len();
        let m = self.target_functions.len();
        if n > usize::MAX - m || n + m > usize::MAX - size as usize {
            false
        } else {
            size == 0 || n + m > 0
        }
    }

    /// The auxiliary entry points, then the target ones, then `size` more
    /// calls, each a copy of the call at an index drawn over the pool so far.
    pub fn extend_call_pool(&self, size: u32) -> (r: Vec<Value>)
        requires
            self.fuzz().len() + self.targets().len() + size <= usize::MAX,
            size == 0 || self.fuzz().len() + self.targets().len() > 0,
        ensures
            is_call_pool(
                self.fuzz() + self.targets(),
                self.mutator_seed(),
                self.mutator_exp_disabled(),
                size as nat,
                r@,
            ),
    {
        let ghost base = self.fuzz() + self.targets();
        let ghost seed = self.mutator_seed();
        let ghost exp = self.mutator_exp_disabled();
        let mut pool = duplicate_all(&self.fuzz_functions);
        let mut targets = duplicate_all(&self.target_functions);
        pool.append(&mut targets);
        assert(pool@.subrange(0, base.len() as int) =~= pool@);
        let mut k: u32 = 0;
        while k < size
            invariant
                k <= size,
                base == self.fuzz() + self.targets(),
                seed == self.mutator_seed(),
                exp == self.mutator_exp_disabled(),
                base.len() + size <= usize::MAX,
                size == 0 || base.len() > 0,
                is_call_pool(base, seed, exp, k as nat, pool@),
            decreases size - k,
        {
            let ghost prev = pool@;
            let n = self.mutator.generate_number(0, (pool.len() - 1) as u64);
            let c = pool[n as usize].duplicate();
            pool.push(c);
            proof {
                assert(pool@.subrange(0, base.len() as int) =~= prev.subrange(
                    0,
                    base.len() as int,
                ));
                assert forall|j: int| base.len() <= j < pool@.len() implies equiv(
                    pool@[draw(seed, exp, 0, (j - 1) as u64) as int],
                    #[trigger] pool@[j],
                ) by {
                    if j < prev.len() {
                        assert(pool@[j] == prev[j]);
                        assert(pool@[draw(seed, exp, 0, (j - 1) as u64) as int] == prev[draw(
                            seed,
                            exp,
                            0,
                            (j - 1) as u64,
                        ) as int]);
                    }
                }
            }
            k = k + 1;
        }
        pool
    }

    /// The calls of one round: the extended pool, uniformly shuffled.
    pub fn generate_call_sequence(&self, size: u32) -> (r: Vec<Value>)
        requires
            self.fuzz().len() + self.targets().len() + size <= usize::MAX,
            size == 0 || self.fuzz().len() + self.targets().len() > 0,
        ensures
            r@.len() == self.fuzz().len() + self.targets().len() + size,
            exists|pool: Seq<Value>|
                is_call_pool(
                    self.fuzz() + self.targets(),
                    self.mutator_seed(),
                    self.mutator_exp_disabled(),
                    size as nat,
                    pool,
                )
                    && r@.to_multiset() == #[trigger] pool.to_multiset(),
            forall|i: int|
                0 <= i < r@.len() ==> drawn_from(self.fuzz() + self.targets(), #[trigger] r@[i]),
            forall|k: int|
                0 <= k < self.fuzz().len() + self.targets().len() ==> is_called(
                    r@,
                    #[trigger] (self.fuzz() + self.targets())[k],
                ),
    {
        let mut pool = self.extend_call_pool(size);
        let ghost before = pool@;
        shuffle_calls(&mut pool);
        proof {
            let base = self.fuzz() + self.targets();
            before.to_multiset_ensures();
            pool@.to_multiset_ensures();
            lemma_pool_from_base(
                base,
                self.mutator_seed(),
                self.mutator_exp_disabled(),
                size as nat,
                before,
            );
            assert forall|i: int| 0 <= i < pool@.len() implies drawn_from(
                base,
                #[trigger] pool@[i],
            ) by {
                assert(pool@.contains(pool@[i]));
                assert(pool@.to_multiset().count(pool@[i]) > 0);
                assert(before.to_multiset().count(pool@[i]) > 0);
                assert(before.contains(pool@[i]));
                let j = choose|j: int| 0 <= j < before.len() && before[j] == pool@[i];
                assert(drawn_from(base, before[j]));
            }
            assert forall|k: int| 0 <= k < base.len() implies is_called(pool@, #[trigger] base[k]) by {
                assert(before.subrange(0, base.len() as int)[k] == before[k]);
                assert(equiv(base[k], before[k]));
                assert(before.contains(before[k]));
                assert(before.to_multiset().count(before[k]) > 0);
                assert(pool@.to_multiset().count(before[k]) > 0);
                assert(pool@.contains(before[k]));
                let i = choose|i: int| 0 <= i < pool@.len() && pool@[i] == before[k];
                assert(equiv(base[k], pool@[i]));
            }
        }
        pool
    }

    /// The mutated arguments of one call of `function`, at the intensity the
    /// gas-scaled count `scaled` gives.
    pub fn prepare_inputs(&mut self, function: &Value, scaled: Option<usize>) -> (r: Vec<Value>)
        requires
            callable(*function),
        ensures
            all_mutations_of(params_of(*function), r@),
            extends(old(self).passes(), final(self).passes()),
            all_mutated_by(
                params_of(*function),
                r@,
                MUTATIONS_PER_CALL as nat,
                intensity(MUTATIONS_PER_CALL as nat, scaled),
                passes_since(old(self).passes(), final(self).passes()),
            ),
            final(self).mutator_exp_disabled() == old(self).mutator_exp_disabled(),
            final(self).rng_state() == old(self).rng_state(),
            final(self).targets() == old(self).targets(),
            final(self).fuzz() == old(self).fuzz(),
            final(self).crashes() == old(self).crashes(),
            final(self).mutator_seed() == old(self).mutator_seed(),
            final(self).max_size() == old(self).max_size(),
    {
        match function {
            Value::Function(_, params, _) => self.mutator.mutate_with_gas(
                params,
                MUTATIONS_PER_CALL,
                scaled,
            ),
            _ => Vec::new(),
        }
    }

    /// Records a failed call of `function` in `module`; returns the event to
    /// report when no crash with the same signature was recorded before.
    pub fn observe_failure(
        &mut self,
        module: &String,
        function: &Value,
        inputs: Vec<Value>,
        error: Error,
    ) -> (r: Option<WorkerEvent>)
        requires
            function is Function,
        ensures
            r is Some <==> !known(old(self).crashes(), crash_of(*module, *function, inputs, error)),
            final(self).crashes() == if r is Some {
                old(self).crashes().push(crash_of(*module, *function, inputs, error))
            } else {
                old(self).crashes()
            },
            r matches Some(ev) ==> reports(
                ev,
                function_name(*function),
                inputs@,
                error.message_of(),
            ),
            final(self).rng_state() == old(self).rng_state(),
            final(self).targets() == old(self).targets(),
            final(self).fuzz() == old(self).fuzz(),
            final(self).passes() == old(self).passes(),
            final(self).mutator_exp_disabled() == old(self).mutator_exp_disabled(),
            final(self).mutator_seed() == old(self).mutator_seed(),
            final(self).max_size() == old(self).max_size(),
    {
        let name = match function {
            Value::Function(name, _, _) => name,
            _ => module,
        };
        let event = WorkerEvent::NewCrash(name.clone(), duplicate_all(&inputs), error.duplicate());
        let crash = Crash { module: module.clone(), function: name.clone(), inputs, error };
        if self.unique_crashes_set.insert(crash) {
            Some(event)
        } else {
            None
        }
    }

    /// What the loop does with the outcome of one call of `function` in
    /// `module` with `inputs`: on success the gas it cost is recorded; on
    /// failure the crash is counted and recorded, and the event to report is
    /// returned when no crash with its signature was recorded before.
    pub fn record_outcome(
        &mut self,
        stats: &mut Stats,
        module: &String,
        function: &Value,
        inputs: Vec<Value>,
        outcome: Result<u64, Error>,
    ) -> (r: Option<WorkerEvent>)
        requires
            old(stats).wf(),
            function is Function,
            old(stats).crashes < u64::MAX,
            old(stats).unique_crashes < u64::MAX,
        ensures
            final(stats).wf(),
            match outcome {
                Ok(gas) => {
                    &&& r is None
                    &&& final(stats).gas_map@ == gas_after_update(
                        old(stats).gas_map@,
                        function_name(*function),
                        gas,
                    )
                    &&& final(stats).crashes == old(stats).crashes
                    &&& final(stats).unique_crashes == old(stats).unique_crashes
                    &&& final(stats).execs == old(stats).execs
                    &&& final(stats).execs_per_sec == old(stats).execs_per_sec
                    &&& final(stats).secs_since_last_cov == old(stats).secs_since_last_cov
                    &&& final(self).crashes() == old(self).crashes()
                },
                Err(error) => {
                    let c = crash_of(*module, *function, inputs, error);
                    &&& r is Some <==> !known(old(self).crashes(), c)
                    &&& final(self).crashes() == if r is Some {
                        old(self).crashes().push(c)
                    } else {
                        old(self).crashes()
                    }
                    &&& r matches Some(ev) ==> reports(
                        ev,
                        function_name(*function),
                        inputs@,
                        error.message_of(),
                    )
                    &&& *final(stats) == (Stats {
                        crashes: (old(stats).crashes + 1) as u64,
                        unique_crashes: if r is Some {
                            (old(stats).unique_crashes + 1) as u64
                        } else {
                            old(stats).unique_crashes
                        },
                        ..*old(stats)
                    })
                },
            },
            final(self).rng_state() == old(self).rng_state(),
            final(self).targets() == old(self).targets(),
            final(self).fuzz() == old(self).fuzz(),
            final(self).passes() == old(self).passes(),
            final(self).mutator_seed() == old(self).mutator_seed(),
            final(self).mutator_exp_disabled() == old(self).mutator_exp_disabled(),
            final(self).max_size() == old(self).max_size(),
    {
        match outcome {
            Ok(gas_used) => {
                stats.update_gas_usage(function, gas_used);
                None
            },
            Err(error) => {
                let event = self.observe_failure(module, function, inputs, error);
                stats.record_crash(event.is_some());
                event
            },
        }
    }
}

} // verus!
