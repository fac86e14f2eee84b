//! The executors that are registered with the coordinator, by type, and the
//! choice of some of them for a query.

use std::collections::BTreeMap;
use vstd::prelude::*;
use vstd::std_specs::iter::IteratorSpec;

verus! {

/// Identifies an executor that is registered with the coordinator.
#[derive(Clone, Copy, Debug, PartialEq, Eq, Structural)]
pub struct ExecutorId(pub u64);

/// Identifies a query.
#[derive(Clone, Copy, Debug, PartialEq, Eq, Structural)]
pub struct QueryId(pub u64);

/// The number that stands for a type of executor.
pub type ExecutorTypeId = u8;

/// What the coordinator tells an executor.
#[derive(Debug)]
pub enum Message {
    /// Start the workers of this query, with this configuration.
    Spawn(QueryId, Vec<u8>),
}

/// An executor that is registered with the coordinator.
#[derive(Debug)]
pub struct Executor {
    id: ExecutorId,
}

impl View for Executor {
    type V = ExecutorId;

    closed spec fn view(&self) -> ExecutorId {
        self.id
    }
}

impl Executor {
    /// The executor with this id.
    pub fn new(id: ExecutorId) -> (executor: Executor)
        ensures
            executor@ == id,
    {
        Executor { id }
    }

    /// The id of the executor.
    pub fn id(&self) -> (id: ExecutorId)
        ensures
            id == self@,
    {
        self.id
    }

    /// What is to be sent so that this executor starts a query: the
    /// executor to send to, and the message with the query's id and its
    /// configuration as the executor reads it.
    pub fn spawn(&self, id: QueryId, config: &Vec<u8>) -> (out: (ExecutorId, Message))
        ensures
            out.0 == self@,
            out.1 matches Message::Spawn(query, bytes) && query == id && bytes@ == config@,
    {
        let mut bytes: Vec<u8> = Vec::new();
        let mut i: usize = 0;
        while i < config.len()
            invariant
                i <= config@.len(),
                bytes@ == config@.take(i as int),
            decreases config@.len() - i,
        {
            bytes.push(config[i]);
            assert(bytes@ =~= config@.take(i + 1));
            i += 1;
        }
        assert(config@.take(config@.len() as int) =~= config@);
        (self.id, Message::Spawn(id, bytes))
    }
}

/// The thread-local random number generator of the `rand` crate.
#[verifier::external_type_specification]
#[verifier::external_body]
pub struct ExThreadRng(rand::ThreadRng);

/// Calls `rand::thread_rng`, which hands out the calling thread's random
/// number generator. Nothing is claimed of it. It needs a source of entropy:
/// where the system has none, the call does not return.
#[verifier::external_body]
fn thread_rng() -> rand::ThreadRng {
    rand::thread_rng()
}

/// `picked` holds items of `items` from positions that are all different.
pub open spec fn picked_from<T>(picked: Seq<T>, items: Seq<T>) -> bool {
    exists|at: Seq<int>|
        {
            &&& at.len() == picked.len()
            &&& at.no_duplicates()
            &&& forall|i: int|
                0 <= i < picked.len() ==> 0 <= #[trigger] at[i] < items.len() && picked[i]
                    == items[at[i]]
        }
}

/// Calls `rand::sample`, which draws `amount` of the items at random: it
/// keeps the first `amount` items and then lets each later item take the
/// place of a kept one, or of none, as the generator decides. The contract
/// claims that it gives `amount` items and that they come from positions of
/// `items` that are all different; which ones, it does not say.
#[verifier::external_body]
fn sample<T: Copy>(rng: &mut rand::ThreadRng, items: &Vec<T>, amount: usize) -> (picked: Vec<T>)
    requires
        amount <= items@.len(),
    ensures
        picked@.len() == amount,
        picked_from(picked@, items@),
{
    #[allow(deprecated)]
    rand::sample(rng, items.iter().cloned(), amount)
}

/// The executors that are registered, by type and id.
///
/// Its view maps each type that has executors to its executors by id.
#[derive(Debug)]
pub struct Executors {
    executors: BTreeMap<ExecutorTypeId, BTreeMap<u64, Executor>>,
}

impl Executors {
    /// Whether executors of this type are registered.
    pub closed spec fn has_type(&self, ty: ExecutorTypeId) -> bool {
        self.executors@.contains_key(ty)
    }

    /// The executors of a type, by id.
    pub closed spec fn of_type(&self, ty: ExecutorTypeId) -> Map<u64, Executor> {
        if self.executors@.contains_key(ty) {
            self.executors@[ty]@
        } else {
            Map::empty()
        }
    }

    /// A registry without executors.
    pub fn new() -> (executors: Executors)
        ensures
            forall|ty: ExecutorTypeId| !executors.has_type(ty),
    {
        Executors { executors: BTreeMap::new() }
    }

    /// Registers an executor under a type. An executor of that type with the
    /// same id is replaced.
    pub fn insert(&mut self, ty: ExecutorTypeId, executor: Executor)
        ensures
            final(self).has_type(ty),
            final(self).of_type(ty) == old(self).of_type(ty).insert(executor@.0, executor),
            forall|other: ExecutorTypeId|
                other != ty ==> final(self).has_type(other) == old(self).has_type(other)
                    && final(self).of_type(other) == old(self).of_type(other),
    {
        broadcast use vstd::std_specs::btree::group_btree_axioms;

        let mut group = match self.executors.remove(&ty) {
            Some(group) => group,
            None => BTreeMap::new(),
        };
        let _ = group.insert(executor.id.0, executor);
        let _ = self.executors.insert(ty, group);
        assert(final(self).of_type(ty) == old(self).of_type(ty).insert(executor@.0, executor));
    }

    /// Draws executors of a type at random: `num_executors` of them, or all
    /// where there are fewer, no executor twice. `None` says that no
    /// executor of that type is registered.
    pub fn select<'a>(&'a self, ty: ExecutorTypeId, num_executors: usize) -> (res: Option<
        Vec<&'a Executor>,
    >)
        ensures
            match res {
                None => !self.has_type(ty),
                Some(picked) => {
                    &&& self.has_type(ty)
                    &&& picked@.len() == (if num_executors <= self.of_type(ty).len() {
                        num_executors as nat
                    } else {
                        self.of_type(ty).len()
                    })
                    &&& exists|ids: Seq<u64>|
                        {
                            &&& ids.len() == picked@.len()
                            &&& ids.no_duplicates()
                            &&& forall|i: int|
                                0 <= i < picked@.len() ==> self.of_type(ty).contains_key(
                                    #[trigger] ids[i],
                                ) && *picked@[i] == self.of_type(ty)[ids[i]]
                        }
                },
            },
    {
        broadcast use vstd::std_specs::btree::group_btree_axioms;

        let group = match self.executors.get(&ty) {
            Some(group) => group,
            None => {
                return None;
            },
        };
        let values = group.values();
        let ghost keys: Seq<u64> = choose|keys: Seq<u64>|
            {
                &&& keys.to_set() == group@.dom()
                &&& keys.no_duplicates()
                &&& IteratorSpec::remaining(&values) == keys.map(|i: int, k: u64| &group@[k])
            };
        let ghost all_seq = IteratorSpec::remaining(&values);
        let mut all: Vec<&Executor> = Vec::new();
        for executor in it: values
            invariant
                it.seq() == all_seq,
                all@.len() == it.index(),
                forall|j: int| 0 <= j < all@.len() ==> all@[j] == all_seq[j],
        {
            all.push(executor);
        }
        assert(all@ =~= all_seq);
        proof {
            keys.unique_seq_to_set();
        }
        let amount = if num_executors <= all.len() {
            num_executors
        } else {
            all.len()
        };
        let mut rng = thread_rng();
        let picked = sample(&mut rng, &all, amount);
        proof {
            let at = choose|at: Seq<int>|
                {
                    &&& at.len() == picked@.len()
                    &&& at.no_duplicates()
                    &&& forall|i: int|
                        0 <= i < picked@.len() ==> 0 <= #[trigger] at[i] < all@.len() && picked@[i]
                            == all@[at[i]]
                };
            let ids = Seq::new(picked@.len(), |i: int| keys[at[i]]);
            assert forall|i: int| 0 <= i < picked@.len() implies self.of_type(ty).contains_key(
                #[trigger] ids[i],
            ) && *picked@[i] == self.of_type(ty)[ids[i]] by {
                assert(0 <= at[i] < all@.len());
                assert(keys.to_set().contains(keys[at[i]]));
            }
            assert(ids.no_duplicates()) by {
                assert forall|i: int, j: int|
                    0 <= i < ids.len() && 0 <= j < ids.len() && i != j implies ids[i] != ids[j] by {
                    assert(at[i] != at[j]);
                }
            }
        }
        Some(picked)
    }
}

} // verus!
