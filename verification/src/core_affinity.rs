//! How a producer and a consumer are placed relative to each other, and one
//! representative pair of processors for each placement a machine can
//! express.
//!
//! A placement that a machine cannot express is reported absent rather than
//! fabricated: "this host cannot test that" and "that made no difference"
//! are opposite findings.

use std::collections::BTreeMap;

use vstd::prelude::*;

use crate::fingerprint::ProcessorPlace;

verus! {

broadcast use vstd::laws_cmp::group_laws_cmp;

/// How a producer and a consumer are placed relative to each other.
#[derive(Debug, Clone, Copy, PartialEq, Eq, PartialOrd, Ord, Hash)]
pub enum Placement {
    /// Two SMT siblings: the same physical core, sharing L1.
    SameCoreSiblings,
    /// Same cache domain, same efficiency class, but different physical
    /// cores.
    SameCacheSameClass,
    /// Same cache domain, different efficiency class.
    SameCacheCrossClass,
    /// Different cache domain, same efficiency class.
    CrossCacheSameClass,
    /// Different cache domain, different efficiency class.
    CrossCacheCrossClass,
    /// Different NUMA nodes.
    CrossNumaNode,
}

impl Placement {
    /// The placement's position in declaration order, which is the order the
    /// report lists placements in.
    pub open spec fn rank(self) -> nat {
        match self {
            Placement::SameCoreSiblings => 0,
            Placement::SameCacheSameClass => 1,
            Placement::SameCacheCrossClass => 2,
            Placement::CrossCacheSameClass => 3,
            Placement::CrossCacheCrossClass => 4,
            Placement::CrossNumaNode => 5,
        }
    }

    /// The placement of a given rank.
    pub open spec fn of_rank(rank: nat) -> Placement {
        if rank == 0 {
            Placement::SameCoreSiblings
        } else if rank == 1 {
            Placement::SameCacheSameClass
        } else if rank == 2 {
            Placement::SameCacheCrossClass
        } else if rank == 3 {
            Placement::CrossCacheSameClass
        } else if rank == 4 {
            Placement::CrossCacheCrossClass
        } else {
            Placement::CrossNumaNode
        }
    }

    fn index(self) -> (index: usize)
        ensures
            index == self.rank(),
    {
        match self {
            Placement::SameCoreSiblings => 0,
            Placement::SameCacheSameClass => 1,
            Placement::SameCacheCrossClass => 2,
            Placement::CrossCacheSameClass => 3,
            Placement::CrossCacheCrossClass => 4,
            Placement::CrossNumaNode => 5,
        }
    }

    fn from_index(index: usize) -> (placement: Placement)
        requires
            index < 6,
        ensures
            placement == Placement::of_rank(index as nat),
            placement.rank() == index,
    {
        if index == 0 {
            Placement::SameCoreSiblings
        } else if index == 1 {
            Placement::SameCacheSameClass
        } else if index == 2 {
            Placement::SameCacheCrossClass
        } else if index == 3 {
            Placement::CrossCacheSameClass
        } else if index == 4 {
            Placement::CrossCacheCrossClass
        } else {
            Placement::CrossNumaNode
        }
    }

    /// The label a table prints for the placement.
    pub open spec fn label_text(self) -> Seq<char> {
        match self {
            Placement::SameCoreSiblings => "SMT siblings (one core)"@,
            Placement::SameCacheSameClass => "same cache, same class"@,
            Placement::SameCacheCrossClass => "same cache, cross class"@,
            Placement::CrossCacheSameClass => "cross cache, same class"@,
            Placement::CrossCacheCrossClass => "cross cache, cross class"@,
            Placement::CrossNumaNode => "cross NUMA node"@,
        }
    }

    /// A short label for a table.
    pub fn label(self) -> (label: &'static str)
        ensures
            label@ == self.label_text(),
    {
        match self {
            Placement::SameCoreSiblings => "SMT siblings (one core)",
            Placement::SameCacheSameClass => "same cache, same class",
            Placement::SameCacheCrossClass => "same cache, cross class",
            Placement::CrossCacheSameClass => "cross cache, same class",
            Placement::CrossCacheCrossClass => "cross cache, cross class",
            Placement::CrossNumaNode => "cross NUMA node",
        }
    }
}

/// How two places relate: sharing a core dominates everything, crossing a
/// NUMA node dominates the cache and the class, and otherwise the pair is
/// classified by whether it shares a cache domain and an efficiency class.
pub open spec fn placement_of(producer: ProcessorPlace, consumer: ProcessorPlace) -> Placement {
    if producer.core == consumer.core {
        Placement::SameCoreSiblings
    } else if producer.numa_node != consumer.numa_node {
        Placement::CrossNumaNode
    } else {
        let same_cache = producer.cache_domain == consumer.cache_domain;
        let same_class = producer.efficiency_class == consumer.efficiency_class;
        if same_cache && same_class {
            Placement::SameCacheSameClass
        } else if same_cache {
            Placement::SameCacheCrossClass
        } else if same_class {
            Placement::CrossCacheSameClass
        } else {
            Placement::CrossCacheCrossClass
        }
    }
}

/// Classify a pair.
pub fn classify(producer: ProcessorPlace, consumer: ProcessorPlace) -> (placement: Placement)
    ensures
        placement == placement_of(producer, consumer),
{
    if producer.core == consumer.core {
        return Placement::SameCoreSiblings;
    }
    if producer.numa_node != consumer.numa_node {
        return Placement::CrossNumaNode;
    }
    let same_cache = match (producer.cache_domain, consumer.cache_domain) {
        (Some(a), Some(b)) => a == b,
        (None, None) => true,
        _ => false,
    };
    let same_class = producer.efficiency_class == consumer.efficiency_class;
    if same_cache && same_class {
        Placement::SameCacheSameClass
    } else if same_cache {
        Placement::SameCacheCrossClass
    } else if same_class {
        Placement::CrossCacheSameClass
    } else {
        Placement::CrossCacheCrossClass
    }
}

/// Classification does not depend on which end produces.
pub proof fn placement_is_symmetric(producer: ProcessorPlace, consumer: ProcessorPlace)
    ensures
        placement_of(producer, consumer) == placement_of(consumer, producer),
{
}

/// Two processors on one core are SMT siblings, whatever else they share or
/// do not; and SMT siblings are exactly the pairs that share a core.
pub proof fn lemma_one_core_means_siblings(producer: ProcessorPlace, consumer: ProcessorPlace)
    ensures
        producer.core == consumer.core ==> placement_of(producer, consumer) == Placement::SameCoreSiblings,
        placement_of(producer, consumer) == Placement::SameCoreSiblings ==> producer.core == consumer.core,
{
}

/// A pair on two cores in different NUMA nodes is a NUMA crossing, and only
/// such a pair is: the node outranks the cache and the class.
pub proof fn lemma_other_node_means_numa_crossing(producer: ProcessorPlace, consumer: ProcessorPlace)
    ensures
        producer.core != consumer.core && producer.numa_node != consumer.numa_node ==> placement_of(
            producer,
            consumer,
        ) == Placement::CrossNumaNode,
        placement_of(producer, consumer) == Placement::CrossNumaNode ==> producer.numa_node != consumer.numa_node,
{
}

/// Within one node and on two cores, the placement says exactly whether the
/// pair shares a cache domain and whether it shares an efficiency class.
pub proof fn lemma_within_a_node_cache_and_class_decide(producer: ProcessorPlace, consumer: ProcessorPlace)
    requires
        producer.core != consumer.core,
        producer.numa_node == consumer.numa_node,
    ensures
        (placement_of(producer, consumer) == Placement::SameCacheSameClass || placement_of(producer, consumer)
            == Placement::SameCacheCrossClass) <==> producer.cache_domain == consumer.cache_domain,
        (placement_of(producer, consumer) == Placement::SameCacheSameClass || placement_of(producer, consumer)
            == Placement::CrossCacheSameClass) <==> producer.efficiency_class == consumer.efficiency_class,
{
}

/// Whether `(i, j)` is a pair the probe may measure with placement `kind`:
/// two different processors that classify as `kind`.
pub open spec fn is_candidate(places: Seq<ProcessorPlace>, i: int, j: int, kind: Placement) -> bool {
    &&& 0 <= i < places.len()
    &&& 0 <= j < places.len()
    &&& places[i].number != places[j].number
    &&& placement_of(places[i], places[j]) == kind
}

/// Whether `(i, j)` comes before `(k, l)` when pairs are enumerated producer
/// by producer, then consumer by consumer.
pub open spec fn pair_before(i: int, j: int, k: int, l: int) -> bool {
    i < k || (i == k && j < l)
}

/// Whether `(i, j)` is the first candidate for `kind` in enumeration order.
pub open spec fn is_first_candidate(places: Seq<ProcessorPlace>, i: int, j: int, kind: Placement) -> bool {
    &&& is_candidate(places, i, j, kind)
    &&& forall|k: int, l: int| #[trigger] pair_before(k, l, i, j) ==> !is_candidate(places, k, l, kind)
}

/// Whether `entry` pairs a placement with the first candidate for it.
pub open spec fn is_representative(places: Seq<ProcessorPlace>, entry: (Placement, (ProcessorPlace, ProcessorPlace))) -> bool {
    exists|i: int, j: int| #[trigger] is_first_candidate(places, i, j, entry.0) && entry.1 == (places[i], places[j])
}

/// Whether the machine can express `kind` at all.
pub open spec fn expressible(places: Seq<ProcessorPlace>, kind: Placement) -> bool {
    exists|i: int, j: int| #[trigger] is_candidate(places, i, j, kind)
}

/// A machine with two processors on one core can express SMT siblings, so
/// [`representative_pairs`] offers a pair for them.
pub proof fn lemma_smt_host_expresses_siblings(places: Seq<ProcessorPlace>, i: int, j: int)
    requires
        0 <= i < places.len(),
        0 <= j < places.len(),
        places[i].number != places[j].number,
        places[i].core == places[j].core,
    ensures
        expressible(places, Placement::SameCoreSiblings),
{
    assert(is_candidate(places, i, j, Placement::SameCoreSiblings));
}

/// Choose one representative processor pair for each placement this machine
/// can express, listed in the placements' declaration order.
///
/// The pair chosen for a placement is the first one met when enumerating
/// producers, then consumers, in the order `places` lists them; a processor
/// is never paired with itself.
pub fn representative_pairs(places: &[ProcessorPlace]) -> (chosen: Vec<(Placement, (ProcessorPlace, ProcessorPlace))>)
    ensures
        forall|a: int, b: int| 0 <= a < b < chosen@.len() ==> chosen@[a].0.rank() < chosen@[b].0.rank(),
        forall|a: int| 0 <= a < chosen@.len() ==> #[trigger] is_representative(places@, chosen@[a]),
        forall|kind: Placement| expressible(places@, kind) ==> exists|a: int| 0 <= a < chosen@.len() && #[trigger] chosen@[a].0 == kind,
{
    let mut slots: Vec<Option<(ProcessorPlace, ProcessorPlace)>> = Vec::new();
    let ghost mut found: Seq<(int, int)> = Seq::empty();
    let mut k: usize = 0;
    while k < 6
        invariant
            k <= 6,
            slots@.len() == k,
            forall|r: int| 0 <= r < k ==> slots@[r] is None,
        decreases 6 - k,
    {
        slots.push(None);
        k = k + 1;
    }
    let mut p: usize = 0;
    while p < places.len()
        invariant
            p <= places@.len(),
            slots@.len() == 6,
            forall|r: int| 0 <= r < 6 ==> match #[trigger] slots@[r] {
                Some(pair) => exists|i: int, j: int| is_first_candidate(places@, i, j, Placement::of_rank(r as nat))
                    && pair == (places@[i], places@[j]) && i < p,
                None => forall|i: int, j: int| i < p ==> !#[trigger] is_candidate(places@, i, j, Placement::of_rank(r as nat)),
            },
        decreases places.len() - p,
    {
        proof {
            assert forall|r: int| 0 <= r < 6 implies match #[trigger] slots@[r] {
                Some(pair) => exists|i: int, j: int| is_first_candidate(places@, i, j, Placement::of_rank(r as nat))
                    && pair == (places@[i], places@[j]) && pair_before(i, j, p as int, 0),
                None => forall|i: int, j: int| pair_before(i, j, p as int, 0) ==> !#[trigger] is_candidate(places@, i, j, Placement::of_rank(r as nat)),
            } by {
                if slots@[r] is Some {
                    let pair = slots@[r]->Some_0;
                    let (i, j) = choose|i: int, j: int| is_first_candidate(places@, i, j, Placement::of_rank(r as nat))
                        && pair == (places@[i], places@[j]) && i < p;
                    assert(pair_before(i, j, p as int, 0));
                }
            }
        }
        let mut c: usize = 0;
        while c < places.len()
            invariant
                p < places@.len(),
                c <= places@.len(),
                slots@.len() == 6,
                forall|r: int| 0 <= r < 6 ==> match #[trigger] slots@[r] {
                    Some(pair) => exists|i: int, j: int| is_first_candidate(places@, i, j, Placement::of_rank(r as nat))
                        && pair == (places@[i], places@[j]) && pair_before(i, j, p as int, c as int),
                    None => forall|i: int, j: int| pair_before(i, j, p as int, c as int) ==> !#[trigger] is_candidate(places@, i, j, Placement::of_rank(r as nat)),
                },
            decreases places.len() - c,
        {
            if places[p].number != places[c].number {
                let kind = classify(places[p], places[c]);
                let slot = kind.index();
                if slots[slot].is_none() {
                    slots.set(slot, Some((places[p], places[c])));
                    proof {
                        assert(Placement::of_rank(slot as nat) == kind);
                        assert(is_candidate(places@, p as int, c as int, kind));
                        assert forall|i: int, j: int| #[trigger] pair_before(i, j, p as int, c as int) implies !is_candidate(places@, i, j, kind) by {
                            assert(!is_candidate(places@, i, j, Placement::of_rank(slot as nat)));
                        }
                        assert(is_first_candidate(places@, p as int, c as int, kind));
                    }
                }
            }
            proof {
                assert forall|r: int| 0 <= r < 6 implies match #[trigger] slots@[r] {
                    Some(pair) => exists|i: int, j: int| is_first_candidate(places@, i, j, Placement::of_rank(r as nat))
                        && pair == (places@[i], places@[j]) && pair_before(i, j, p as int, c + 1),
                    None => forall|i: int, j: int| pair_before(i, j, p as int, c + 1) ==> !#[trigger] is_candidate(places@, i, j, Placement::of_rank(r as nat)),
                } by {
                    if slots@[r] is None {
                        assert forall|i: int, j: int| pair_before(i, j, p as int, c + 1) implies !#[trigger] is_candidate(places@, i, j, Placement::of_rank(r as nat)) by {
                            if i == p && j == c {
                                if places@[p as int].number != places@[c as int].number {
                                    assert(placement_of(places@[p as int], places@[c as int]).rank() != r);
                                }
                            } else {
                                assert(pair_before(i, j, p as int, c as int));
                            }
                        }
                    }
                }
            }
            c = c + 1;
        }
        proof {
            assert forall|r: int| 0 <= r < 6 implies match #[trigger] slots@[r] {
                Some(pair) => exists|i: int, j: int| is_first_candidate(places@, i, j, Placement::of_rank(r as nat))
                    && pair == (places@[i], places@[j]) && i < p + 1,
                None => forall|i: int, j: int| i < p + 1 ==> !#[trigger] is_candidate(places@, i, j, Placement::of_rank(r as nat)),
            } by {
                if slots@[r] is None {
                    assert forall|i: int, j: int| i < p + 1 implies !#[trigger] is_candidate(places@, i, j, Placement::of_rank(r as nat)) by {
                        if i == p && j >= places@.len() {
                        } else if i == p {
                            assert(pair_before(i, j, p as int, places@.len() as int));
                        } else {
                            assert(pair_before(i, j, p as int, places@.len() as int));
                        }
                    }
                } else {
                    let pair = slots@[r]->Some_0;
                    let (i, j) = choose|i: int, j: int| is_first_candidate(places@, i, j, Placement::of_rank(r as nat))
                        && pair == (places@[i], places@[j]) && pair_before(i, j, p as int, places@.len() as int);
                    assert(i < p + 1);
                }
            }
        }
        p = p + 1;
    }

    let mut chosen: Vec<(Placement, (ProcessorPlace, ProcessorPlace))> = Vec::new();
    let mut r: usize = 0;
    while r < 6
        invariant
            r <= 6,
            slots@.len() == 6,
            forall|s: int| 0 <= s < 6 ==> match #[trigger] slots@[s] {
                Some(pair) => exists|i: int, j: int| is_first_candidate(places@, i, j, Placement::of_rank(s as nat))
                    && pair == (places@[i], places@[j]),
                None => forall|i: int, j: int| !#[trigger] is_candidate(places@, i, j, Placement::of_rank(s as nat)),
            },
            forall|a: int, b: int| 0 <= a < b < chosen@.len() ==> chosen@[a].0.rank() < chosen@[b].0.rank(),
            forall|a: int| 0 <= a < chosen@.len() ==> #[trigger] chosen@[a].0.rank() < r,
            forall|a: int| 0 <= a < chosen@.len() ==> #[trigger] is_representative(places@, chosen@[a]),
            forall|s: int| 0 <= s < r && #[trigger] slots@[s] is Some ==> exists|a: int| 0 <= a < chosen@.len() && chosen@[a].0 == Placement::of_rank(s as nat),
        decreases 6 - r,
    {
        let ghost previous = chosen@;
        if let Some(pair) = slots[r] {
            let kind = Placement::from_index(r);
            chosen.push((kind, pair));
            proof {
                assert forall|s: int| 0 <= s < r && #[trigger] slots@[s] is Some implies exists|a: int| 0 <= a < chosen@.len() && chosen@[a].0 == Placement::of_rank(s as nat) by {
                    let a = choose|a: int| 0 <= a < previous.len() && previous[a].0 == Placement::of_rank(s as nat);
                    assert(chosen@[a] == previous[a]);
                }
            }
            proof {
                let last = chosen@.len() - 1;
                assert(chosen@[last].0 == Placement::of_rank(r as nat));
                assert(is_representative(places@, chosen@[last]));
            }
        }
        r = r + 1;
    }
    proof {
        assert forall|kind: Placement| expressible(places@, kind) implies exists|a: int| 0 <= a < chosen@.len() && #[trigger] chosen@[a].0 == kind by {
            let (i, j) = choose|i: int, j: int| #[trigger] is_candidate(places@, i, j, kind);
            let s = kind.rank() as int;
            assert(Placement::of_rank(s as nat) == kind);
            assert(slots@[s] is Some);
        }
    }
    chosen
}

} // verus!

verus! {

/// Whether `(i, j)` is a pair crossing from node `key.0` up to node `key.1`.
pub open spec fn is_node_candidate(places: Seq<ProcessorPlace>, i: int, j: int, key: (u32, u32)) -> bool {
    &&& 0 <= i < places.len()
    &&& 0 <= j < places.len()
    &&& places[i].numa_node < places[j].numa_node
    &&& places[i].numa_node == key.0
    &&& places[j].numa_node == key.1
}

/// Whether `(i, j)` is the first such pair in enumeration order.
pub open spec fn is_first_node_candidate(places: Seq<ProcessorPlace>, i: int, j: int, key: (u32, u32)) -> bool {
    &&& is_node_candidate(places, i, j, key)
    &&& forall|k: int, l: int| #[trigger] pair_before(k, l, i, j) ==> !is_node_candidate(places, k, l, key)
}

/// Choose one representative processor pair for each distinct pair of NUMA
/// nodes, keyed by `(low, high)` node id.
///
/// A node pair appears once rather than once per direction, with the
/// producer on the lower-numbered node; the pair chosen is the first met
/// when enumerating producers, then consumers. Empty on a single-node
/// machine.
pub fn node_pairs(places: &[ProcessorPlace]) -> (chosen: BTreeMap<(u32, u32), (ProcessorPlace, ProcessorPlace)>)
    ensures
        forall|key: (u32, u32)| #[trigger] chosen@.contains_key(key) <==> exists|i: int, j: int| is_node_candidate(places@, i, j, key),
        forall|key: (u32, u32)| #[trigger] chosen@.contains_key(key) ==> exists|i: int, j: int|
            is_first_node_candidate(places@, i, j, key) && chosen@[key] == (places@[i], places@[j]),
{
    let mut chosen: BTreeMap<(u32, u32), (ProcessorPlace, ProcessorPlace)> = BTreeMap::new();
    let mut p: usize = 0;
    while p < places.len()
        invariant
            p <= places@.len(),
            forall|key: (u32, u32)| #[trigger] chosen@.contains_key(key) <==> exists|i: int, j: int| i < p && is_node_candidate(places@, i, j, key),
            forall|key: (u32, u32)| #[trigger] chosen@.contains_key(key) ==> exists|i: int, j: int|
                is_first_node_candidate(places@, i, j, key) && chosen@[key] == (places@[i], places@[j]),
        decreases places.len() - p,
    {
        proof {
            assert forall|key: (u32, u32)| #[trigger] chosen@.contains_key(key) <==> exists|i: int, j: int|
                pair_before(i, j, p as int, 0) && is_node_candidate(places@, i, j, key) by {
                if chosen@.contains_key(key) {
                    let (i, j) = choose|i: int, j: int| i < p && is_node_candidate(places@, i, j, key);
                    assert(pair_before(i, j, p as int, 0));
                }
                if exists|i: int, j: int| pair_before(i, j, p as int, 0) && is_node_candidate(places@, i, j, key) {
                    let (i, j) = choose|i: int, j: int| pair_before(i, j, p as int, 0) && is_node_candidate(places@, i, j, key);
                    assert(i < p);
                }
            }
        }
        let mut c: usize = 0;
        while c < places.len()
            invariant
                p < places@.len(),
                c <= places@.len(),
                forall|key: (u32, u32)| #[trigger] chosen@.contains_key(key) <==> exists|i: int, j: int|
                    pair_before(i, j, p as int, c as int) && is_node_candidate(places@, i, j, key),
                forall|key: (u32, u32)| #[trigger] chosen@.contains_key(key) ==> exists|i: int, j: int|
                    is_first_node_candidate(places@, i, j, key) && chosen@[key] == (places@[i], places@[j]),
            decreases places.len() - c,
        {
            let ghost before = chosen@;
            let producer = places[p];
            let consumer = places[c];
            if producer.numa_node < consumer.numa_node {
                let key = (producer.numa_node, consumer.numa_node);
                if !chosen.contains_key(&key) {
                    chosen.insert(key, (producer, consumer));
                    proof {
                        assert(is_node_candidate(places@, p as int, c as int, key));
                        assert forall|k: int, l: int| #[trigger] pair_before(k, l, p as int, c as int) implies !is_node_candidate(places@, k, l, key) by {
                            if is_node_candidate(places@, k, l, key) {
                                assert(before.contains_key(key));
                            }
                        }
                        assert(is_first_node_candidate(places@, p as int, c as int, key));
                    }
                }
            }
            proof {
                assert forall|key: (u32, u32)| #[trigger] chosen@.contains_key(key) <==> exists|i: int, j: int|
                    pair_before(i, j, p as int, c + 1) && is_node_candidate(places@, i, j, key) by {
                    if exists|i: int, j: int| pair_before(i, j, p as int, c + 1) && is_node_candidate(places@, i, j, key) {
                        let (i, j) = choose|i: int, j: int| pair_before(i, j, p as int, c + 1) && is_node_candidate(places@, i, j, key);
                        if !(i == p && j == c) {
                            assert(pair_before(i, j, p as int, c as int));
                        }
                    }
                    if before.contains_key(key) {
                        let (i, j) = choose|i: int, j: int| pair_before(i, j, p as int, c as int) && is_node_candidate(places@, i, j, key);
                        assert(pair_before(i, j, p as int, c + 1));
                    }
                    if chosen@.contains_key(key) && !before.contains_key(key) {
                        assert(is_node_candidate(places@, p as int, c as int, key));
                        assert(pair_before(p as int, c as int, p as int, c + 1));
                    }
                }
            }
            c = c + 1;
        }
        proof {
            assert forall|key: (u32, u32)| #[trigger] chosen@.contains_key(key) <==> exists|i: int, j: int| i < p + 1 && is_node_candidate(places@, i, j, key) by {
                if exists|i: int, j: int| i < p + 1 && is_node_candidate(places@, i, j, key) {
                    let (i, j) = choose|i: int, j: int| i < p + 1 && is_node_candidate(places@, i, j, key);
                    assert(pair_before(i, j, p as int, places@.len() as int));
                }
                if chosen@.contains_key(key) {
                    let (i, j) = choose|i: int, j: int| pair_before(i, j, p as int, places@.len() as int) && is_node_candidate(places@, i, j, key);
                    assert(i < p + 1);
                }
            }
        }
        p = p + 1;
    }
    chosen
}

} // verus!
