//! A one-line description of the machine, and of which part of it a
//! measurement ran on.
//!
//! The fingerprint is canonical: two hosts that render the same string can
//! express the same placements, so string equality is a usable comparison.
//! A host whose description was not read from a real machine carries a marker
//! at the front of its rendering, so it never compares equal to one that was.

use vstd::prelude::*;

use crate::text::{dec, join_with, lemma_join_push, push_char, push_dec, push_str};

verus! {

/// Where a description of a machine came from.
#[derive(Clone, Copy, Debug, PartialEq, Eq)]
pub enum Provenance {
    /// Read from the machine this process runs on.
    Measured,
    /// Made by hand, describing no real machine.
    Synthetic,
    /// Loaded from a record of some machine, not this one.
    Restored,
}

impl Provenance {
    /// Whether the description was read from this machine.
    pub fn is_measured(self) -> (measured: bool)
        ensures
            measured == (self == Provenance::Measured),
    {
        match self {
            Provenance::Measured => true,
            _ => false,
        }
    }

    /// What a rendering of an untrusted description starts with.
    pub open spec fn marker(self) -> Seq<char> {
        match self {
            Provenance::Measured => Seq::<char>::empty(),
            Provenance::Synthetic => "!!SYNTHETIC!! "@,
            Provenance::Restored => "!!RESTORED!! "@,
        }
    }

    /// Appends the marker.
    pub fn push_marker(self, out: &mut String)
        ensures
            final(out)@ == old(out)@ + self.marker(),
    {
        match self {
            Provenance::Measured => {
                assert(old(out)@ + Seq::<char>::empty() =~= old(out)@);
            },
            Provenance::Synthetic => push_str(out, "!!SYNTHETIC!! "),
            Provenance::Restored => push_str(out, "!!RESTORED!! "),
        }
    }
}

/// One logical processor's position in the machine.
#[derive(Debug, Clone, Copy, PartialEq, Eq)]
pub struct ProcessorPlace {
    /// Its number within the (single) processor group.
    pub number: u8,
    /// Which physical core it belongs to. Two processors sharing a core are
    /// SMT siblings.
    pub core: u32,
    /// Windows's efficiency class. Higher is faster; only meaningful relative
    /// to the same machine.
    pub efficiency_class: u8,
    /// Which cache domain it sits behind, at the outermost level that
    /// partitions the machine, or `None` if no level does.
    pub cache_domain: Option<u32>,
    /// Which NUMA node it belongs to.
    pub numa_node: u32,
}

impl ProcessorPlace {
    /// How a place reads, such as `cpu3/core3/ec1/cd0/n0`.
    pub open spec fn text(self) -> Seq<char> {
        "cpu"@ + dec(self.number as nat) + "/core"@ + dec(self.core as nat) + "/ec"@ + dec(
            self.efficiency_class as nat,
        ) + match self.cache_domain {
            Some(id) => "/cd"@ + dec(id as nat),
            None => "/cd-"@,
        } + "/n"@ + dec(self.numa_node as nat)
    }

    /// Appends [`Self::text`].
    pub fn push_text(&self, out: &mut String)
        ensures
            final(out)@ == old(out)@ + self.text(),
    {
        let ghost start = out@;
        push_str(out, "cpu");
        push_dec(out, self.number as u64);
        push_str(out, "/core");
        push_dec(out, self.core as u64);
        push_str(out, "/ec");
        push_dec(out, self.efficiency_class as u64);
        match self.cache_domain {
            Some(id) => {
                push_str(out, "/cd");
                push_dec(out, id as u64);
            },
            None => push_str(out, "/cd-"),
        }
        push_str(out, "/n");
        push_dec(out, self.numa_node as u64);
        assert(out@ =~= start + self.text());
    }

    /// The place rendered on its own.
    pub fn to_string(&self) -> (text: String)
        ensures
            text@ == self.text(),
    {
        let mut out = String::new();
        self.push_text(&mut out);
        assert(out@ =~= self.text());
        out
    }
}

/// Which part of the machine an experiment actually ran on.
///
/// An unpinned run says so rather than rendering a slice it does not have:
/// "these threads ran here" and "these threads ran wherever Windows put them"
/// are different claims, and only the first supports comparison between runs.
#[derive(Debug, Clone, PartialEq, Eq)]
pub enum Slice {
    /// Threads were left to the scheduler.
    Unpinned {
        /// How many threads participated.
        threads: usize,
    },
    /// Each named thread was confined to one processor.
    Pinned {
        /// `(role, where it ran)`, in the order the experiment defines.
        participants: Vec<(&'static str, ProcessorPlace)>,
    },
}

/// Whether every place in `places` has the cache domain of the first.
pub open spec fn all_same_cache(places: Seq<(&'static str, ProcessorPlace)>) -> bool {
    forall|i: int| 0 <= i < places.len() ==> #[trigger] places[i].1.cache_domain == places[0].1.cache_domain
}

/// Whether every place in `places` has the efficiency class of the first.
pub open spec fn all_same_class(places: Seq<(&'static str, ProcessorPlace)>) -> bool {
    forall|i: int| 0 <= i < places.len() ==> #[trigger] places[i].1.efficiency_class == places[0].1.efficiency_class
}

impl Slice {
    /// A two-participant pinned slice, the common case.
    pub fn pair(producer: ProcessorPlace, consumer: ProcessorPlace) -> (slice: Self)
        ensures
            slice matches Slice::Pinned { participants } && participants@.len() == 2
                && participants@[0].0@ == "prod"@ && participants@[0].1 == producer
                && participants@[1].0@ == "cons"@ && participants@[1].1 == consumer,
    {
        Slice::Pinned { participants: vec![("prod", producer), ("cons", consumer)] }
    }

    /// What [`Self::same_cache_domain`] answers.
    pub open spec fn cache_answer(&self) -> Option<bool> {
        match *self {
            Slice::Unpinned { .. } => None,
            Slice::Pinned { participants } => if participants@.len() == 0 {
                None
            } else {
                Some(all_same_cache(participants@))
            },
        }
    }

    /// What [`Self::same_efficiency_class`] answers.
    pub open spec fn class_answer(&self) -> Option<bool> {
        match *self {
            Slice::Unpinned { .. } => None,
            Slice::Pinned { participants } => if participants@.len() == 0 {
                None
            } else {
                Some(all_same_class(participants@))
            },
        }
    }

    /// Whether every participant sits behind the same cache domain.
    ///
    /// `None` when the slice is unpinned, because the question has no answer
    /// rather than a negative one.
    #[verifier::loop_isolation(false)]
    pub fn same_cache_domain(&self) -> (same: Option<bool>)
        ensures
            same == self.cache_answer(),
    {
        match self {
            Slice::Unpinned { .. } => None,
            Slice::Pinned { participants } => {
                if participants.len() == 0 {
                    return None;
                }
                let first = participants[0].1.cache_domain;
                let mut index: usize = 1;
                while index < participants.len()
                    invariant
                        1 <= index <= participants@.len(),
                        first == participants@[0].1.cache_domain,
                        forall|i: int| 0 <= i < index ==> #[trigger] participants@[i].1.cache_domain == first,
                    decreases participants.len() - index,
                {
                    let here = participants[index].1.cache_domain;
                    let same = match (here, first) {
                        (Some(a), Some(b)) => a == b,
                        (None, None) => true,
                        _ => false,
                    };
                    if !same {
                        assert(participants@[index as int].1.cache_domain != participants@[0].1.cache_domain);
                        return Some(false);
                    }
                    index = index + 1;
                }
                Some(true)
            },
        }
    }

    /// Whether every participant is of the same efficiency class.
    ///
    /// `None` when the slice is unpinned, for the same reason.
    #[verifier::loop_isolation(false)]
    pub fn same_efficiency_class(&self) -> (same: Option<bool>)
        ensures
            same == self.class_answer(),
    {
        match self {
            Slice::Unpinned { .. } => None,
            Slice::Pinned { participants } => {
                if participants.len() == 0 {
                    return None;
                }
                let first = participants[0].1.efficiency_class;
                let mut index: usize = 1;
                while index < participants.len()
                    invariant
                        1 <= index <= participants@.len(),
                        first == participants@[0].1.efficiency_class,
                        forall|i: int| 0 <= i < index ==> #[trigger] participants@[i].1.efficiency_class == first,
                    decreases participants.len() - index,
                {
                    if participants[index].1.efficiency_class != first {
                        assert(participants@[index as int].1.efficiency_class != participants@[0].1.efficiency_class);
                        return Some(false);
                    }
                    index = index + 1;
                }
                Some(true)
            },
        }
    }

    /// The participants' part of a pinned slice's text: ` role=place` each.
    pub open spec fn participants_text(places: Seq<(&'static str, ProcessorPlace)>) -> Seq<char>
        decreases places.len(),
    {
        if places.len() == 0 {
            Seq::<char>::empty()
        } else {
            Self::participants_text(places.drop_last()) + " "@ + places.last().0@ + "="@
                + places.last().1.text()
        }
    }

    /// How a slice reads.
    pub open spec fn text(&self) -> Seq<char> {
        match self {
            Slice::Unpinned { threads } => "unpinned "@ + dec(*threads as nat)
                + "thr (scheduler-placed, not reproducible)"@,
            Slice::Pinned { participants } => "pinned"@ + Self::participants_text(participants@)
                + " ["@ + match self.cache_answer() {
                Some(true) => "same-cache"@,
                Some(false) => "cross-cache"@,
                None => "?-cache"@,
            } + ","@ + match self.class_answer() {
                Some(true) => "same-class"@,
                Some(false) => "cross-class"@,
                None => "?-class"@,
            } + "]"@,
        }
    }

    /// The slice rendered, as a reader sees it.
    pub fn to_string(&self) -> (text: String)
        ensures
            text@ == self.text(),
    {
        let mut out = String::new();
        match self {
            Slice::Unpinned { threads } => {
                push_str(&mut out, "unpinned ");
                push_dec(&mut out, *threads as u64);
                push_str(&mut out, "thr (scheduler-placed, not reproducible)");
            },
            Slice::Pinned { participants } => {
                push_str(&mut out, "pinned");
                let mut index: usize = 0;
                while index < participants.len()
                    invariant
                        index <= participants@.len(),
                        out@ == "pinned"@ + Self::participants_text(participants@.take(index as int)),
                    decreases participants.len() - index,
                {
                    push_str(&mut out, " ");
                    push_str(&mut out, participants[index].0);
                    push_str(&mut out, "=");
                    participants[index].1.push_text(&mut out);
                    assert(participants@.take(index + 1).drop_last() =~= participants@.take(index as int));
                    index = index + 1;
                    assert(out@ =~= "pinned"@ + Self::participants_text(participants@.take(index as int)));
                }
                assert(participants@.take(participants@.len() as int) =~= participants@);
                push_str(&mut out, " [");
                match self.same_cache_domain() {
                    Some(true) => push_str(&mut out, "same-cache"),
                    Some(false) => push_str(&mut out, "cross-cache"),
                    None => push_str(&mut out, "?-cache"),
                }
                push_str(&mut out, ",");
                match self.same_efficiency_class() {
                    Some(true) => push_str(&mut out, "same-class"),
                    Some(false) => push_str(&mut out, "cross-class"),
                    None => push_str(&mut out, "?-class"),
                }
                push_str(&mut out, "]");
            },
        }
        assert(out@ =~= self.text());
        out
    }
}

} // verus!

verus! {

/// `sizes` in decimal, comma-separated.
pub open spec fn sizes_text(sizes: Seq<usize>) -> Seq<char> {
    join_with(sizes.map_values(|n: usize| dec(n as nat)), ',')
}

/// `(class, count)` pairs as `class:count`, comma-separated.
pub open spec fn classes_text(classes: Seq<(u8, usize)>) -> Seq<char> {
    join_with(classes.map_values(|p: (u8, usize)| dec(p.0 as nat) + ":"@ + dec(p.1 as nat)), ',')
}

/// Appends [`sizes_text`].
fn push_sizes(out: &mut String, sizes: &Vec<usize>)
    ensures
        final(out)@ == old(out)@ + sizes_text(sizes@),
{
    let ghost start = out@;
    let mut index: usize = 0;
    while index < sizes.len()
        invariant
            index <= sizes@.len(),
            out@ == start + sizes_text(sizes@.take(index as int)),
        decreases sizes.len() - index,
    {
        let ghost items = sizes@.take(index as int).map_values(|n: usize| dec(n as nat));
        proof {
            lemma_join_push(items, dec(sizes@[index as int] as nat), ',');
            assert(sizes@.take(index + 1).map_values(|n: usize| dec(n as nat)) =~= items.push(
                dec(sizes@[index as int] as nat),
            ));
        }
        if index > 0 {
            push_char(out, ',');
        }
        push_dec(out, sizes[index] as u64);
        index = index + 1;
        assert(out@ =~= start + sizes_text(sizes@.take(index as int)));
    }
    assert(sizes@.take(sizes@.len() as int) =~= sizes@);
}

/// Appends [`classes_text`].
fn push_classes(out: &mut String, classes: &Vec<(u8, usize)>)
    ensures
        final(out)@ == old(out)@ + classes_text(classes@),
{
    let ghost start = out@;
    let mut index: usize = 0;
    while index < classes.len()
        invariant
            index <= classes@.len(),
            out@ == start + classes_text(classes@.take(index as int)),
        decreases classes.len() - index,
    {
        let ghost f = |p: (u8, usize)| dec(p.0 as nat) + ":"@ + dec(p.1 as nat);
        let ghost items = classes@.take(index as int).map_values(f);
        proof {
            lemma_join_push(items, f(classes@[index as int]), ',');
            assert(classes@.take(index + 1).map_values(f) =~= items.push(f(classes@[index as int])));
        }
        if index > 0 {
            push_char(out, ',');
        }
        let (class, count) = classes[index];
        push_dec(out, class as u64);
        push_str(out, ":");
        push_dec(out, count as u64);
        index = index + 1;
        assert(out@ =~= start + classes_text(classes@.take(index as int)));
    }
    assert(classes@.take(classes@.len() as int) =~= classes@);
}

/// A machine's shape, in the terms that decide which placements exist.
#[derive(Debug, Clone, PartialEq, Eq)]
pub struct Fingerprint {
    /// Target architecture.
    pub arch: &'static str,
    /// Logical processors.
    pub processors: usize,
    /// Physical cores.
    pub cores: usize,
    /// Whether any core carries more than one logical processor.
    pub smt: bool,
    /// The outermost cache level that divides the machine, if any.
    pub partitioning_cache_level: Option<u8>,
    /// Processors behind each domain of that cache level, ascending.
    pub cache_domain_sizes: Vec<usize>,
    /// `(efficiency class, processor count)`, ascending by class.
    pub efficiency_classes: Vec<(u8, usize)>,
    /// Processors per NUMA node, ascending.
    pub numa_node_sizes: Vec<usize>,
    /// Where this description came from.
    pub provenance: Provenance,
}

impl Fingerprint {
    /// The canonical one-line form, such as
    /// `aarch64 12p/12c smt- L2[6,6] ec[0:6,1:6] numa[12]`, behind the
    /// provenance marker when the description is untrusted.
    pub open spec fn text(&self) -> Seq<char> {
        self.provenance.marker() + self.arch@ + " "@ + dec(self.processors as nat) + "p/"@ + dec(
            self.cores as nat,
        ) + "c smt"@ + (if self.smt {
            "+"@
        } else {
            "-"@
        }) + match self.partitioning_cache_level {
            Some(level) => " L"@ + dec(level as nat) + "["@,
            None => " L-["@,
        } + sizes_text(self.cache_domain_sizes@) + "] ec["@ + classes_text(
            self.efficiency_classes@,
        ) + "] numa["@ + sizes_text(self.numa_node_sizes@) + "]"@
    }

    /// The fingerprint rendered, as a probe's banner prints it.
    pub fn to_string(&self) -> (text: String)
        ensures
            text@ == self.text(),
    {
        let mut out = String::new();
        self.provenance.push_marker(&mut out);
        push_str(&mut out, self.arch);
        push_str(&mut out, " ");
        push_dec(&mut out, self.processors as u64);
        push_str(&mut out, "p/");
        push_dec(&mut out, self.cores as u64);
        push_str(&mut out, "c smt");
        if self.smt {
            push_str(&mut out, "+");
        } else {
            push_str(&mut out, "-");
        }
        match self.partitioning_cache_level {
            Some(level) => {
                push_str(&mut out, " L");
                push_dec(&mut out, level as u64);
                push_str(&mut out, "[");
            },
            None => push_str(&mut out, " L-["),
        }
        push_sizes(&mut out, &self.cache_domain_sizes);
        push_str(&mut out, "] ec[");
        push_classes(&mut out, &self.efficiency_classes);
        push_str(&mut out, "] numa[");
        push_sizes(&mut out, &self.numa_node_sizes);
        push_str(&mut out, "]");
        assert(out@ =~= self.text());
        out
    }

    /// Whether this machine is heterogeneous: more than one efficiency
    /// class.
    pub fn heterogeneous(&self) -> (heterogeneous: bool)
        ensures
            heterogeneous == (self.efficiency_classes@.len() > 1),
    {
        self.efficiency_classes.len() > 1
    }

    /// Whether any cache level divides this machine.
    pub fn partitioned(&self) -> (partitioned: bool)
        ensures
            partitioned == (self.cache_domain_sizes@.len() > 1),
    {
        self.cache_domain_sizes.len() > 1
    }
}

/// The first line of a probe's report: the machine it ran on, taint marker
/// and all.
pub fn banner_line(fingerprint: &Fingerprint) -> (line: String)
    ensures
        line@ == "host:  "@ + fingerprint.text(),
{
    let mut line = String::new();
    push_str(&mut line, "host:  ");
    let text = fingerprint.to_string();
    push_str(&mut line, text.as_str());
    proof {
        assert(line@ =~= "host:  "@ + fingerprint.text());
    }
    line
}

/// The first line of a probe's report when the machine could not be read:
/// loud, because an unlabelled number is what the banner exists to prevent.
pub fn unknown_host_line(error: &str) -> (line: String)
    ensures
        line@ == "host:  UNKNOWN -- topology discovery failed: "@ + error@,
{
    let mut line = String::new();
    push_str(&mut line, "host:  UNKNOWN -- topology discovery failed: ");
    proof {
        assert(line@ =~= "host:  UNKNOWN -- topology discovery failed: "@);
    }
    push_str(&mut line, error);
    line
}

/// The line naming the slice one measurement ran on.
pub fn slice_line(slice: &Slice) -> (line: String)
    ensures
        line@ == "slice: "@ + slice.text(),
{
    let mut line = String::new();
    push_str(&mut line, "slice: ");
    proof {
        assert(line@ =~= "slice: "@);
    }
    let text = slice.to_string();
    push_str(&mut line, text.as_str());
    line
}

/// Whether two descriptions agree on everything but where they came from.
pub open spec fn same_machine(a: Fingerprint, b: Fingerprint) -> bool {
    &&& a.arch@ == b.arch@
    &&& a.processors == b.processors
    &&& a.cores == b.cores
    &&& a.smt == b.smt
    &&& a.partitioning_cache_level == b.partitioning_cache_level
    &&& a.cache_domain_sizes@ == b.cache_domain_sizes@
    &&& a.efficiency_classes@ == b.efficiency_classes@
    &&& a.numa_node_sizes@ == b.numa_node_sizes@
}

/// The marker is the only difference an untrusted description renders: it
/// is its provenance's marker followed by exactly what the same machine,
/// measured, renders. A measured description carries no marker.
pub proof fn lemma_marker_is_the_only_difference(untrusted: Fingerprint, measured: Fingerprint)
    requires
        same_machine(untrusted, measured),
        measured.provenance == Provenance::Measured,
    ensures
        untrusted.text() == untrusted.provenance.marker() + measured.text(),
        measured.provenance.marker().len() == 0,
{
    assert(untrusted.text() =~= untrusted.provenance.marker() + measured.text());
}

/// An untrusted description never renders as the measured machine it
/// imitates.
pub proof fn lemma_untrusted_never_renders_as_measured(untrusted: Fingerprint, measured: Fingerprint)
    requires
        same_machine(untrusted, measured),
        measured.provenance == Provenance::Measured,
        untrusted.provenance != Provenance::Measured,
    ensures
        untrusted.text() != measured.text(),
{
    lemma_marker_is_the_only_difference(untrusted, measured);
    reveal_strlit("!!SYNTHETIC!! ");
    reveal_strlit("!!RESTORED!! ");
    assert(untrusted.provenance.marker().len() > 0);
    assert(untrusted.text().len() > measured.text().len());
}

} // verus!

verus! {

/// One physical core: its processors and its efficiency class.
#[derive(Debug, Clone, PartialEq, Eq)]
pub struct CoreDomain {
    /// The core's id.
    pub id: u32,
    /// Its efficiency class.
    pub efficiency_class: u8,
    /// The numbers of the logical processors on it.
    pub processors: Vec<u8>,
}

/// A set of processors sharing something: a cache or a NUMA node.
#[derive(Debug, Clone, PartialEq, Eq)]
pub struct Domain {
    /// The domain's id.
    pub id: u32,
    /// The numbers of the logical processors in it.
    pub processors: Vec<u8>,
}

/// A cache domain and the level of the cache it is a domain of.
#[derive(Debug, Clone, PartialEq, Eq)]
pub struct CacheDomain {
    /// The cache level, 1 for L1.
    pub level: u8,
    /// The processors behind this one cache.
    pub domain: Domain,
}

/// A machine as processor topology describes it: the cores, the caches at
/// every level, the NUMA nodes, and where the description came from.
#[derive(Debug, Clone, PartialEq, Eq)]
pub struct Topology {
    /// Every core.
    pub cores: Vec<CoreDomain>,
    /// Every cache domain, of every level.
    pub caches: Vec<CacheDomain>,
    /// Every NUMA node.
    pub memory_domains: Vec<Domain>,
    /// Where this description came from.
    pub provenance: Provenance,
}

impl Default for Topology {
    /// An empty machine, made by hand.
    fn default() -> (topology: Self)
        ensures
            topology.cores@.len() == 0,
            topology.caches@.len() == 0,
            topology.memory_domains@.len() == 0,
            topology.provenance == Provenance::Synthetic,
    {
        Topology {
            cores: Vec::new(),
            caches: Vec::new(),
            memory_domains: Vec::new(),
            provenance: Provenance::Synthetic,
        }
    }
}

/// How many processors `cores` carry in all.
pub open spec fn processor_total(cores: Seq<CoreDomain>) -> nat
    decreases cores.len(),
{
    if cores.len() == 0 {
        0
    } else {
        processor_total(cores.drop_last()) + cores.last().processors@.len()
    }
}

/// Whether some core carries more than one processor.
pub open spec fn has_smt(cores: Seq<CoreDomain>) -> bool {
    exists|i: int| 0 <= i < cores.len() && #[trigger] cores[i].processors@.len() > 1
}

/// How many processors the cores of class `class` carry in all.
pub open spec fn class_total(cores: Seq<CoreDomain>, class: u8) -> nat
    decreases cores.len(),
{
    if cores.len() == 0 {
        0
    } else {
        class_total(cores.drop_last(), class) + if cores.last().efficiency_class == class {
            cores.last().processors@.len()
        } else {
            0
        }
    }
}

/// Whether some core is of class `class`.
pub open spec fn class_present(cores: Seq<CoreDomain>, class: u8) -> bool {
    exists|i: int| 0 <= i < cores.len() && #[trigger] cores[i].efficiency_class == class
}

/// `(class, total)` for every class below `bound` that some core has, in
/// ascending order of class.
pub open spec fn classes_below(cores: Seq<CoreDomain>, bound: nat) -> Seq<(u8, usize)>
    decreases bound,
{
    if bound == 0 {
        Seq::empty()
    } else {
        let class = (bound - 1) as u8;
        let earlier = classes_below(cores, (bound - 1) as nat);
        if class_present(cores, class) {
            earlier.push((class, class_total(cores, class) as usize))
        } else {
            earlier
        }
    }
}

/// The processor counts of the cache domains at `level`, in order.
pub open spec fn sizes_at(caches: Seq<CacheDomain>, level: u8) -> Seq<usize>
    decreases caches.len(),
{
    if caches.len() == 0 {
        Seq::empty()
    } else {
        let earlier = sizes_at(caches.drop_last(), level);
        if caches.last().level == level {
            earlier.push(caches.last().domain.processors@.len() as usize)
        } else {
            earlier
        }
    }
}

/// The cache domains at `level`, in order.
pub open spec fn domains_at(caches: Seq<CacheDomain>, level: u8) -> Seq<Domain>
    decreases caches.len(),
{
    if caches.len() == 0 {
        Seq::empty()
    } else {
        let earlier = domains_at(caches.drop_last(), level);
        if caches.last().level == level {
            earlier.push(caches.last().domain)
        } else {
            earlier
        }
    }
}

/// The outermost level, of levels 1 to `top`, with more than one domain: the
/// level that partitions the machine.
pub open spec fn partitioning_level(caches: Seq<CacheDomain>, top: u8) -> Option<u8>
    decreases top,
{
    if top == 0 {
        None
    } else if domains_at(caches, top).len() > 1 {
        Some(top)
    } else {
        partitioning_level(caches, (top - 1) as u8)
    }
}

/// The processor counts of the NUMA nodes that have any.
pub open spec fn occupied_sizes(domains: Seq<Domain>) -> Seq<usize>
    decreases domains.len(),
{
    if domains.len() == 0 {
        Seq::empty()
    } else {
        let earlier = occupied_sizes(domains.drop_last());
        if domains.last().processors@.len() > 0 {
            earlier.push(domains.last().processors@.len() as usize)
        } else {
            earlier
        }
    }
}

proof fn lemma_sizes_match_domains(caches: Seq<CacheDomain>, level: u8)
    ensures
        sizes_at(caches, level).len() == domains_at(caches, level).len(),
    decreases caches.len(),
{
    if caches.len() > 0 {
        lemma_sizes_match_domains(caches.drop_last(), level);
    }
}

proof fn lemma_class_total_bounded(cores: Seq<CoreDomain>, class: u8)
    ensures
        class_total(cores, class) <= processor_total(cores),
    decreases cores.len(),
{
    if cores.len() > 0 {
        lemma_class_total_bounded(cores.drop_last(), class);
    }
}

proof fn lemma_class_present_step(cores: Seq<CoreDomain>, class: u8)
    requires
        cores.len() > 0,
    ensures
        class_present(cores, class) == (class_present(cores.drop_last(), class)
            || cores.last().efficiency_class == class),
{
    if class_present(cores, class) && cores.last().efficiency_class != class {
        let i = choose|i: int| 0 <= i < cores.len() && #[trigger] cores[i].efficiency_class == class;
        assert(cores.drop_last()[i].efficiency_class == class);
    }
    if class_present(cores.drop_last(), class) {
        let i = choose|i: int| 0 <= i < cores.drop_last().len() && #[trigger] cores.drop_last()[i].efficiency_class == class;
        assert(cores[i].efficiency_class == class);
    }
}

proof fn lemma_has_smt_step(cores: Seq<CoreDomain>)
    requires
        cores.len() > 0,
    ensures
        has_smt(cores) == (has_smt(cores.drop_last()) || cores.last().processors@.len() > 1),
{
    if has_smt(cores) && cores.last().processors@.len() <= 1 {
        let i = choose|i: int| 0 <= i < cores.len() && #[trigger] cores[i].processors@.len() > 1;
        assert(cores.drop_last()[i].processors@.len() > 1);
    }
    if has_smt(cores.drop_last()) {
        let i = choose|i: int| 0 <= i < cores.drop_last().len() && #[trigger] cores.drop_last()[i].processors@.len() > 1;
        assert(cores[i].processors@.len() > 1);
    }
}

/// The counts of a list of `(class, count)` entries, added up.
pub open spec fn count_sum(classes: Seq<(u8, usize)>) -> nat
    decreases classes.len(),
{
    if classes.len() == 0 {
        0
    } else {
        count_sum(classes.drop_last()) + classes.last().1 as nat
    }
}

/// The cores of efficiency class `class`.
pub open spec fn cores_of_class(cores: Seq<CoreDomain>, class: u8) -> Seq<CoreDomain> {
    cores.filter(|core: CoreDomain| core.efficiency_class == class)
}

proof fn lemma_class_total_counts_processors(cores: Seq<CoreDomain>, class: u8)
    ensures
        class_total(cores, class) == processor_total(cores_of_class(cores, class)),
    decreases cores.len(),
{
    reveal(Seq::filter);
    if cores.len() > 0 {
        lemma_class_total_counts_processors(cores.drop_last(), class);
        let earlier = cores_of_class(cores.drop_last(), class);
        if cores.last().efficiency_class == class {
            assert(cores_of_class(cores, class) == earlier.push(cores.last()));
            assert(earlier.push(cores.last()).drop_last() =~= earlier);
        } else {
            assert(cores_of_class(cores, class) == earlier);
        }
    }
}

proof fn lemma_absent_class_is_empty(cores: Seq<CoreDomain>, class: u8)
    requires
        !class_present(cores, class),
    ensures
        class_total(cores, class) == 0,
    decreases cores.len(),
{
    if cores.len() > 0 {
        lemma_class_present_step(cores, class);
        lemma_absent_class_is_empty(cores.drop_last(), class);
    }
}

/// The processors of the cores whose class is below `bound`.
spec fn total_below(cores: Seq<CoreDomain>, bound: nat) -> nat
    decreases bound,
{
    if bound == 0 {
        0
    } else {
        total_below(cores, (bound - 1) as nat) + class_total(cores, (bound - 1) as u8)
    }
}

proof fn lemma_total_below_step(cores: Seq<CoreDomain>, bound: nat)
    requires
        cores.len() > 0,
        bound <= 256,
    ensures
        total_below(cores, bound) == total_below(cores.drop_last(), bound) + if (cores.last().efficiency_class
            as nat) < bound {
            cores.last().processors@.len()
        } else {
            0
        },
    decreases bound,
{
    if bound > 0 {
        lemma_total_below_step(cores, (bound - 1) as nat);
        assert(((bound - 1) as u8) as nat == bound - 1);
    }
}

proof fn lemma_total_below_none(cores: Seq<CoreDomain>, bound: nat)
    requires
        cores.len() == 0,
    ensures
        total_below(cores, bound) == 0,
    decreases bound,
{
    if bound > 0 {
        lemma_total_below_none(cores, (bound - 1) as nat);
    }
}

proof fn lemma_total_below_all(cores: Seq<CoreDomain>)
    ensures
        total_below(cores, 256) == processor_total(cores),
    decreases cores.len(),
{
    if cores.len() > 0 {
        lemma_total_below_step(cores, 256);
        lemma_total_below_all(cores.drop_last());
    } else {
        lemma_total_below_none(cores, 256);
    }
}

proof fn lemma_classes_sum(cores: Seq<CoreDomain>, bound: nat)
    requires
        bound <= 256,
        processor_total(cores) <= usize::MAX,
    ensures
        count_sum(classes_below(cores, bound)) == total_below(cores, bound),
    decreases bound,
{
    if bound > 0 {
        let class = (bound - 1) as u8;
        lemma_classes_sum(cores, (bound - 1) as nat);
        lemma_class_total_bounded(cores, class);
        if class_present(cores, class) {
            let earlier = classes_below(cores, (bound - 1) as nat);
            assert(earlier.push((class, class_total(cores, class) as usize)).drop_last() =~= earlier);
        } else {
            lemma_absent_class_is_empty(cores, class);
        }
    }
}

/// Every entry of the class list has a distinct class, in ascending order,
/// and is a class some core has.
proof fn lemma_classes_below_entries(cores: Seq<CoreDomain>, bound: nat, k: int)
    requires
        bound <= 256,
        0 <= k < classes_below(cores, bound).len(),
    ensures
        (classes_below(cores, bound)[k].0 as nat) < bound,
        classes_below(cores, bound)[k].1 == class_total(cores, classes_below(cores, bound)[k].0) as usize,
    decreases bound,
{
    let class = (bound - 1) as u8;
    let earlier = classes_below(cores, (bound - 1) as nat);
    if k < earlier.len() {
        lemma_classes_below_entries(cores, (bound - 1) as nat, k);
        if class_present(cores, class) {
            assert(classes_below(cores, bound)[k] == earlier[k]);
        }
    }
}

/// The efficiency-class counts of a fingerprint are processor counts: each
/// is the number of processors carried by the cores of that class, and
/// together they add up to every processor the machine has.
pub proof fn lemma_class_counts_are_processor_counts(cores: Seq<CoreDomain>)
    requires
        processor_total(cores) <= usize::MAX,
    ensures
        count_sum(classes_below(cores, 256)) == processor_total(cores),
        forall|k: int|
            0 <= k < classes_below(cores, 256).len() ==> #[trigger] classes_below(cores, 256)[k].1
                == processor_total(cores_of_class(cores, classes_below(cores, 256)[k].0)),
{
    lemma_classes_sum(cores, 256);
    lemma_total_below_all(cores);
    assert forall|k: int|
        0 <= k < classes_below(cores, 256).len() implies #[trigger] classes_below(cores, 256)[k].1
            == processor_total(cores_of_class(cores, classes_below(cores, 256)[k].0)) by {
        let class = classes_below(cores, 256)[k].0;
        lemma_classes_below_entries(cores, 256, k);
        lemma_class_total_bounded(cores, class);
        lemma_class_total_counts_processors(cores, class);
    }
}

impl Topology {
    /// The cache-domain processor counts at `level`.
    fn cache_sizes_at(&self, level: u8) -> (sizes: Vec<usize>)
        ensures
            sizes@ == sizes_at(self.caches@, level),
    {
        let mut sizes: Vec<usize> = Vec::new();
        let mut index: usize = 0;
        while index < self.caches.len()
            invariant
                index <= self.caches@.len(),
                sizes@ == sizes_at(self.caches@.take(index as int), level),
            decreases self.caches.len() - index,
        {
            assert(self.caches@.take(index + 1).drop_last() =~= self.caches@.take(index as int));
            if self.caches[index].level == level {
                sizes.push(self.caches[index].domain.processors.len());
            }
            index = index + 1;
        }
        assert(self.caches@.take(self.caches@.len() as int) =~= self.caches@);
        sizes
    }
}

impl Fingerprint {
    /// The fingerprint `topology` describes, as `Fingerprint::discover` reads
    /// it from the machine, with `arch` as the architecture.
    ///
    /// Carries the topology's provenance, so a hand-made topology yields a
    /// fingerprint marked as untrusted.
    pub fn from_topology(topology: &Topology, arch: &'static str) -> (fingerprint: Self)
        requires
            processor_total(topology.cores@) <= usize::MAX,
        ensures
            fingerprint.arch == arch,
            fingerprint.processors == processor_total(topology.cores@),
            fingerprint.cores == topology.cores@.len(),
            fingerprint.smt == has_smt(topology.cores@),
            fingerprint.efficiency_classes@ == classes_below(topology.cores@, 256),
            fingerprint.partitioning_cache_level == partitioning_level(topology.caches@, 4),
            match partitioning_level(topology.caches@, 4) {
                Some(level) => {
                    &&& crate::order::ascending(fingerprint.cache_domain_sizes@)
                    &&& fingerprint.cache_domain_sizes@.to_multiset() == sizes_at(
                        topology.caches@,
                        level,
                    ).to_multiset()
                },
                None => fingerprint.cache_domain_sizes@ == seq![fingerprint.processors],
            },
            crate::order::ascending(fingerprint.numa_node_sizes@),
            fingerprint.numa_node_sizes@.to_multiset() == occupied_sizes(
                topology.memory_domains@,
            ).to_multiset(),
            fingerprint.provenance == topology.provenance,
    {
        let cores = &topology.cores;
        // Totals, SMT, and the per-class counts, indexed by class.
        let mut processors: usize = 0;
        let mut smt = false;
        let mut totals: Vec<usize> = Vec::new();
        let mut present: Vec<bool> = Vec::new();
        let mut class: usize = 0;
        while class < 256
            invariant
                class <= 256,
                totals@.len() == class,
                present@.len() == class,
                forall|c: int| 0 <= c < class ==> totals@[c] == 0 && !present@[c],
            decreases 256 - class,
        {
            totals.push(0);
            present.push(false);
            class = class + 1;
        }
        let mut index: usize = 0;
        while index < cores.len()
            invariant
                index <= cores@.len(),
                processor_total(cores@) <= usize::MAX,
                processors == processor_total(cores@.take(index as int)),
                smt == has_smt(cores@.take(index as int)),
                totals@.len() == 256,
                present@.len() == 256,
                forall|c: int| 0 <= c < 256 ==> #[trigger] totals@[c] == class_total(cores@.take(index as int), c as u8),
                forall|c: int| 0 <= c < 256 ==> #[trigger] present@[c] == class_present(cores@.take(index as int), c as u8),
            decreases cores.len() - index,
        {
            let ghost before = cores@.take(index as int);
            let ghost after = cores@.take(index + 1);
            proof {
                assert(after.drop_last() =~= before);
                assert(after.last() == cores@[index as int]);
                assert(cores@.take(cores@.len() as int) =~= cores@);
                lemma_prefix_total(cores@, index as int + 1);
                lemma_class_total_bounded(after, cores@[index as int].efficiency_class);
                lemma_has_smt_step(after);
            }
            let count = cores[index].processors.len();
            let core_class = cores[index].efficiency_class as usize;
            processors = processors + count;
            if count > 1 {
                smt = true;
            }
            let updated = totals[core_class] + count;
            totals.set(core_class, updated);
            present.set(core_class, true);
            proof {
                assert forall|c: int| 0 <= c < 256 implies #[trigger] totals@[c] == class_total(after, c as u8) by {
                    assert((c as u8) as int == c);
                }
                assert forall|c: int| 0 <= c < 256 implies #[trigger] present@[c] == class_present(after, c as u8) by {
                    lemma_class_present_step(after, c as u8);
                    assert((c as u8) as int == c);
                }
            }
            index = index + 1;
        }
        proof {
            assert(cores@.take(cores@.len() as int) =~= cores@);
        }
        let mut efficiency_classes: Vec<(u8, usize)> = Vec::new();
        let mut class: usize = 0;
        while class < 256
            invariant
                class <= 256,
                totals@.len() == 256,
                present@.len() == 256,
                forall|c: int| 0 <= c < 256 ==> #[trigger] totals@[c] == class_total(cores@, c as u8),
                forall|c: int| 0 <= c < 256 ==> #[trigger] present@[c] == class_present(cores@, c as u8),
                efficiency_classes@ == classes_below(cores@, class as nat),
            decreases 256 - class,
        {
            if present[class] {
                efficiency_classes.push((class as u8, totals[class]));
            }
            class = class + 1;
        }

        // The outermost level that actually divides the machine.
        let mut partitioning_cache_level: Option<u8> = None;
        let mut cache_domain_sizes: Vec<usize> = Vec::new();
        let mut level: u8 = 1;
        while level <= 4
            invariant
                1 <= level <= 5,
                partitioning_cache_level == partitioning_level(topology.caches@, (level - 1) as u8),
                match partitioning_cache_level {
                    Some(chosen) => cache_domain_sizes@ == sizes_at(topology.caches@, chosen),
                    None => cache_domain_sizes@.len() == 0,
                },
            decreases 5 - level,
        {
            let sizes = topology.cache_sizes_at(level);
            proof {
                lemma_sizes_match_domains(topology.caches@, level);
            }
            if sizes.len() > 1 {
                partitioning_cache_level = Some(level);
                cache_domain_sizes = sizes;
            }
            level = level + 1;
        }
        let cache_domain_sizes = match partitioning_cache_level {
            Some(_) => crate::order::sorted(&cache_domain_sizes),
            None => vec![processors],
        };

        let mut occupied: Vec<usize> = Vec::new();
        let mut index: usize = 0;
        while index < topology.memory_domains.len()
            invariant
                index <= topology.memory_domains@.len(),
                occupied@ == occupied_sizes(topology.memory_domains@.take(index as int)),
            decreases topology.memory_domains.len() - index,
        {
            assert(topology.memory_domains@.take(index + 1).drop_last() =~= topology.memory_domains@.take(index as int));
            let size = topology.memory_domains[index].processors.len();
            if size > 0 {
                occupied.push(size);
            }
            index = index + 1;
        }
        assert(topology.memory_domains@.take(topology.memory_domains@.len() as int) =~= topology.memory_domains@);
        let numa_node_sizes = crate::order::sorted(&occupied);

        Fingerprint {
            arch,
            processors,
            cores: cores.len(),
            smt,
            partitioning_cache_level,
            cache_domain_sizes,
            efficiency_classes,
            numa_node_sizes,
            provenance: topology.provenance,
        }
    }
}

proof fn lemma_prefix_total(cores: Seq<CoreDomain>, k: int)
    requires
        0 <= k <= cores.len(),
    ensures
        processor_total(cores.take(k)) <= processor_total(cores),
    decreases cores.len() - k,
{
    if k < cores.len() {
        lemma_prefix_total(cores, k + 1);
        assert(cores.take(k + 1).drop_last() =~= cores.take(k));
    } else {
        assert(cores.take(k) =~= cores);
    }
}

} // verus!

verus! {

/// The last core in `cores` that carries processor `number`: its id and
/// efficiency class.
pub open spec fn last_core_of(cores: Seq<CoreDomain>, number: u8) -> Option<(u32, u8)>
    decreases cores.len(),
{
    if cores.len() == 0 {
        None
    } else if cores.last().processors@.contains(number) {
        Some((cores.last().id, cores.last().efficiency_class))
    } else {
        last_core_of(cores.drop_last(), number)
    }
}

/// The id of the last domain in `domains` that holds processor `number`.
pub open spec fn last_domain_of(domains: Seq<Domain>, number: u8) -> Option<u32>
    decreases domains.len(),
{
    if domains.len() == 0 {
        None
    } else if domains.last().processors@.contains(number) {
        Some(domains.last().id)
    } else {
        last_domain_of(domains.drop_last(), number)
    }
}

/// Where processor `number` sits, if some core carries it.
pub open spec fn place_of(topology: Topology, number: u8) -> Option<ProcessorPlace> {
    match last_core_of(topology.cores@, number) {
        None => None,
        Some((core, efficiency_class)) => Some(
            ProcessorPlace {
                number,
                core,
                efficiency_class,
                cache_domain: match partitioning_level(topology.caches@, 4) {
                    Some(level) => last_domain_of(domains_at(topology.caches@, level), number),
                    None => None,
                },
                numa_node: match last_domain_of(topology.memory_domains@, number) {
                    Some(node) => node,
                    None => 0,
                },
            },
        ),
    }
}

/// The places of every processor numbered below `bound` that some core
/// carries, in ascending order of number.
pub open spec fn places_below(topology: Topology, bound: nat) -> Seq<ProcessorPlace>
    decreases bound,
{
    if bound == 0 {
        Seq::empty()
    } else {
        let earlier = places_below(topology, (bound - 1) as nat);
        match place_of(topology, (bound - 1) as u8) {
            Some(place) => earlier.push(place),
            None => earlier,
        }
    }
}

/// The level the fingerprint reports is the outermost of levels 1 to 4 that
/// has more than one domain; with none such, there is no level.
pub proof fn lemma_partitioning_level_is_outermost(caches: Seq<CacheDomain>, top: u8)
    requires
        top <= 4,
    ensures
        match partitioning_level(caches, top) {
            Some(level) => {
                &&& 1 <= level <= top
                &&& domains_at(caches, level).len() > 1
                &&& forall|other: u8| level < other <= top ==> #[trigger] domains_at(caches, other).len() <= 1
            },
            None => forall|other: u8| 1 <= other <= top ==> #[trigger] domains_at(caches, other).len() <= 1,
        },
    decreases top,
{
    if top > 0 {
        lemma_partitioning_level_is_outermost(caches, (top - 1) as u8);
    }
}

proof fn lemma_last_domain_holds(domains: Seq<Domain>, number: u8)
    ensures
        match last_domain_of(domains, number) {
            Some(id) => exists|i: int|
                0 <= i < domains.len() && #[trigger] domains[i].id == id && domains[i].processors@.contains(number),
            None => forall|i: int| 0 <= i < domains.len() ==> !(#[trigger] domains[i].processors@.contains(number)),
        },
    decreases domains.len(),
{
    if domains.len() > 0 {
        let earlier = domains.drop_last();
        lemma_last_domain_holds(earlier, number);
        if domains.last().processors@.contains(number) {
            assert(domains[domains.len() - 1].id == domains.last().id);
        } else {
            match last_domain_of(earlier, number) {
                Some(id) => {
                    let i = choose|i: int|
                        0 <= i < earlier.len() && #[trigger] earlier[i].id == id && earlier[i].processors@.contains(number);
                    assert(domains[i] == earlier[i]);
                },
                None => {
                    assert forall|i: int| 0 <= i < domains.len() implies !(#[trigger] domains[i].processors@.contains(number)) by {
                        if i < earlier.len() {
                            assert(domains[i] == earlier[i]);
                        }
                    }
                },
            }
        }
    }
}

proof fn lemma_places_below_are_places(topology: Topology, bound: nat, k: int)
    requires
        0 <= k < places_below(topology, bound).len(),
        bound <= 256,
    ensures
        place_of(topology, places_below(topology, bound)[k].number) == Some(places_below(topology, bound)[k]),
    decreases bound,
{
    let earlier = places_below(topology, (bound - 1) as nat);
    if k < earlier.len() {
        lemma_places_below_are_places(topology, (bound - 1) as nat, k);
        match place_of(topology, (bound - 1) as u8) {
            Some(place) => {
                assert(places_below(topology, bound)[k] == earlier[k]);
            },
            None => {},
        }
    } else {
        assert(((bound - 1) as u8) as nat == bound - 1);
    }
}

/// Every place's cache domain is read at the level the fingerprint reports:
/// a domain of that level that holds the processor, present whenever one
/// does, and absent when no level partitions the machine. Its core is one
/// that carries it, and its NUMA node one that holds it, or node 0 when none
/// does.
pub proof fn lemma_places_use_the_fingerprint_level(topology: Topology, k: int)
    requires
        0 <= k < places_below(topology, 256).len(),
    ensures
        ({
            let place = places_below(topology, 256)[k];
            match partitioning_level(topology.caches@, 4) {
                Some(level) => {
                    &&& (place.cache_domain matches Some(id) ==> exists|i: int|
                        0 <= i < domains_at(topology.caches@, level).len()
                            && #[trigger] domains_at(topology.caches@, level)[i].id == id
                            && domains_at(topology.caches@, level)[i].processors@.contains(place.number))
                    &&& ((exists|i: int|
                        0 <= i < domains_at(topology.caches@, level).len()
                            && #[trigger] domains_at(topology.caches@, level)[i].processors@.contains(place.number))
                        ==> place.cache_domain is Some)
                },
                None => place.cache_domain is None,
            }
        }),
        ({
            let place = places_below(topology, 256)[k];
            &&& place.numa_node != 0 ==> exists|i: int|
                0 <= i < topology.memory_domains@.len() && #[trigger] topology.memory_domains@[i].id
                    == place.numa_node && topology.memory_domains@[i].processors@.contains(place.number)
        }),
{
    lemma_places_below_are_places(topology, 256, k);
    let place = places_below(topology, 256)[k];
    match partitioning_level(topology.caches@, 4) {
        Some(level) => {
            lemma_last_domain_holds(domains_at(topology.caches@, level), place.number);
        },
        None => {},
    }
    lemma_last_domain_holds(topology.memory_domains@, place.number);
}

/// A table from processor number to the id of the last domain holding it.
fn domain_table(domains: &Vec<Domain>) -> (table: Vec<Option<u32>>)
    ensures
        table@.len() == 256,
        forall|n: int| 0 <= n < 256 ==> #[trigger] table@[n] == last_domain_of(domains@, n as u8),
{
    let mut table: Vec<Option<u32>> = Vec::new();
    let mut n: usize = 0;
    while n < 256
        invariant
            n <= 256,
            table@.len() == n,
            forall|k: int| 0 <= k < n ==> table@[k] == None::<u32>,
        decreases 256 - n,
    {
        table.push(None);
        n = n + 1;
    }
    let mut index: usize = 0;
    while index < domains.len()
        invariant
            index <= domains@.len(),
            table@.len() == 256,
            forall|k: int| 0 <= k < 256 ==> #[trigger] table@[k] == last_domain_of(domains@.take(index as int), k as u8),
        decreases domains.len() - index,
    {
        let ghost before = table@;
        let processors = &domains[index].processors;
        let id = domains[index].id;
        let mut j: usize = 0;
        while j < processors.len()
            invariant
                j <= processors@.len(),
                table@.len() == 256,
                forall|k: int| 0 <= k < 256 ==> #[trigger] table@[k] == (if processors@.take(j as int).contains(k as u8) {
                    Some(id)
                } else {
                    before[k]
                }),
            decreases processors.len() - j,
        {
            let number = processors[j];
            table.set(number as usize, Some(id));
            proof {
                assert forall|k: int| 0 <= k < 256 implies #[trigger] table@[k] == (if processors@.take(j + 1).contains(k as u8) {
                    Some(id)
                } else {
                    before[k]
                }) by {
                    assert(processors@.take(j + 1) =~= processors@.take(j as int).push(number));
                    if k == number as int {
                        assert(processors@.take(j + 1)[j as int] == number);
                    } else {
                        assert((k as u8) != number);
                        if processors@.take(j + 1).contains(k as u8) {
                            let w = choose|w: int| 0 <= w < j + 1 && #[trigger] processors@.take(j + 1)[w] == k as u8;
                            assert(processors@.take(j as int)[w] == k as u8);
                        }
                        if processors@.take(j as int).contains(k as u8) {
                            let w = choose|w: int| 0 <= w < j && #[trigger] processors@.take(j as int)[w] == k as u8;
                            assert(processors@.take(j + 1)[w] == k as u8);
                        }
                    }
                }
            }
            j = j + 1;
        }
        proof {
            assert(processors@.take(processors@.len() as int) =~= processors@);
            let after = domains@.take(index + 1);
            assert(after.drop_last() =~= domains@.take(index as int));
            assert(after.last() == domains@[index as int]);
        }
        index = index + 1;
    }
    assert(domains@.take(domains@.len() as int) =~= domains@);
    table
}

/// A table from processor number to the id of the last cache domain at
/// `level` holding it.
fn cache_table(caches: &Vec<CacheDomain>, level: u8) -> (table: Vec<Option<u32>>)
    ensures
        table@.len() == 256,
        forall|n: int| 0 <= n < 256 ==> #[trigger] table@[n] == last_domain_of(domains_at(caches@, level), n as u8),
{
    let mut table: Vec<Option<u32>> = Vec::new();
    let mut n: usize = 0;
    while n < 256
        invariant
            n <= 256,
            table@.len() == n,
            forall|k: int| 0 <= k < n ==> table@[k] == None::<u32>,
        decreases 256 - n,
    {
        table.push(None);
        n = n + 1;
    }
    let mut index: usize = 0;
    while index < caches.len()
        invariant
            index <= caches@.len(),
            table@.len() == 256,
            forall|k: int| 0 <= k < 256 ==> #[trigger] table@[k] == last_domain_of(domains_at(caches@.take(index as int), level), k as u8),
        decreases caches.len() - index,
    {
        proof {
            let after = caches@.take(index + 1);
            assert(after.drop_last() =~= caches@.take(index as int));
            assert(after.last() == caches@[index as int]);
        }
        if caches[index].level != level {
            index = index + 1;
            continue;
        }
        let ghost before = table@;
        let processors = &caches[index].domain.processors;
        let id = caches[index].domain.id;
        let mut j: usize = 0;
        while j < processors.len()
            invariant
                j <= processors@.len(),
                table@.len() == 256,
                forall|k: int| 0 <= k < 256 ==> #[trigger] table@[k] == (if processors@.take(j as int).contains(k as u8) {
                    Some(id)
                } else {
                    before[k]
                }),
            decreases processors.len() - j,
        {
            let number = processors[j];
            table.set(number as usize, Some(id));
            proof {
                assert forall|k: int| 0 <= k < 256 implies #[trigger] table@[k] == (if processors@.take(j + 1).contains(k as u8) {
                    Some(id)
                } else {
                    before[k]
                }) by {
                    assert(processors@.take(j + 1) =~= processors@.take(j as int).push(number));
                    if k == number as int {
                        assert(processors@.take(j + 1)[j as int] == number);
                    } else {
                        assert((k as u8) != number);
                        if processors@.take(j + 1).contains(k as u8) {
                            let w = choose|w: int| 0 <= w < j + 1 && #[trigger] processors@.take(j + 1)[w] == k as u8;
                            assert(processors@.take(j as int)[w] == k as u8);
                        }
                        if processors@.take(j as int).contains(k as u8) {
                            let w = choose|w: int| 0 <= w < j && #[trigger] processors@.take(j as int)[w] == k as u8;
                            assert(processors@.take(j + 1)[w] == k as u8);
                        }
                    }
                }
            }
            j = j + 1;
        }
        proof {
            assert(processors@.take(processors@.len() as int) =~= processors@);
            let after = caches@.take(index + 1);
            assert(after.drop_last() =~= caches@.take(index as int));
            assert(after.last() == caches@[index as int]);
            let found = domains_at(after, level);
            assert(found == domains_at(caches@.take(index as int), level).push(caches@[index as int].domain));
            assert(found.drop_last() =~= domains_at(caches@.take(index as int), level));
            assert(found.last() == caches@[index as int].domain);
        }
        index = index + 1;
    }
    assert(caches@.take(caches@.len() as int) =~= caches@);
    table
}

/// A table from processor number to the id and class of the last core
/// carrying it.
fn core_table(cores: &Vec<CoreDomain>) -> (table: Vec<Option<(u32, u8)>>)
    ensures
        table@.len() == 256,
        forall|n: int| 0 <= n < 256 ==> #[trigger] table@[n] == last_core_of(cores@, n as u8),
{
    let mut table: Vec<Option<(u32, u8)>> = Vec::new();
    let mut n: usize = 0;
    while n < 256
        invariant
            n <= 256,
            table@.len() == n,
            forall|k: int| 0 <= k < n ==> table@[k] == None::<(u32, u8)>,
        decreases 256 - n,
    {
        table.push(None);
        n = n + 1;
    }
    let mut index: usize = 0;
    while index < cores.len()
        invariant
            index <= cores@.len(),
            table@.len() == 256,
            forall|k: int| 0 <= k < 256 ==> #[trigger] table@[k] == last_core_of(cores@.take(index as int), k as u8),
        decreases cores.len() - index,
    {
        let ghost before = table@;
        let processors = &cores[index].processors;
        let entry = (cores[index].id, cores[index].efficiency_class);
        let mut j: usize = 0;
        while j < processors.len()
            invariant
                j <= processors@.len(),
                table@.len() == 256,
                forall|k: int| 0 <= k < 256 ==> #[trigger] table@[k] == (if processors@.take(j as int).contains(k as u8) {
                    Some(entry)
                } else {
                    before[k]
                }),
            decreases processors.len() - j,
        {
            let number = processors[j];
            table.set(number as usize, Some(entry));
            proof {
                assert forall|k: int| 0 <= k < 256 implies #[trigger] table@[k] == (if processors@.take(j + 1).contains(k as u8) {
                    Some(entry)
                } else {
                    before[k]
                }) by {
                    assert(processors@.take(j + 1) =~= processors@.take(j as int).push(number));
                    if k == number as int {
                        assert(processors@.take(j + 1)[j as int] == number);
                    } else {
                        assert((k as u8) != number);
                        if processors@.take(j + 1).contains(k as u8) {
                            let w = choose|w: int| 0 <= w < j + 1 && #[trigger] processors@.take(j + 1)[w] == k as u8;
                            assert(processors@.take(j as int)[w] == k as u8);
                        }
                        if processors@.take(j as int).contains(k as u8) {
                            let w = choose|w: int| 0 <= w < j && #[trigger] processors@.take(j as int)[w] == k as u8;
                            assert(processors@.take(j + 1)[w] == k as u8);
                        }
                    }
                }
            }
            j = j + 1;
        }
        proof {
            assert(processors@.take(processors@.len() as int) =~= processors@);
            let after = cores@.take(index + 1);
            assert(after.drop_last() =~= cores@.take(index as int));
            assert(after.last() == cores@[index as int]);
        }
        index = index + 1;
    }
    assert(cores@.take(cores@.len() as int) =~= cores@);
    table
}

impl Topology {
    /// Where each logical processor sits, in ascending order of number:
    /// its core, class, cache domain at the partitioning level, and NUMA
    /// node (0 when no node claims it).
    ///
    /// Where two domains of one kind claim a processor, the later one wins.
    pub fn places(&self) -> (places: Vec<ProcessorPlace>)
        ensures
            places@ == places_below(*self, 256),
    {
        let cores = core_table(&self.cores);
        let numa = domain_table(&self.memory_domains);

        // The outermost cache level that partitions the machine, matching the
        // fingerprint's own rule so the two cannot disagree.
        let mut chosen: Option<u8> = None;
        let mut level: u8 = 1;
        while level <= 4
            invariant
                1 <= level <= 5,
                chosen == partitioning_level(self.caches@, (level - 1) as u8),
            decreases 5 - level,
        {
            let sizes = self.cache_sizes_at(level);
            proof {
                lemma_sizes_match_domains(self.caches@, level);
            }
            if sizes.len() > 1 {
                chosen = Some(level);
            }
            level = level + 1;
        }
        let caches: Vec<Option<u32>> = match chosen {
            Some(level) => cache_table(&self.caches, level),
            None => {
                let mut none: Vec<Option<u32>> = Vec::new();
                let mut n: usize = 0;
                while n < 256
                    invariant
                        n <= 256,
                        none@.len() == n,
                        forall|k: int| 0 <= k < n ==> none@[k] == None::<u32>,
                    decreases 256 - n,
                {
                    none.push(None);
                    n = n + 1;
                }
                none
            },
        };

        let mut places: Vec<ProcessorPlace> = Vec::new();
        let mut n: usize = 0;
        while n < 256
            invariant
                n <= 256,
                cores@.len() == 256,
                numa@.len() == 256,
                caches@.len() == 256,
                forall|k: int| 0 <= k < 256 ==> #[trigger] cores@[k] == last_core_of(self.cores@, k as u8),
                forall|k: int| 0 <= k < 256 ==> #[trigger] numa@[k] == last_domain_of(self.memory_domains@, k as u8),
                forall|k: int| 0 <= k < 256 ==> #[trigger] caches@[k] == match chosen {
                    Some(level) => last_domain_of(domains_at(self.caches@, level), k as u8),
                    None => None,
                },
                chosen == partitioning_level(self.caches@, 4),
                places@ == places_below(*self, n as nat),
            decreases 256 - n,
        {
            if let Some((core, efficiency_class)) = cores[n] {
                let numa_node = match numa[n] {
                    Some(node) => node,
                    None => 0,
                };
                places.push(ProcessorPlace {
                    number: n as u8,
                    core,
                    efficiency_class,
                    cache_domain: caches[n],
                    numa_node,
                });
            }
            proof {
                assert((n as u8) as int == n);
            }
            n = n + 1;
        }
        places
    }
}

} // verus!

verus! {

/// Whether `c` is a decimal digit.
pub open spec fn is_digit(c: char) -> bool {
    0x30 <= (c as u32) <= 0x39
}

proof fn lemma_dec_digits(n: nat)
    ensures
        dec(n).len() > 0,
        forall|i: int| 0 <= i < dec(n).len() ==> is_digit(#[trigger] dec(n)[i]),
        n >= 10 ==> dec(n).len() >= 2,
    decreases n,
{
    if n >= 10 {
        crate::text::lemma_div_smaller(n, 10);
        lemma_dec_digits(n / 10);
        assert(dec(n) == dec(n / 10).push(crate::text::digit_char(n % 10, false)));
    }
}

proof fn lemma_dec_injective(n: nat, m: nat)
    requires
        dec(n) == dec(m),
    ensures
        n == m,
    decreases n,
{
    lemma_dec_digits(n);
    lemma_dec_digits(m);
    if n >= 10 && m >= 10 {
        crate::text::lemma_div_smaller(n, 10);
        assert(dec(n) == dec(n / 10).push(crate::text::digit_char(n % 10, false)));
        assert(dec(m) == dec(m / 10).push(crate::text::digit_char(m % 10, false)));
        assert(dec(n / 10) =~= dec(n).drop_last());
        assert(dec(m / 10) =~= dec(m).drop_last());
        lemma_dec_injective(n / 10, m / 10);
        let dn = crate::text::digit_char(n % 10, false);
        let dm = crate::text::digit_char(m % 10, false);
        assert(dn == dec(n).last());
        assert(dm == dec(m).last());
        assert(dn as u32 == 48 + n % 10);
        assert(dm as u32 == 48 + m % 10);
        assert(n % 10 == m % 10);
        assert(n == 10 * (n / 10) + n % 10) by (nonlinear_arith);
        assert(m == 10 * (m / 10) + m % 10) by (nonlinear_arith);
    } else if n < 10 && m < 10 {
        assert(dec(n)[0] == dec(m)[0]);
        assert(dec(n)[0] as u32 == 48 + n);
        assert(dec(m)[0] as u32 == 48 + m);
    }
}

/// Whether `s` holds no decimal digit-free character `c`: digits never
/// contain a delimiter.
proof fn lemma_dec_avoids(n: nat, c: char)
    requires
        !is_digit(c),
    ensures
        !dec(n).contains(c),
{
    lemma_dec_digits(n);
    if dec(n).contains(c) {
        let i = choose|i: int| 0 <= i < dec(n).len() && dec(n)[i] == c;
        assert(is_digit(dec(n)[i]));
    }
}

/// Two texts that each run to a first `c` split there the same way.
proof fn lemma_split_at_first(a: Seq<char>, x: Seq<char>, b: Seq<char>, y: Seq<char>, c: char)
    requires
        !a.contains(c),
        !b.contains(c),
        x.len() > 0 && x[0] == c,
        y.len() > 0 && y[0] == c,
        a + x == b + y,
    ensures
        a == b,
        x == y,
{
    if a.len() < b.len() {
        assert((a + x)[a.len() as int] == c);
        assert((b + y)[a.len() as int] == b[a.len() as int]);
        assert(b.contains(c));
    } else if b.len() < a.len() {
        assert((b + y)[b.len() as int] == c);
        assert((a + x)[b.len() as int] == a[b.len() as int]);
        assert(a.contains(c));
    } else {
        assert(a =~= (a + x).subrange(0, a.len() as int));
        assert(b =~= (b + y).subrange(0, b.len() as int));
        assert(x =~= (a + x).skip(a.len() as int));
        assert(y =~= (b + y).skip(b.len() as int));
    }
}

/// Two texts that each end in a `c` followed by no `c` split there the same
/// way.
proof fn lemma_split_at_last(r: Seq<char>, a: Seq<char>, s: Seq<char>, b: Seq<char>, c: char)
    requires
        !a.contains(c),
        !b.contains(c),
        r.push(c) + a == s.push(c) + b,
    ensures
        a == b,
        r == s,
{
    let left = r.push(c) + a;
    let right = s.push(c) + b;
    if a.len() < b.len() {
        let k = left.len() - a.len() - 1;
        assert(left[k] == c);
        assert(right[k] == b[k - s.len() - 1]);
        assert(b.contains(c));
    } else if b.len() < a.len() {
        let k = right.len() - b.len() - 1;
        assert(right[k] == c);
        assert(left[k] == a[k - r.len() - 1]);
        assert(a.contains(c));
    } else {
        assert(a =~= left.skip(left.len() - a.len()));
        assert(b =~= right.skip(right.len() - b.len()));
        assert(r =~= left.subrange(0, r.len() as int));
        assert(s =~= right.subrange(0, s.len() as int));
    }
}

/// Whether every item is nonempty and free of `c`.
pub open spec fn clean_items(items: Seq<Seq<char>>, c: char) -> bool {
    forall|i: int| 0 <= i < items.len() ==> (#[trigger] items[i]).len() > 0 && !items[i].contains(c)
}

proof fn lemma_join_shape(items: Seq<Seq<char>>, c: char)
    requires
        clean_items(items, c),
    ensures
        (join_with(items, c).len() == 0) == (items.len() == 0),
        join_with(items, c).contains(c) == (items.len() >= 2),
    decreases items.len(),
{
    if items.len() >= 2 {
        let rest = items.drop_last();
        assert(clean_items(rest, c)) by {
            assert forall|i: int| 0 <= i < rest.len() implies (#[trigger] rest[i]).len() > 0 && !rest[i].contains(c) by {
                assert(rest[i] == items[i]);
            }
        }
        lemma_join_shape(rest, c);
        let joined = join_with(items, c);
        assert(joined == join_with(rest, c).push(c) + items.last());
        assert(joined[join_with(rest, c).len() as int] == c);
    } else if items.len() == 1 {
        assert(join_with(items, c) == items[0]);
    }
}

/// Joining clean items with `c` loses nothing: equal joins come from equal
/// items.
proof fn lemma_join_injective(xs: Seq<Seq<char>>, ys: Seq<Seq<char>>, c: char)
    requires
        clean_items(xs, c),
        clean_items(ys, c),
        join_with(xs, c) == join_with(ys, c),
    ensures
        xs == ys,
    decreases xs.len(),
{
    lemma_join_shape(xs, c);
    lemma_join_shape(ys, c);
    if xs.len() == 0 {
        assert(ys.len() == 0);
        assert(xs =~= ys);
    } else if xs.len() == 1 {
        assert(ys.len() == 1);
        assert(join_with(xs, c) == xs[0]);
        assert(join_with(ys, c) == ys[0]);
        assert(xs =~= ys);
    } else {
        assert(ys.len() >= 2);
        let xr = xs.drop_last();
        let yr = ys.drop_last();
        assert(clean_items(xr, c)) by {
            assert forall|i: int| 0 <= i < xr.len() implies (#[trigger] xr[i]).len() > 0 && !xr[i].contains(c) by {
                assert(xr[i] == xs[i]);
            }
        }
        assert(clean_items(yr, c)) by {
            assert forall|i: int| 0 <= i < yr.len() implies (#[trigger] yr[i]).len() > 0 && !yr[i].contains(c) by {
                assert(yr[i] == ys[i]);
            }
        }
        assert(!xs.last().contains(c));
        assert(!ys.last().contains(c));
        lemma_split_at_last(join_with(xr, c), xs.last(), join_with(yr, c), ys.last(), c);
        lemma_join_injective(xr, yr, c);
        assert(xs =~= xr.push(xs.last()));
        assert(ys =~= yr.push(ys.last()));
    }
}

/// The decimal forms of `sizes`.
pub open spec fn size_items(sizes: Seq<usize>) -> Seq<Seq<char>> {
    sizes.map_values(|n: usize| dec(n as nat))
}

/// The `class:count` forms of `classes`.
pub open spec fn class_items(classes: Seq<(u8, usize)>) -> Seq<Seq<char>> {
    classes.map_values(|p: (u8, usize)| dec(p.0 as nat) + ":"@ + dec(p.1 as nat))
}

proof fn lemma_size_items_clean(sizes: Seq<usize>, c: char)
    requires
        !is_digit(c),
    ensures
        clean_items(size_items(sizes), c),
{
    assert forall|i: int| 0 <= i < size_items(sizes).len() implies (#[trigger] size_items(sizes)[i]).len() > 0
        && !size_items(sizes)[i].contains(c) by {
        lemma_dec_digits(sizes[i] as nat);
        lemma_dec_avoids(sizes[i] as nat, c);
    }
}

proof fn lemma_class_items_clean(classes: Seq<(u8, usize)>, c: char)
    requires
        !is_digit(c),
        c != ':',
    ensures
        clean_items(class_items(classes), c),
{
    reveal_strlit(":");
    assert forall|i: int| 0 <= i < class_items(classes).len() implies (#[trigger] class_items(classes)[i]).len() > 0
        && !class_items(classes)[i].contains(c) by {
        let p = classes[i];
        let item = dec(p.0 as nat) + ":"@ + dec(p.1 as nat);
        assert(class_items(classes)[i] == item);
        lemma_dec_avoids(p.0 as nat, c);
        lemma_dec_avoids(p.1 as nat, c);
        lemma_dec_digits(p.0 as nat);
        if item.contains(c) {
            let k = choose|k: int| 0 <= k < item.len() && item[k] == c;
            if k < dec(p.0 as nat).len() {
                assert(dec(p.0 as nat)[k] == c);
            } else if k == dec(p.0 as nat).len() {
                assert(item[k] == ':');
            } else {
                assert(dec(p.1 as nat)[k - dec(p.0 as nat).len() - 1] == c);
            }
        }
    }
}

proof fn lemma_sizes_injective(s: Seq<usize>, t: Seq<usize>)
    requires
        sizes_text(s) == sizes_text(t),
    ensures
        s == t,
{
    lemma_size_items_clean(s, ',');
    lemma_size_items_clean(t, ',');
    lemma_join_injective(size_items(s), size_items(t), ',');
    assert(s.len() == size_items(s).len());
    assert forall|i: int| 0 <= i < s.len() implies s[i] == t[i] by {
        assert(size_items(s)[i] == size_items(t)[i]);
        lemma_dec_injective(s[i] as nat, t[i] as nat);
    }
    assert(s =~= t);
}

proof fn lemma_classes_injective(s: Seq<(u8, usize)>, t: Seq<(u8, usize)>)
    requires
        classes_text(s) == classes_text(t),
    ensures
        s == t,
{
    reveal_strlit(":");
    lemma_class_items_clean(s, ',');
    lemma_class_items_clean(t, ',');
    lemma_join_injective(class_items(s), class_items(t), ',');
    assert(s.len() == class_items(s).len());
    assert forall|i: int| 0 <= i < s.len() implies s[i] == t[i] by {
        let a = s[i];
        let b = t[i];
        assert(class_items(s)[i] == class_items(t)[i]);
        lemma_dec_avoids(a.0 as nat, ':');
        lemma_dec_avoids(b.0 as nat, ':');
        assert(dec(a.0 as nat) + ":"@ + dec(a.1 as nat) =~= dec(a.0 as nat) + (":"@ + dec(a.1 as nat)));
        assert(dec(b.0 as nat) + ":"@ + dec(b.1 as nat) =~= dec(b.0 as nat) + (":"@ + dec(b.1 as nat)));
        lemma_split_at_first(dec(a.0 as nat), ":"@ + dec(a.1 as nat), dec(b.0 as nat), ":"@ + dec(b.1 as nat), ':');
        lemma_dec_injective(a.0 as nat, b.0 as nat);
        assert(dec(a.1 as nat) =~= (":"@ + dec(a.1 as nat)).skip(1));
        assert(dec(b.1 as nat) =~= (":"@ + dec(b.1 as nat)).skip(1));
        lemma_dec_injective(a.1 as nat, b.1 as nat);
    }
    assert(s =~= t);
}

/// How the partitioning level is written: its number, or `-` for none.
pub open spec fn level_text(level: Option<u8>) -> Seq<char> {
    match level {
        Some(l) => dec(l as nat),
        None => "-"@,
    }
}

/// How SMT is written.
pub open spec fn smt_text(smt: bool) -> Seq<char> {
    if smt {
        "+"@
    } else {
        "-"@
    }
}

/// A rendering from the NUMA nodes on.
pub open spec fn tail_numa(f: Fingerprint) -> Seq<char> {
    sizes_text(f.numa_node_sizes@) + "]"@
}

/// A rendering from the efficiency classes on.
pub open spec fn tail_classes(f: Fingerprint) -> Seq<char> {
    classes_text(f.efficiency_classes@) + ("] numa["@ + tail_numa(f))
}

/// A rendering from the cache domains on.
pub open spec fn tail_sizes(f: Fingerprint) -> Seq<char> {
    sizes_text(f.cache_domain_sizes@) + ("] ec["@ + tail_classes(f))
}

/// A rendering from the partitioning level on.
pub open spec fn tail_level(f: Fingerprint) -> Seq<char> {
    level_text(f.partitioning_cache_level) + ("["@ + tail_sizes(f))
}

/// A rendering from the SMT mark on.
pub open spec fn tail_smt(f: Fingerprint) -> Seq<char> {
    smt_text(f.smt) + (" L"@ + tail_level(f))
}

/// A rendering from the core count on.
pub open spec fn tail_cores(f: Fingerprint) -> Seq<char> {
    dec(f.cores as nat) + ("c smt"@ + tail_smt(f))
}

/// A rendering from the processor count on.
pub open spec fn tail_processors(f: Fingerprint) -> Seq<char> {
    dec(f.processors as nat) + ("p/"@ + tail_cores(f))
}

/// Everything a rendering holds after the architecture, each field followed
/// by the delimiter that ends it.
pub open spec fn text_after_arch(f: Fingerprint) -> Seq<char> {
    " "@ + tail_processors(f)
}

proof fn lemma_assoc(a: Seq<char>, b: Seq<char>, c: Seq<char>)
    ensures
        (a + b) + c == a + (b + c),
{
    assert((a + b) + c =~= a + (b + c));
}

proof fn lemma_text_shape(f: Fingerprint)
    ensures
        f.text() == f.provenance.marker() + (f.arch@ + text_after_arch(f)),
{
    reveal_strlit(" L-[");
    reveal_strlit(" L");
    reveal_strlit("-");
    reveal_strlit("[");
    let p1 = f.provenance.marker() + f.arch@;
    let p2 = p1 + " "@;
    let p3 = p2 + dec(f.processors as nat);
    let p4 = p3 + "p/"@;
    let p5 = p4 + dec(f.cores as nat);
    let p6 = p5 + "c smt"@;
    let p7 = p6 + smt_text(f.smt);
    let p8 = p7 + " L"@;
    let p9 = p8 + level_text(f.partitioning_cache_level);
    let p10 = p9 + "["@;
    let p11 = p10 + sizes_text(f.cache_domain_sizes@);
    let p12 = p11 + "] ec["@;
    let p13 = p12 + classes_text(f.efficiency_classes@);
    let p14 = p13 + "] numa["@;
    let p15 = p14 + sizes_text(f.numa_node_sizes@);
    let lead = match f.partitioning_cache_level {
        Some(level) => " L"@ + dec(level as nat) + "["@,
        None => " L-["@,
    };
    assert(p7 + lead =~= p10);
    assert(f.text() == p15 + "]"@);
    lemma_assoc(p14, sizes_text(f.numa_node_sizes@), "]"@);
    lemma_assoc(p13, "] numa["@, tail_numa(f));
    lemma_assoc(p12, classes_text(f.efficiency_classes@), "] numa["@ + tail_numa(f));
    lemma_assoc(p11, "] ec["@, tail_classes(f));
    lemma_assoc(p10, sizes_text(f.cache_domain_sizes@), "] ec["@ + tail_classes(f));
    lemma_assoc(p9, "["@, tail_sizes(f));
    lemma_assoc(p8, level_text(f.partitioning_cache_level), "["@ + tail_sizes(f));
    lemma_assoc(p7, " L"@, tail_level(f));
    lemma_assoc(p6, smt_text(f.smt), " L"@ + tail_level(f));
    lemma_assoc(p5, "c smt"@, tail_smt(f));
    lemma_assoc(p4, dec(f.cores as nat), "c smt"@ + tail_smt(f));
    lemma_assoc(p3, "p/"@, tail_cores(f));
    lemma_assoc(p2, dec(f.processors as nat), "p/"@ + tail_cores(f));
    lemma_assoc(p1, " "@, tail_processors(f));
    lemma_assoc(f.provenance.marker(), f.arch@, text_after_arch(f));
}

/// Whether an architecture name can stand in a rendering unambiguously: it
/// holds no space, which ends it, and no `!`, which opens a marker.
pub open spec fn plain_arch(arch: Seq<char>) -> bool {
    !arch.contains(' ') && !arch.contains('!')
}

proof fn lemma_drop_literal(lit: Seq<char>, x: Seq<char>, y: Seq<char>)
    requires
        lit + x == lit + y,
    ensures
        x == y,
{
    assert(x =~= (lit + x).skip(lit.len() as int));
    assert(y =~= (lit + y).skip(lit.len() as int));
}

/// A measured rendering and a marked one never coincide when both name the
/// same architecture: the marker's space and the name's space fall at
/// different places, or a digit meets the marker's `!`.
proof fn lemma_marked_differs_from_measured(f: Fingerprint, g: Fingerprint)
    requires
        f.provenance == Provenance::Measured,
        g.provenance != Provenance::Measured,
        f.arch@ == g.arch@,
        !f.arch@.contains(' '),
    ensures
        f.text() != g.text(),
{
    if f.text() == g.text() {
        reveal_strlit("!!SYNTHETIC!! ");
        reveal_strlit("!!RESTORED!! ");
        reveal_strlit(" ");
        lemma_text_shape(f);
        lemma_text_shape(g);
        let a = f.arch@;
        let m = g.provenance.marker();
        let n = a.len() as int;
        let t = f.text();
        let tf = text_after_arch(f);
        let tg = text_after_arch(g);
        assert(f.provenance.marker() + (a + tf) =~= a + tf);
        assert(t == a + tf);
        assert(t == m + (a + tg));
        let k = m.len() - 1;
        assert(k == 12 || k == 13);
        assert(m[k] == ' ');
        assert(forall|j: int| 0 <= j < k ==> m[j] != ' ');
        assert(t[k] == ' ');
        assert(tf[0] == ' ');
        assert(t[n] == ' ');
        if n < k {
            assert(t[n] == m[n]);
        } else if n > k {
            assert(t[k] == a[k]);
            assert(a.contains(a[k]));
        }
        assert(n == k);
        lemma_dec_digits(f.processors as nat);
        assert(tf[1] == dec(f.processors as nat)[0]);
        assert(t[k + 1] == tf[1]);
        assert(t[k + 1] == a[0]);
        assert(t[0] == a[0]);
        assert(t[0] == m[0]);
        assert(m[0] == '!');
        assert(is_digit(dec(f.processors as nat)[0]));
        assert(false);
    }
}

/// Every field that changes the answer appears in the rendering: two
/// descriptions that render identically describe the same machine, from the
/// same provenance, when their architecture names hold no space and either
/// are the same name or hold no `!`.
pub proof fn lemma_rendering_tells_machines_apart(f: Fingerprint, g: Fingerprint)
    requires
        (plain_arch(f.arch@) && plain_arch(g.arch@)) || (f.arch@ == g.arch@ && !f.arch@.contains(' ')),
        f.text() == g.text(),
    ensures
        same_machine(f, g),
        f.provenance == g.provenance,
{
    if !(plain_arch(f.arch@) && plain_arch(g.arch@)) && f.provenance != g.provenance {
        if f.provenance == Provenance::Measured {
            lemma_marked_differs_from_measured(f, g);
        } else if g.provenance == Provenance::Measured {
            lemma_marked_differs_from_measured(g, f);
        }
    }
    reveal_strlit("!!SYNTHETIC!! ");
    reveal_strlit("!!RESTORED!! ");
    reveal_strlit(" ");
    reveal_strlit("p/");
    reveal_strlit("c smt");
    reveal_strlit("+");
    reveal_strlit("-");
    reveal_strlit(" L");
    reveal_strlit("[");
    reveal_strlit("] ec[");
    reveal_strlit("] numa[");
    reveal_strlit("]");
    lemma_text_shape(f);
    lemma_text_shape(g);
    let bf = f.arch@ + text_after_arch(f);
    let bg = g.arch@ + text_after_arch(g);
    let mf = f.provenance.marker();
    let mg = g.provenance.marker();
    assert(text_after_arch(f)[0] == ' ');
    assert(text_after_arch(g)[0] == ' ');
    // The marker: a measured rendering opens with no `!`, the two markers
    // differ at their third character.
    assert(plain_arch(f.arch@) && plain_arch(g.arch@) ==> bf[0] != '!') by {
        if f.arch@.len() > 0 {
            assert(bf[0] == f.arch@[0]);
        }
    }
    assert(plain_arch(f.arch@) && plain_arch(g.arch@) ==> bg[0] != '!') by {
        if g.arch@.len() > 0 {
            assert(bg[0] == g.arch@[0]);
        }
    }
    if f.provenance != g.provenance {
        if f.provenance == Provenance::Measured {
            assert(f.text()[0] == bf[0]);
            assert(g.text()[0] == mg[0]);
        } else if g.provenance == Provenance::Measured {
            assert(g.text()[0] == bg[0]);
            assert(f.text()[0] == mf[0]);
        } else {
            assert(f.text()[2] == mf[2]);
            assert(g.text()[2] == mg[2]);
        }
    }
    assert(mf == mg);
    lemma_drop_literal(mf, bf, bg);
    // The architecture runs to the first space.
    lemma_split_at_first(f.arch@, text_after_arch(f), g.arch@, text_after_arch(g), ' ');
    lemma_drop_literal(" "@, tail_processors(f), tail_processors(g));
    // The processor count runs to `p`.
    lemma_dec_avoids(f.processors as nat, 'p');
    lemma_dec_avoids(g.processors as nat, 'p');
    lemma_split_at_first(dec(f.processors as nat), "p/"@ + tail_cores(f), dec(g.processors as nat), "p/"@ + tail_cores(g), 'p');
    lemma_dec_injective(f.processors as nat, g.processors as nat);
    lemma_drop_literal("p/"@, tail_cores(f), tail_cores(g));
    // The core count runs to `c`.
    lemma_dec_avoids(f.cores as nat, 'c');
    lemma_dec_avoids(g.cores as nat, 'c');
    lemma_split_at_first(dec(f.cores as nat), "c smt"@ + tail_smt(f), dec(g.cores as nat), "c smt"@ + tail_smt(g), 'c');
    lemma_dec_injective(f.cores as nat, g.cores as nat);
    lemma_drop_literal("c smt"@, tail_smt(f), tail_smt(g));
    // The SMT mark is one character.
    assert(tail_smt(f)[0] == tail_smt(g)[0]);
    assert(f.smt == g.smt);
    lemma_drop_literal(smt_text(f.smt), " L"@ + tail_level(f), " L"@ + tail_level(g));
    lemma_drop_literal(" L"@, tail_level(f), tail_level(g));
    // The level runs to `[`.
    assert(!level_text(f.partitioning_cache_level).contains('[')) by {
        if let Some(l) = f.partitioning_cache_level {
            lemma_dec_avoids(l as nat, '[');
        }
    }
    assert(!level_text(g.partitioning_cache_level).contains('[')) by {
        if let Some(l) = g.partitioning_cache_level {
            lemma_dec_avoids(l as nat, '[');
        }
    }
    lemma_split_at_first(level_text(f.partitioning_cache_level), "["@ + tail_sizes(f), level_text(g.partitioning_cache_level), "["@ + tail_sizes(g), '[');
    assert(f.partitioning_cache_level == g.partitioning_cache_level) by {
        match (f.partitioning_cache_level, g.partitioning_cache_level) {
            (Some(a), Some(b)) => {
                lemma_dec_injective(a as nat, b as nat);
            },
            (Some(a), None) => {
                lemma_dec_digits(a as nat);
                assert(is_digit(dec(a as nat)[0]));
            },
            (None, Some(b)) => {
                lemma_dec_digits(b as nat);
                assert(is_digit(dec(b as nat)[0]));
            },
            (None, None) => {},
        }
    }
    lemma_drop_literal("["@, tail_sizes(f), tail_sizes(g));
    // The cache domains run to `]`.
    lemma_sizes_avoid(f.cache_domain_sizes@, ']');
    lemma_sizes_avoid(g.cache_domain_sizes@, ']');
    lemma_split_at_first(sizes_text(f.cache_domain_sizes@), "] ec["@ + tail_classes(f), sizes_text(g.cache_domain_sizes@), "] ec["@ + tail_classes(g), ']');
    lemma_sizes_injective(f.cache_domain_sizes@, g.cache_domain_sizes@);
    lemma_drop_literal("] ec["@, tail_classes(f), tail_classes(g));
    // The classes run to `]`.
    lemma_classes_avoid(f.efficiency_classes@, ']');
    lemma_classes_avoid(g.efficiency_classes@, ']');
    lemma_split_at_first(classes_text(f.efficiency_classes@), "] numa["@ + tail_numa(f), classes_text(g.efficiency_classes@), "] numa["@ + tail_numa(g), ']');
    lemma_classes_injective(f.efficiency_classes@, g.efficiency_classes@);
    lemma_drop_literal("] numa["@, tail_numa(f), tail_numa(g));
    // The NUMA nodes are all that is left before the final `]`.
    assert(sizes_text(f.numa_node_sizes@) =~= tail_numa(f).drop_last());
    assert(sizes_text(g.numa_node_sizes@) =~= tail_numa(g).drop_last());
    lemma_sizes_injective(f.numa_node_sizes@, g.numa_node_sizes@);
}

proof fn lemma_join_avoids(items: Seq<Seq<char>>, sep: char, c: char)
    requires
        sep != c,
        forall|i: int| 0 <= i < items.len() ==> !(#[trigger] items[i]).contains(c),
    ensures
        !join_with(items, sep).contains(c),
    decreases items.len(),
{
    if items.len() >= 2 {
        let rest = items.drop_last();
        assert forall|i: int| 0 <= i < rest.len() implies !(#[trigger] rest[i]).contains(c) by {
            assert(rest[i] == items[i]);
        }
        lemma_join_avoids(rest, sep, c);
        let joined = join_with(items, sep);
        let head = join_with(rest, sep).push(sep);
        assert(joined == head + items.last());
        if joined.contains(c) {
            let k = choose|k: int| 0 <= k < joined.len() && joined[k] == c;
            if k < head.len() - 1 {
                assert(join_with(rest, sep)[k] == c);
            } else if k >= head.len() {
                assert(items.last()[k - head.len()] == c);
            }
        }
    } else if items.len() == 1 {
        assert(join_with(items, sep) == items[0]);
    }
}

proof fn lemma_sizes_avoid(sizes: Seq<usize>, c: char)
    requires
        !is_digit(c),
        c != ',',
    ensures
        !sizes_text(sizes).contains(c),
{
    lemma_size_items_clean(sizes, c);
    lemma_join_avoids(size_items(sizes), ',', c);
}

proof fn lemma_classes_avoid(classes: Seq<(u8, usize)>, c: char)
    requires
        !is_digit(c),
        c != ',',
        c != ':',
    ensures
        !classes_text(classes).contains(c),
{
    lemma_class_items_clean(classes, c);
    lemma_join_avoids(class_items(classes), ',', c);
}

} // verus!
