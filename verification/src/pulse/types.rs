//! Interest masks (the event facilities a subscription wants) and subscription events.
use vstd::prelude::*;

verus! {

/// One facility of the sound server whose events a subscription can be interested in.
#[derive(Debug, Copy, Clone, PartialEq, Eq, Structural, Hash)]
pub enum InterestMask {
    Sink,
    Source,
    SinkInput,
    SourceOutput,
    Module,
    Client,
    SampleCache,
    Server,
    Card,
}

/// Position of an interest in the fixed order `Sink, Source, SinkInput, SourceOutput, Module,
/// Client, SampleCache, Server, Card`.
pub open spec fn interest_index(m: InterestMask) -> nat {
    match m {
        InterestMask::Sink => 0,
        InterestMask::Source => 1,
        InterestMask::SinkInput => 2,
        InterestMask::SourceOutput => 3,
        InterestMask::Module => 4,
        InterestMask::Client => 5,
        InterestMask::SampleCache => 6,
        InterestMask::Server => 7,
        InterestMask::Card => 8,
    }
}

/// The interest at position `i` of the fixed order.
pub open spec fn interest_at(i: int) -> InterestMask {
    if i <= 0 {
        InterestMask::Sink
    } else if i == 1 {
        InterestMask::Source
    } else if i == 2 {
        InterestMask::SinkInput
    } else if i == 3 {
        InterestMask::SourceOutput
    } else if i == 4 {
        InterestMask::Module
    } else if i == 5 {
        InterestMask::Client
    } else if i == 6 {
        InterestMask::SampleCache
    } else if i == 7 {
        InterestMask::Server
    } else {
        InterestMask::Card
    }
}

/// Every interest, in the fixed order.
pub open spec fn all_interests() -> Seq<InterestMask> {
    Seq::new(9, |i: int| interest_at(i))
}

/// Positions and interests correspond one to one.
pub proof fn lemma_interest_index(m: InterestMask)
    ensures
        interest_index(m) < 9,
        interest_at(interest_index(m) as int) == m,
{
}

impl InterestMask {
    /// Position of this interest in the fixed order.
    pub fn index(self) -> (r: usize)
        ensures
            r == interest_index(self),
    {
        match self {
            InterestMask::Sink => 0,
            InterestMask::Source => 1,
            InterestMask::SinkInput => 2,
            InterestMask::SourceOutput => 3,
            InterestMask::Module => 4,
            InterestMask::Client => 5,
            InterestMask::SampleCache => 6,
            InterestMask::Server => 7,
            InterestMask::Card => 8,
        }
    }

    /// The interest at position `i` of the fixed order.
    pub fn at(i: usize) -> (r: Self)
        requires
            i < 9,
        ensures
            r == interest_at(i as int),
    {
        if i == 0 {
            InterestMask::Sink
        } else if i == 1 {
            InterestMask::Source
        } else if i == 2 {
            InterestMask::SinkInput
        } else if i == 3 {
            InterestMask::SourceOutput
        } else if i == 4 {
            InterestMask::Module
        } else if i == 5 {
            InterestMask::Client
        } else if i == 6 {
            InterestMask::SampleCache
        } else if i == 7 {
            InterestMask::Server
        } else {
            InterestMask::Card
        }
    }
}

/// A set of interests, one flag per facility.
#[derive(Debug, Copy, Clone, PartialEq, Eq, Structural)]
pub struct InterestMaskSet {
    pub sink: bool,
    pub source: bool,
    pub sink_input: bool,
    pub source_output: bool,
    pub module: bool,
    pub client: bool,
    pub sample_cache: bool,
    pub server: bool,
    pub card: bool,
}

impl InterestMaskSet {
    /// Whether interest `m` belongs to the set.
    pub open spec fn has(self, m: InterestMask) -> bool {
        match m {
            InterestMask::Sink => self.sink,
            InterestMask::Source => self.source,
            InterestMask::SinkInput => self.sink_input,
            InterestMask::SourceOutput => self.source_output,
            InterestMask::Module => self.module,
            InterestMask::Client => self.client,
            InterestMask::SampleCache => self.sample_cache,
            InterestMask::Server => self.server,
            InterestMask::Card => self.card,
        }
    }

    /// The set with the flag of interest `m` set to `value`, the others unchanged.
    pub open spec fn with(self, m: InterestMask, value: bool) -> InterestMaskSet {
        match m {
            InterestMask::Sink => InterestMaskSet { sink: value, ..self },
            InterestMask::Source => InterestMaskSet { source: value, ..self },
            InterestMask::SinkInput => InterestMaskSet { sink_input: value, ..self },
            InterestMask::SourceOutput => InterestMaskSet { source_output: value, ..self },
            InterestMask::Module => InterestMaskSet { module: value, ..self },
            InterestMask::Client => InterestMaskSet { client: value, ..self },
            InterestMask::SampleCache => InterestMaskSet { sample_cache: value, ..self },
            InterestMask::Server => InterestMaskSet { server: value, ..self },
            InterestMask::Card => InterestMaskSet { card: value, ..self },
        }
    }

    /// The set whose flags are given by `f`.
    pub open spec fn from_fn(f: spec_fn(InterestMask) -> bool) -> InterestMaskSet {
        InterestMaskSet {
            sink: f(InterestMask::Sink),
            source: f(InterestMask::Source),
            sink_input: f(InterestMask::SinkInput),
            source_output: f(InterestMask::SourceOutput),
            module: f(InterestMask::Module),
            client: f(InterestMask::Client),
            sample_cache: f(InterestMask::SampleCache),
            server: f(InterestMask::Server),
            card: f(InterestMask::Card),
        }
    }

    /// Setting a flag changes that interest's membership and no other.
    pub proof fn lemma_with_has(self, m: InterestMask, value: bool, x: InterestMask)
        ensures
            self.with(m, value).has(x) == if x == m {
                value
            } else {
                self.has(x)
            },
    {
    }

    /// Two sets with the same members are equal.
    pub proof fn lemma_ext_equal(self, other: InterestMaskSet)
        requires
            forall|m: InterestMask| self.has(m) == other.has(m),
        ensures
            self == other,
    {
        assert(self.has(InterestMask::Sink) == other.has(InterestMask::Sink));
        assert(self.has(InterestMask::Source) == other.has(InterestMask::Source));
        assert(self.has(InterestMask::SinkInput) == other.has(InterestMask::SinkInput));
        assert(self.has(InterestMask::SourceOutput) == other.has(InterestMask::SourceOutput));
        assert(self.has(InterestMask::Module) == other.has(InterestMask::Module));
        assert(self.has(InterestMask::Client) == other.has(InterestMask::Client));
        assert(self.has(InterestMask::SampleCache) == other.has(InterestMask::SampleCache));
        assert(self.has(InterestMask::Server) == other.has(InterestMask::Server));
        assert(self.has(InterestMask::Card) == other.has(InterestMask::Card));
    }

    /// The members of the set at positions `lo..hi` of the fixed order, in that order.
    pub open spec fn members_between(self, lo: int, hi: int) -> Seq<InterestMask>
        decreases hi - lo,
    {
        if hi <= lo {
            Seq::empty()
        } else {
            let prev = self.members_between(lo, hi - 1);
            if self.has(interest_at(hi - 1)) {
                prev.push(interest_at(hi - 1))
            } else {
                prev
            }
        }
    }

    /// The members of the set, in the fixed order.
    pub open spec fn members(self) -> Seq<InterestMask> {
        self.members_between(0, 9)
    }

    /// The members from position `lo` on are the one at `lo` (if a member) followed by those
    /// after it.
    pub proof fn lemma_members_between_front(self, lo: int, hi: int)
        requires
            lo < hi,
        ensures
            self.members_between(lo, hi) == if self.has(interest_at(lo)) {
                seq![interest_at(lo)] + self.members_between(lo + 1, hi)
            } else {
                self.members_between(lo + 1, hi)
            },
        decreases hi - lo,
    {
        if hi - 1 > lo {
            self.lemma_members_between_front(lo, hi - 1);
            if self.has(interest_at(lo)) {
                assert(seq![interest_at(lo)] + self.members_between(lo + 1, hi - 1).push(
                    interest_at(hi - 1),
                ) == (seq![interest_at(lo)] + self.members_between(lo + 1, hi - 1)).push(
                    interest_at(hi - 1),
                ));
            }
        } else {
            assert(self.members_between(lo + 1, hi) == Seq::<InterestMask>::empty());
            assert(self.members_between(lo, hi - 1) == Seq::<InterestMask>::empty());
            if self.has(interest_at(lo)) {
                assert(seq![interest_at(lo)] + Seq::<InterestMask>::empty() == seq![interest_at(lo)]);
            }
        }
    }

    /// Every member lies in the set, and every interest of the set is a member.
    pub proof fn lemma_members_between_contains(self, lo: int, hi: int, m: InterestMask)
        requires
            0 <= lo <= hi <= 9,
        ensures
            self.members_between(lo, hi).contains(m) <==> (self.has(m) && lo <= interest_index(m)
                < hi),
        decreases hi - lo,
    {
        if hi > lo {
            self.lemma_members_between_contains(lo, hi - 1, m);
            let prev = self.members_between(lo, hi - 1);
            if self.has(interest_at(hi - 1)) {
                assert(prev.push(interest_at(hi - 1)).contains(m) <==> (prev.contains(m) || m
                    == interest_at(hi - 1))) by {
                    if m == interest_at(hi - 1) {
                        assert(prev.push(interest_at(hi - 1))[prev.len() as int] == m);
                    }
                    if prev.push(interest_at(hi - 1)).contains(m) && m != interest_at(hi - 1) {
                        let k = choose|k: int|
                            0 <= k < prev.len() + 1 && #[trigger] prev.push(interest_at(hi - 1))[k]
                                == m;
                        assert(prev[k] == m);
                    }
                    if prev.contains(m) {
                        let k = choose|k: int| 0 <= k < prev.len() && #[trigger] prev[k] == m;
                        assert(prev.push(interest_at(hi - 1))[k] == m);
                    }
                }
            }
        }
    }

    /// The set holding every interest.
    pub fn all() -> (r: Self)
        ensures
            forall|m: InterestMask| r.has(m),
    {
        InterestMaskSet {
            sink: true,
            source: true,
            sink_input: true,
            source_output: true,
            module: true,
            client: true,
            sample_cache: true,
            server: true,
            card: true,
        }
    }

    /// The empty set.
    pub fn none() -> (r: Self)
        ensures
            forall|m: InterestMask| !r.has(m),
    {
        InterestMaskSet {
            sink: false,
            source: false,
            sink_input: false,
            source_output: false,
            module: false,
            client: false,
            sample_cache: false,
            server: false,
            card: false,
        }
    }

    /// Whether `interest` belongs to the set.
    pub fn contains(&self, interest: InterestMask) -> (r: bool)
        ensures
            r == self.has(interest),
    {
        match interest {
            InterestMask::Sink => self.sink,
            InterestMask::Source => self.source,
            InterestMask::SinkInput => self.sink_input,
            InterestMask::SourceOutput => self.source_output,
            InterestMask::Module => self.module,
            InterestMask::Client => self.client,
            InterestMask::SampleCache => self.sample_cache,
            InterestMask::Server => self.server,
            InterestMask::Card => self.card,
        }
    }
}

impl InterestMaskSet {
    /// The members of a set are exactly its interests, each once, in the fixed order.
    pub proof fn lemma_members(self)
        ensures
            forall|m: InterestMask| #[trigger] self.members().contains(m) <==> self.has(m),
            forall|i: int, j: int|
                0 <= i < j < self.members().len() ==> interest_index(#[trigger] self.members()[i])
                    < interest_index(#[trigger] self.members()[j]),
    {
        assert forall|m: InterestMask| #[trigger] self.members().contains(m) <==> self.has(m) by {
            self.lemma_members_between_contains(0, 9, m);
            lemma_interest_index(m);
        }
        self.lemma_members_between_sorted(0, 9);
    }

    /// Round trip: adding the members of a set (as [`InterestMaskSet::iter`] and
    /// [`InterestMaskSet::to_vec`] yield them) to an empty set gives back that set.
    pub proof fn lemma_rebuild_from_members(self, before: InterestMaskSet, after: InterestMaskSet)
        requires
            forall|m: InterestMask| !before.has(m),
            forall|m: InterestMask| #[trigger] after.has(m) == (before.has(m) || self.members().contains(m)),
        ensures
            after == self,
    {
        self.lemma_members();
        assert forall|m: InterestMask| after.has(m) == self.has(m) by {
            assert(after.has(m) == (before.has(m) || self.members().contains(m)));
        }
        after.lemma_ext_equal(self);
    }

    proof fn lemma_members_between_sorted(self, lo: int, hi: int)
        requires
            0 <= lo <= hi <= 9,
        ensures
            forall|i: int|
                0 <= i < self.members_between(lo, hi).len() ==> lo <= interest_index(
                    #[trigger] self.members_between(lo, hi)[i],
                ) < hi,
            forall|i: int, j: int|
                0 <= i < j < self.members_between(lo, hi).len() ==> interest_index(
                    #[trigger] self.members_between(lo, hi)[i],
                ) < interest_index(#[trigger] self.members_between(lo, hi)[j]),
        decreases hi - lo,
    {
        if hi > lo {
            self.lemma_members_between_sorted(lo, hi - 1);
            let prev = self.members_between(lo, hi - 1);
            let cur = self.members_between(lo, hi);
            assert(interest_index(interest_at(hi - 1)) == hi - 1);
            assert forall|i: int| 0 <= i < cur.len() implies lo <= interest_index(#[trigger] cur[i]) < hi by {
                if i < prev.len() {
                    assert(cur[i] == prev[i]);
                }
            }
            assert forall|i: int, j: int|
                0 <= i < j < cur.len() implies interest_index(#[trigger] cur[i]) < interest_index(
                    #[trigger] cur[j],
                ) by {
                assert(cur[i] == prev[i]);
                if j < prev.len() {
                    assert(cur[j] == prev[j]);
                }
            }
        }
    }
}

impl Default for InterestMaskSet {
    /// The empty set.
    fn default() -> (r: Self)
        ensures
            forall|m: InterestMask| !r.has(m),
    {
        InterestMaskSet::none()
    }
}

impl InterestMaskSet {
    /// An iterator over the members of the set, in the fixed order.
    pub fn iter(&self) -> (r: InterestMaskSetIter)
        ensures
            r.wf(),
            r.positions_left() == 9,
            r.remaining() == self.members(),
    {
        InterestMaskSetIter { set: *self, index: 0 }
    }

    /// The members of the set, in the fixed order.
    pub fn to_vec(&self) -> (r: Vec<InterestMask>)
        ensures
            r@ == self.members(),
    {
        let mut out: Vec<InterestMask> = Vec::new();
        let mut i: usize = 0;
        while i < 9
            invariant
                i <= 9,
                out@ == self.members_between(0, i as int),
            decreases 9 - i,
        {
            let m = InterestMask::at(i);
            if self.contains(m) {
                out.push(m);
            }
            i = i + 1;
        }
        out
    }
}

/// Iterator over the members of an [`InterestMaskSet`], in the fixed order.
#[derive(Debug, Clone, Copy)]
pub struct InterestMaskSetIter {
    set: InterestMaskSet,
    index: usize,
}

impl InterestMaskSetIter {
    /// The members not yet yielded, in order.
    pub closed spec fn remaining(&self) -> Seq<InterestMask> {
        self.set.members_between(self.index as int, 9)
    }

    /// Number of positions of the fixed order not yet visited.
    pub closed spec fn positions_left(&self) -> nat {
        (9 - self.index) as nat
    }

    /// Internal consistency: the position never passes the end of the fixed order.
    pub closed spec fn wf(&self) -> bool {
        self.index <= 9
    }

    /// Yields the next member, or `None` once every member has been yielded.
    pub fn next(&mut self) -> (r: Option<InterestMask>)
        requires
            old(self).wf(),
        ensures
            final(self).wf(),
            old(self).remaining().len() > 0 ==> r == Some(old(self).remaining()[0])
                && final(self).remaining() == old(self).remaining().drop_first(),
            old(self).remaining().len() == 0 ==> r is None && final(self).remaining().len() == 0,
            final(self).positions_left() <= old(self).positions_left(),
            final(self).remaining().len() <= final(self).positions_left(),
            r matches Some(m) ==> final(self).positions_left() == 8 - interest_index(m),
            r is None ==> final(self).positions_left() == 0,
    {
        let ghost start = self.remaining();
        while self.index < 9
            invariant
                self.index <= 9,
                old(self).index <= self.index,
                self.set == old(self).set,
                self.set.members_between(self.index as int, 9) == start,
                start == old(self).remaining(),
            decreases 9 - self.index,
        {
            let m = InterestMask::at(self.index);
            proof {
                self.set.lemma_members_between_front(self.index as int, 9);
            }
            self.index = self.index + 1;
            if self.set.contains(m) {
                proof {
                    assert((seq![m] + self.set.members_between(self.index as int, 9)).drop_first()
                        == self.set.members_between(self.index as int, 9));
                    self.lemma_remaining_bound();
                }
                return Some(m);
            }
        }
        assert(self.set.members_between(9, 9) == Seq::<InterestMask>::empty());
        None
    }

    proof fn lemma_remaining_bound(&self)
        requires
            self.index <= 9,
        ensures
            self.remaining().len() <= self.positions_left(),
    {
        lemma_members_between_len(self.set, self.index as int, 9);
    }

    /// A lower and an upper bound on the number of members left: zero, and the number of
    /// positions of the fixed order not yet visited.
    pub fn size_hint(&self) -> (r: (usize, Option<usize>))
        requires
            self.wf(),
        ensures
            r.0 == 0,
            r.1 == Some(self.positions_left() as usize),
            self.remaining().len() <= self.positions_left(),
    {
        proof {
            self.lemma_remaining_bound();
        }
        (0, Some(9 - self.index))
    }
}

proof fn lemma_members_between_len(set: InterestMaskSet, lo: int, hi: int)
    requires
        lo <= hi,
    ensures
        set.members_between(lo, hi).len() <= hi - lo,
    decreases hi - lo,
{
    if hi > lo {
        lemma_members_between_len(set, lo, hi - 1);
    }
}

/// Accumulates an [`InterestMaskSet`] one interest at a time.
#[derive(Debug, Copy, Clone)]
pub struct InterestMaskSetBuilder {
    inner: InterestMaskSet,
}

impl InterestMaskSetBuilder {
    /// The set built so far.
    pub closed spec fn current(self) -> InterestMaskSet {
        self.inner
    }

    /// A builder starting from the empty set.
    pub fn new() -> (r: Self)
        ensures
            forall|m: InterestMask| !r.current().has(m),
    {
        InterestMaskSetBuilder { inner: InterestMaskSet::none() }
    }

    /// Adds `interest`.
    pub fn set(self, interest: InterestMask) -> (r: Self)
        ensures
            r.current() == self.current().with(interest, true),
    {
        let mut inner = self.inner;
        match interest {
            InterestMask::Sink => inner.sink = true,
            InterestMask::Source => inner.source = true,
            InterestMask::SinkInput => inner.sink_input = true,
            InterestMask::SourceOutput => inner.source_output = true,
            InterestMask::Module => inner.module = true,
            InterestMask::Client => inner.client = true,
            InterestMask::SampleCache => inner.sample_cache = true,
            InterestMask::Server => inner.server = true,
            InterestMask::Card => inner.card = true,
        }
        InterestMaskSetBuilder { inner }
    }

    /// Removes `interest`.
    pub fn unset(self, interest: InterestMask) -> (r: Self)
        ensures
            r.current() == self.current().with(interest, false),
    {
        let mut inner = self.inner;
        match interest {
            InterestMask::Sink => inner.sink = false,
            InterestMask::Source => inner.source = false,
            InterestMask::SinkInput => inner.sink_input = false,
            InterestMask::SourceOutput => inner.source_output = false,
            InterestMask::Module => inner.module = false,
            InterestMask::Client => inner.client = false,
            InterestMask::SampleCache => inner.sample_cache = false,
            InterestMask::Server => inner.server = false,
            InterestMask::Card => inner.card = false,
        }
        InterestMaskSetBuilder { inner }
    }

    /// Adds every interest of `interests`.
    pub fn set_all(self, interests: &[InterestMask]) -> (r: Self)
        ensures
            forall|m: InterestMask|
                #[trigger] r.current().has(m) == (self.current().has(m) || interests@.contains(m)),
    {
        let mut b = self;
        let mut i: usize = 0;
        while i < interests.len()
            invariant
                i <= interests@.len(),
                forall|m: InterestMask|
                    #[trigger] b.current().has(m) == (self.current().has(m)
                        || interests@.take(i as int).contains(m)),
            decreases interests@.len() - i,
        {
            let m = interests[i];
            let ghost b0 = b;
            b = b.set(m);
            proof {
                assert(interests@.take(i + 1) == interests@.take(i as int).push(m));
                assert forall|x: InterestMask| #[trigger] b.current().has(x) == (self.current().has(x)
                    || interests@.take(i + 1).contains(x)) by {
                    b0.current().lemma_with_has(m, true, x);
                    assert(b0.current().has(x) == (self.current().has(x) || interests@.take(
                        i as int,
                    ).contains(x)));
                    if interests@.take(i + 1).contains(x) && x != m {
                        let k = choose|k: int|
                            0 <= k < i + 1 && #[trigger] interests@.take(i + 1)[k] == x;
                        assert(interests@.take(i as int)[k] == x);
                    }
                    if interests@.take(i as int).contains(x) {
                        let k = choose|k: int|
                            0 <= k < i && #[trigger] interests@.take(i as int)[k] == x;
                        assert(interests@.take(i + 1)[k] == x);
                    }
                    if x == m {
                        assert(interests@.take(i + 1)[i as int] == x);
                    }
                }
            }
            i = i + 1;
        }
        assert(interests@.take(interests@.len() as int) == interests@);
        b
    }

    /// Removes every interest of `interests`.
    pub fn unset_all(self, interests: &[InterestMask]) -> (r: Self)
        ensures
            forall|m: InterestMask|
                #[trigger] r.current().has(m) == (self.current().has(m) && !interests@.contains(m)),
    {
        let mut b = self;
        let mut i: usize = 0;
        while i < interests.len()
            invariant
                i <= interests@.len(),
                forall|m: InterestMask|
                    #[trigger] b.current().has(m) == (self.current().has(m)
                        && !interests@.take(i as int).contains(m)),
            decreases interests@.len() - i,
        {
            let m = interests[i];
            let ghost b0 = b;
            b = b.unset(m);
            proof {
                assert forall|x: InterestMask| #[trigger] b.current().has(x) == (self.current().has(x)
                    && !interests@.take(i + 1).contains(x)) by {
                    b0.current().lemma_with_has(m, false, x);
                    assert(b0.current().has(x) == (self.current().has(x) && !interests@.take(
                        i as int,
                    ).contains(x)));
                    if interests@.take(i + 1).contains(x) && x != m {
                        let k = choose|k: int|
                            0 <= k < i + 1 && #[trigger] interests@.take(i + 1)[k] == x;
                        assert(interests@.take(i as int)[k] == x);
                    }
                    if interests@.take(i as int).contains(x) {
                        let k = choose|k: int|
                            0 <= k < i && #[trigger] interests@.take(i as int)[k] == x;
                        assert(interests@.take(i + 1)[k] == x);
                    }
                    if x == m {
                        assert(interests@.take(i + 1)[i as int] == x);
                    }
                }
            }
            i = i + 1;
        }
        assert(interests@.take(interests@.len() as int) == interests@);
        b
    }

    /// The set built so far.
    pub fn build(self) -> (r: InterestMaskSet)
        ensures
            r == self.current(),
    {
        self.inner
    }
}

impl Default for InterestMaskSetBuilder {
    /// A builder starting from the empty set.
    fn default() -> (r: Self)
        ensures
            forall|m: InterestMask| !r.current().has(m),
    {
        InterestMaskSetBuilder::new()
    }
}

impl From<InterestMaskSet> for InterestMaskSetBuilder {
    /// A builder starting from `set`.
    fn from(set: InterestMaskSet) -> (r: Self) {
        InterestMaskSetBuilder { inner: set }
    }
}

impl vstd::std_specs::convert::FromSpecImpl<InterestMaskSet> for InterestMaskSetBuilder {
    open spec fn obeys_from_spec() -> bool {
        true
    }

    closed spec fn from_spec(set: InterestMaskSet) -> Self {
        InterestMaskSetBuilder { inner: set }
    }
}

impl core::ops::BitOr for InterestMask {
    type Output = InterestMaskSet;

    /// The set holding both interests.
    fn bitor(self, rhs: Self) -> (r: InterestMaskSet) {
        let b0 = InterestMaskSetBuilder::new();
        let b1 = b0.set(self);
        let r = b1.set(rhs).build();
        proof {
            let expected = InterestMaskSet::from_fn(|m: InterestMask| m == self || m == rhs);
            assert forall|m: InterestMask| r.has(m) == expected.has(m) by {
                b0.current().lemma_with_has(self, true, m);
                b1.current().lemma_with_has(rhs, true, m);
            }
            r.lemma_ext_equal(expected);
        }
        r
    }
}

impl vstd::std_specs::ops::BitOrSpecImpl for InterestMask {
    open spec fn obeys_bitor_spec() -> bool {
        true
    }

    open spec fn bitor_req(self, rhs: Self) -> bool {
        true
    }

    open spec fn bitor_spec(self, rhs: Self) -> InterestMaskSet {
        InterestMaskSet::from_fn(|m: InterestMask| m == self || m == rhs)
    }
}

impl core::ops::BitOr<InterestMask> for InterestMaskSet {
    type Output = InterestMaskSet;

    /// The set with `rhs` added.
    fn bitor(self, rhs: InterestMask) -> (r: InterestMaskSet) {
        InterestMaskSetBuilder::from(self).set(rhs).build()
    }
}

impl vstd::std_specs::ops::BitOrSpecImpl<InterestMask> for InterestMaskSet {
    open spec fn obeys_bitor_spec() -> bool {
        true
    }

    open spec fn bitor_req(self, rhs: InterestMask) -> bool {
        true
    }

    open spec fn bitor_spec(self, rhs: InterestMask) -> InterestMaskSet {
        self.with(rhs, true)
    }
}

/// The facility of the sound server that an event concerns.
#[derive(Debug, Copy, Clone, PartialEq, Eq, Structural, Hash)]
pub enum Facility {
    Sink,
    Source,
    SinkInput,
    SourceOutput,
    Module,
    Client,
    SampleCache,
    Server,
    Card,
}

/// The interest that covers events of a facility.
pub open spec fn facility_interest(f: Facility) -> InterestMask {
    match f {
        Facility::Sink => InterestMask::Sink,
        Facility::Source => InterestMask::Source,
        Facility::SinkInput => InterestMask::SinkInput,
        Facility::SourceOutput => InterestMask::SourceOutput,
        Facility::Module => InterestMask::Module,
        Facility::Client => InterestMask::Client,
        Facility::SampleCache => InterestMask::SampleCache,
        Facility::Server => InterestMask::Server,
        Facility::Card => InterestMask::Card,
    }
}

impl Facility {
    /// The interest that covers events of this facility.
    pub fn interest(self) -> (r: InterestMask)
        ensures
            r == facility_interest(self),
    {
        match self {
            Facility::Sink => InterestMask::Sink,
            Facility::Source => InterestMask::Source,
            Facility::SinkInput => InterestMask::SinkInput,
            Facility::SourceOutput => InterestMask::SourceOutput,
            Facility::Module => InterestMask::Module,
            Facility::Client => InterestMask::Client,
            Facility::SampleCache => InterestMask::SampleCache,
            Facility::Server => InterestMask::Server,
            Facility::Card => InterestMask::Card,
        }
    }
}

/// What happened to the object an event concerns.
#[derive(Debug, Copy, Clone, PartialEq, Eq, Structural, Hash)]
pub enum Operation {
    New,
    Changed,
    Removed,
}

/// A change notification from the sound server.
#[derive(Debug, Copy, Clone, PartialEq, Eq, Structural)]
pub struct SubscriptionEvent {
    /// The facility of the object that changed.
    pub facility: Facility,
    /// What happened to it.
    pub operation: Operation,
    /// The index of the object that changed.
    pub index: u32,
}

} // verus!
