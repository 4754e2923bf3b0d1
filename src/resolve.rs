//! The search for an available version of a track: the track itself, then
//! its alternatives one at a time in the order listed.
//!
//! Fetching metadata is the caller's work; the resolver decides, from what
//! each fetch reported, what to fetch next and when the search is over.
use vstd::prelude::*;
use crate::extract::TrackRef;

verus! {

/// What the caller does next while a track is being resolved.
#[derive(Clone, Copy, Debug, PartialEq, Eq, Structural)]
pub enum ResolveStep {
    /// Fetch the metadata of this track and report it.
    Fetch(TrackRef),
    /// The metadata last reported is the track to retrieve.
    Accept,
    /// Neither the track nor any of its alternatives is available.
    Fail,
}

/// The state of one search.
pub struct Resolver {
    requested: TrackRef,
    alternatives: Vec<TrackRef>,
    next: usize,
    walking: bool,
}

/// A search as a value: the track asked for, the alternatives that its
/// metadata listed, how many of them were handed out to fetch, and whether
/// the walk through them has begun.
pub ghost struct ResolverModel {
    pub requested: TrackRef,
    pub alternatives: Seq<TrackRef>,
    pub next: nat,
    pub walking: bool,
}

impl View for Resolver {
    type V = ResolverModel;

    closed spec fn view(&self) -> ResolverModel {
        ResolverModel {
            requested: self.requested,
            alternatives: self.alternatives@,
            next: self.next as nat,
            walking: self.walking,
        }
    }
}

/// The state in which a search for `requested` starts.
pub open spec fn initial(requested: TrackRef) -> ResolverModel {
    ResolverModel { requested, alternatives: Seq::empty(), next: 0, walking: false }
}

/// Hands out the next alternative not yet fetched, or ends the search.
pub open spec fn probe(m: ResolverModel) -> (ResolverModel, ResolveStep) {
    if m.next < m.alternatives.len() {
        (ResolverModel { next: m.next + 1, ..m }, ResolveStep::Fetch(m.alternatives[m.next as int]))
    } else {
        (m, ResolveStep::Fail)
    }
}

/// The next state and step once a fetch reported `available` and the list
/// `alternatives`: an available track is taken; after the track asked for is
/// found unavailable its own alternatives are walked, and the alternatives
/// listed by an alternative are not.
pub open spec fn on_metadata_spec(m: ResolverModel, available: bool, alternatives: Seq<TrackRef>) -> (
    ResolverModel,
    ResolveStep,
) {
    if available {
        (m, ResolveStep::Accept)
    } else if !m.walking {
        probe(ResolverModel { alternatives, next: 0, walking: true, ..m })
    } else {
        probe(m)
    }
}

/// The steps that a search takes from `m` when the fetches it asks for report
/// the availabilities `answers` in turn, each listing `alternatives`.
pub open spec fn run(m: ResolverModel, answers: Seq<bool>, alternatives: Seq<TrackRef>) -> Seq<
    ResolveStep,
>
    decreases answers.len(),
{
    if answers.len() == 0 {
        Seq::empty()
    } else {
        let (m2, s) = on_metadata_spec(m, answers[0], alternatives);
        if s is Fetch {
            seq![s] + run(m2, answers.drop_first(), alternatives)
        } else {
            seq![s]
        }
    }
}

/// A linear search through `alts`, whose availabilities are `avail`: each is
/// fetched in turn, the first available one is taken, and the search fails
/// when none is.
pub open spec fn linear_walk(alts: Seq<TrackRef>, avail: Seq<bool>) -> Seq<ResolveStep>
    decreases alts.len(),
{
    if alts.len() == 0 {
        seq![ResolveStep::Fail]
    } else if avail[0] {
        seq![ResolveStep::Fetch(alts[0]), ResolveStep::Accept]
    } else {
        seq![ResolveStep::Fetch(alts[0])] + linear_walk(alts.drop_first(), avail.drop_first())
    }
}

impl Resolver {
    pub closed spec fn wf(&self) -> bool {
        &&& self.next <= self.alternatives@.len()
        &&& !self.walking ==> self.next == 0 && self.alternatives@.len() == 0
    }

    /// A search for `requested`.
    pub fn new(requested: TrackRef) -> (r: Resolver)
        ensures
            r@ == initial(requested),
            r.wf(),
    {
        Resolver { requested, alternatives: Vec::new(), next: 0, walking: false }
    }

    /// The first step of the search: fetch the track asked for.
    pub fn start(&self) -> (r: ResolveStep)
        ensures
            r == ResolveStep::Fetch(self@.requested),
    {
        ResolveStep::Fetch(self.requested)
    }

    /// Whether the search has turned to the alternatives, so that a track it
    /// accepts stands in for the one asked for.
    pub fn substituted(&self) -> (r: bool)
        ensures
            r == self@.walking,
    {
        self.walking
    }

    /// Takes the report of the fetch last asked for and says what to do next.
    pub fn on_metadata(&mut self, available: bool, alternatives: &Vec<TrackRef>) -> (r: ResolveStep)
        requires
            old(self).wf(),
        ensures
            final(self).wf(),
            (final(self)@, r) == on_metadata_spec(old(self)@, available, alternatives@),
    {
        if available {
            return ResolveStep::Accept;
        }
        if !self.walking {
            self.alternatives = alternatives.clone();
            self.next = 0;
            self.walking = true;
        }
        if self.next < self.alternatives.len() {
            let t = self.alternatives[self.next];
            self.next = self.next + 1;
            ResolveStep::Fetch(t)
        } else {
            ResolveStep::Fail
        }
    }
}

proof fn lemma_walk_from(m: ResolverModel, avail: Seq<bool>, n: nat, listed: Seq<TrackRef>)
    requires
        m.walking,
        avail.len() == m.alternatives.len(),
        n < m.alternatives.len(),
        m.next == n + 1,
    ensures
        seq![ResolveStep::Fetch(m.alternatives[n as int])] + run(
            m,
            avail.subrange(n as int, avail.len() as int),
            listed,
        ) == linear_walk(
            m.alternatives.subrange(n as int, m.alternatives.len() as int),
            avail.subrange(n as int, avail.len() as int),
        ),
    decreases m.alternatives.len() - n,
{
    let alts = m.alternatives;
    let len = alts.len() as int;
    let rest_alts = alts.subrange(n as int, len);
    let rest_avail = avail.subrange(n as int, len);
    assert(rest_alts.drop_first() =~= alts.subrange((n + 1) as int, len));
    assert(rest_avail.drop_first() =~= avail.subrange((n + 1) as int, len));
    let head = seq![ResolveStep::Fetch(alts[n as int])];
    assert(rest_avail[0] == avail[n as int]);
    assert(rest_alts[0] == alts[n as int]);
    if avail[n as int] {
        assert(run(m, rest_avail, listed) == seq![ResolveStep::Accept]);
        assert(linear_walk(rest_alts, rest_avail) == seq![
            ResolveStep::Fetch(alts[n as int]),
            ResolveStep::Accept,
        ]);
        assert(head + seq![ResolveStep::Accept] =~= seq![
            ResolveStep::Fetch(alts[n as int]),
            ResolveStep::Accept,
        ]);
    } else if n + 1 < len {
        let m2 = ResolverModel { next: m.next + 1, ..m };
        lemma_walk_from(m2, avail, n + 1, listed);
        let tail = run(m2, rest_avail.drop_first(), listed);
        assert(run(m, rest_avail, listed) == seq![ResolveStep::Fetch(alts[(n + 1) as int])] + tail);
        assert(head + (seq![ResolveStep::Fetch(alts[(n + 1) as int])] + tail) =~= head + seq![
            ResolveStep::Fetch(alts[(n + 1) as int]),
        ] + tail);
        assert(linear_walk(rest_alts, rest_avail) == head + linear_walk(
            rest_alts.drop_first(),
            rest_avail.drop_first(),
        ));
    } else {
        assert(rest_alts.drop_first() =~= Seq::<TrackRef>::empty());
        assert(run(m, rest_avail, listed) == seq![ResolveStep::Fail]);
        assert(linear_walk(rest_alts.drop_first(), rest_avail.drop_first()) == seq![
            ResolveStep::Fail,
        ]);
        assert(linear_walk(rest_alts, rest_avail) == head + seq![ResolveStep::Fail]);
    }
}

/// When the track asked for is unavailable, its alternatives are fetched one
/// at a time in the order listed; the first available one is taken, and the
/// search fails when none is. `avail` holds the availability of each
/// alternative, which is what the fetch of that alternative reports.
pub proof fn lemma_alternatives_in_order(
    requested: TrackRef,
    alts: Seq<TrackRef>,
    avail: Seq<bool>,
)
    requires
        avail.len() == alts.len(),
    ensures
        run(initial(requested), seq![false] + avail, alts) == linear_walk(alts, avail),
        run(initial(requested), seq![false] + avail, alts).last() == ResolveStep::Accept <==> exists|i: int| 0 <= i < avail.len() && avail[i],
{
    let answers = seq![false] + avail;
    assert(answers.drop_first() =~= avail);
    if alts.len() > 0 {
        let m1 = ResolverModel { alternatives: alts, next: 1, walking: true, ..initial(requested) };
        lemma_walk_from(m1, avail, 0, alts);
        assert(alts.subrange(0, alts.len() as int) =~= alts);
        assert(avail.subrange(0, avail.len() as int) =~= avail);
    }
    lemma_walk_accepts(alts, avail);
}

proof fn lemma_walk_accepts(alts: Seq<TrackRef>, avail: Seq<bool>)
    requires
        avail.len() == alts.len(),
    ensures
        linear_walk(alts, avail).last() == ResolveStep::Accept <==> exists|i: int| 0 <= i < avail.len() && avail[i],
    decreases alts.len(),
{
    if alts.len() > 0 && !avail[0] {
        lemma_walk_accepts(alts.drop_first(), avail.drop_first());
        if exists|i: int| 0 <= i < avail.len() && avail[i] {
            let i = choose|i: int| 0 <= i < avail.len() && avail[i];
            assert(avail.drop_first()[i - 1]);
        }
        if exists|i: int| 0 <= i < avail.len() - 1 && avail.drop_first()[i] {
            let i = choose|i: int| 0 <= i < avail.len() - 1 && avail.drop_first()[i];
            assert(avail[i + 1]);
        }
    }
}

/// A track found available at once is taken without fetching anything else.
pub proof fn lemma_available_taken(requested: TrackRef, alts: Seq<TrackRef>)
    ensures
        run(initial(requested), seq![true], alts) == seq![ResolveStep::Accept],
{
}

} // verus!
