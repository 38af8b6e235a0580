use vstd::prelude::*;

verus! {

/// The result of a race whose branches finished in the order of `s`: the
/// first success, or, where every branch failed, the last failure.
pub open spec fn race_of<E>(s: Seq<Result<String, E>>) -> Result<String, E>
    recommends
        s.len() > 0,
    decreases s.len(),
{
    if s.len() <= 1 || s[0] is Ok {
        s[0]
    } else {
        race_of(s.drop_first())
    }
}

/// Whether every outcome of `s` is a failure.
pub open spec fn all_failed<E>(s: Seq<Result<String, E>>) -> bool {
    forall|i: int| 0 <= i < s.len() ==> (#[trigger] s[i]) is Err
}

/// After any number of failures, the next outcome decides the race so far.
pub proof fn lemma_race_after_failures<E>(s: Seq<Result<String, E>>, x: Result<String, E>)
    requires
        all_failed(s),
    ensures
        race_of(s.push(x)) == x,
    decreases s.len(),
{
    if s.len() > 0 {
        assert(s.push(x).drop_first() =~= s.drop_first().push(x));
        lemma_race_after_failures(s.drop_first(), x);
    }
}

/// A success is never overridden: when the branch that finishes `i`-th is the
/// first to succeed, the race yields its result, whatever the branches that
/// finish after it return.
pub proof fn lemma_first_success_wins<E>(s: Seq<Result<String, E>>, i: int)
    requires
        0 <= i < s.len(),
        s[i] is Ok,
        all_failed(s.take(i)),
    ensures
        race_of(s) == s[i],
    decreases i,
{
    if i > 0 {
        assert(s.drop_first().take(i - 1) =~= s.take(i).drop_first());
        assert(s.take(i)[0] == s[0]);
        lemma_first_success_wins(s.drop_first(), i - 1);
    }
}

/// A race succeeds exactly when one of its branches succeeds, and then with
/// the result of one of them.
pub proof fn lemma_race_succeeds_iff<E>(s: Seq<Result<String, E>>)
    requires
        s.len() > 0,
    ensures
        race_of(s) is Ok <==> exists|i: int| 0 <= i < s.len() && (#[trigger] s[i]) is Ok,
        race_of(s) is Ok ==> exists|i: int| 0 <= i < s.len() && #[trigger] s[i] == race_of(s),
    decreases s.len(),
{
    if s.len() > 1 && s[0] is Err {
        lemma_race_succeeds_iff(s.drop_first());
        if exists|i: int| 0 <= i < s.len() && (#[trigger] s[i]) is Ok {
            let i = choose|i: int| 0 <= i < s.len() && (#[trigger] s[i]) is Ok;
            assert(s.drop_first()[i - 1] is Ok);
        }
        if race_of(s) is Ok {
            let i = choose|i: int| 0 <= i < s.len() - 1 && #[trigger] s.drop_first()[i] == race_of(s);
            assert(s[i + 1] == race_of(s));
        }
    }
}

/// What a race does with the outcome of a branch.
pub enum RaceStep<E> {
    /// The race goes on: other branches are still running.
    Waiting,
    /// The branch succeeded: the race is won with this path, and the branches
    /// still running are abandoned.
    Won(String),
    /// Every branch has failed: the race is lost with this last failure.
    Lost(E),
    /// The race was already settled: the outcome is dropped.
    Ignored,
}

/// A first-success race over a fixed number of branches, fed the outcome of
/// each branch as it finishes.
pub struct Race<E> {
    pending: usize,
    settled: bool,
    outcomes: Ghost<Seq<Result<String, E>>>,
}

impl<E> Race<E> {
    /// The number of branches that have not finished.
    pub closed spec fn pending_spec(&self) -> nat {
        self.pending as nat
    }

    /// Whether the race has been won or lost.
    pub closed spec fn settled(&self) -> bool {
        self.settled
    }

    /// The outcomes taken into account so far, in the order they came.
    pub closed spec fn outcomes(&self) -> Seq<Result<String, E>> {
        self.outcomes@
    }

    /// An unsettled race has seen failures only.
    pub closed spec fn wf(&self) -> bool {
        !self.settled ==> all_failed(self.outcomes@)
    }

    /// A race over `branches` branches, none of which has finished.
    pub fn new(branches: usize) -> (r: Self)
        ensures
            r.wf(),
            r.pending_spec() == branches,
            !r.settled(),
            r.outcomes() == Seq::<Result<String, E>>::empty(),
    {
        Race { pending: branches, settled: false, outcomes: Ghost(Seq::empty()) }
    }

    /// The number of branches that have not finished.
    pub fn pending(&self) -> (r: usize)
        ensures
            r == self.pending_spec(),
    {
        self.pending
    }

    /// Whether the race has been won or lost.
    pub fn is_settled(&self) -> (r: bool)
        ensures
            r == self.settled(),
    {
        self.settled
    }

    /// Takes the outcome of a branch that has finished. The first success wins;
    /// when the last branch fails, its failure is the race's. Once the race is
    /// settled, or when no branch is pending, outcomes are dropped.
    pub fn on_branch_done(&mut self, outcome: Result<String, E>) -> (r: RaceStep<E>)
        requires
            old(self).wf(),
        ensures
            final(self).wf(),
            old(self).settled() || old(self).pending_spec() == 0 ==> {
                &&& r is Ignored
                &&& final(self).settled() == old(self).settled()
                &&& final(self).pending_spec() == old(self).pending_spec()
                &&& final(self).outcomes() == old(self).outcomes()
            },
            !old(self).settled() && old(self).pending_spec() > 0 ==> {
                &&& final(self).outcomes() == old(self).outcomes().push(outcome)
                &&& final(self).pending_spec() == old(self).pending_spec() - 1
                &&& outcome is Ok ==> r == RaceStep::<E>::Won(outcome->Ok_0)
                &&& outcome is Err && old(self).pending_spec() == 1 ==> r == RaceStep::Lost(outcome->Err_0)
                &&& outcome is Err && old(self).pending_spec() > 1 ==> r is Waiting
                &&& final(self).settled() == !(r is Waiting)
            },
            r is Won ==> final(self).settled() && race_of(final(self).outcomes()) == Ok::<String, E>(r->Won_0),
            r is Lost ==> final(self).settled() && race_of(final(self).outcomes()) == Err::<String, E>(r->Lost_0),
    {
        if self.settled || self.pending == 0 {
            return RaceStep::Ignored;
        }
        proof {
            lemma_race_after_failures(self.outcomes@, outcome);
        }
        self.outcomes = Ghost(self.outcomes@.push(outcome));
        self.pending = self.pending - 1;
        match outcome {
            Ok(p) => {
                self.settled = true;
                RaceStep::Won(p)
            },
            Err(e) => {
                if self.pending == 0 {
                    self.settled = true;
                    RaceStep::Lost(e)
                } else {
                    proof {
                        assert(all_failed(self.outcomes@));
                    }
                    RaceStep::Waiting
                }
            },
        }
    }
}

} // verus!
