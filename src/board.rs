//! The shared state of a run: the queue of pending URLs, the URLs in flight and the
//! collected records, with the invariant that every input URL is in exactly one place.

use vstd::prelude::*;
use vstd::seq_lib::group_to_multiset_ensures;

use crate::status::{StatusView, WebsiteStatus};

verus! {

/// The character sequences of a sequence of strings.
pub open spec fn texts(v: Seq<String>) -> Seq<Seq<char>> {
    v.map_values(|s: String| s@)
}

/// The views of a sequence of records.
pub open spec fn views(v: Seq<WebsiteStatus>) -> Seq<StatusView> {
    v.map_values(|r: WebsiteStatus| r@)
}

/// The URLs of a sequence of record views.
pub open spec fn urls_of(v: Seq<StatusView>) -> Seq<Seq<char>> {
    v.map_values(|r: StatusView| r.url)
}

/// The (url, outcome) pairs of a sequence of record views.
pub open spec fn pairs_of(v: Seq<StatusView>) -> Seq<(Seq<char>, Result<u16, Seq<char>>)> {
    v.map_values(|r: StatusView| (r.url, r.action_status))
}

/// The shared state of one run: URLs not yet handed out, URLs handed out and not yet
/// reported, and the finished records in the order they were reported.
///
/// Every URL of the input is in exactly one of the three places, counted with multiplicity.
pub struct WorkBoard {
    pending: Vec<String>,
    in_flight: Vec<String>,
    done: Vec<WebsiteStatus>,
    input: Ghost<Seq<Seq<char>>>,
}

impl WorkBoard {
    /// The URLs the run was started with.
    pub closed spec fn input_view(&self) -> Seq<Seq<char>> {
        self.input@
    }

    /// The URLs not handed out yet.
    pub closed spec fn pending_view(&self) -> Seq<Seq<char>> {
        texts(self.pending@)
    }

    /// The URLs handed out whose record has not come back yet.
    pub closed spec fn in_flight_view(&self) -> Seq<Seq<char>> {
        texts(self.in_flight@)
    }

    /// The finished records, in the order they came back.
    pub closed spec fn results_view(&self) -> Seq<StatusView> {
        views(self.done@)
    }

    /// Every input URL is pending, in flight or done, as many times as it was given.
    pub closed spec fn wf(&self) -> bool {
        self.pending_view().to_multiset().add(self.in_flight_view().to_multiset()).add(
            urls_of(self.results_view()).to_multiset(),
        ) == self.input@.to_multiset()
    }

    /// The run is over: nothing is pending and nothing is in flight.
    pub open spec fn finished_spec(&self) -> bool {
        self.pending_view().len() == 0 && self.in_flight_view().len() == 0
    }

    /// How many steps are left before the run is over: each pending URL is still to be
    /// handed out and reported, each URL in flight still to be reported. Every successful
    /// `take` and accepted `complete` lowers it, so a run of `K` URLs is over after `2 * K` of them.
    pub open spec fn remaining_steps(&self) -> nat {
        2 * self.pending_view().len() + self.in_flight_view().len()
    }

    /// A board holding all of `urls` as pending work.
    pub fn new(urls: Vec<String>) -> (r: Self)
        ensures
            r.wf(),
            r.input_view() == texts(urls@),
            r.pending_view() == texts(urls@),
            r.in_flight_view().len() == 0,
            r.results_view().len() == 0,
            r.remaining_steps() == 2 * urls.len(),
    {
        let ghost input = texts(urls@);
        let r = WorkBoard { pending: urls, in_flight: Vec::new(), done: Vec::new(), input: Ghost(input) };
        proof {
            broadcast use group_to_multiset_ensures, vstd::multiset::lemma_multiset_empty_len;
            assert(r.in_flight_view() =~= Seq::<Seq<char>>::empty());
            assert(urls_of(r.results_view()) =~= Seq::<Seq<char>>::empty());
            let e1 = r.in_flight_view().to_multiset();
            let e2 = urls_of(r.results_view()).to_multiset();
            assert(e1.len() == 0);
            assert(e2.len() == 0);
            assert(r.pending_view().to_multiset().add(e1).add(e2) =~= input.to_multiset());
            assert(r.wf());
        }
        r
    }

    /// Hands out one pending URL, which is then in flight; `None` once nothing is pending,
    /// and then the board is unchanged.
    pub fn take(&mut self) -> (r: Option<String>)
        requires
            old(self).wf(),
        ensures
            final(self).wf(),
            final(self).input_view() == old(self).input_view(),
            final(self).results_view() == old(self).results_view(),
            r is None <==> old(self).pending_view().len() == 0,
            r is None ==> *final(self) == *old(self),
            r is Some ==> final(self).remaining_steps() + 1 == old(self).remaining_steps(),
            r is Some ==> {
                &&& final(self).pending_view() == old(self).pending_view().drop_last()
                &&& r->0@ == old(self).pending_view().last()
                &&& final(self).in_flight_view() == old(self).in_flight_view().push(r->0@)
            },
    {
        if self.pending.len() == 0 {
            return None;
        }
        match self.pending.pop() {
            None => None,
            Some(u) => {
                self.in_flight.push(u.clone());
                proof {
                    broadcast use group_to_multiset_ensures;
                    let p0 = texts(old(self).pending@);
                    let p1 = texts(self.pending@);
                    assert(p1 =~= p0.drop_last());
                    assert(p0 =~= p1.push(u@));
                    assert(texts(self.in_flight@) =~= texts(old(self).in_flight@).push(u@));
                    assert(self.pending_view().to_multiset().add(self.in_flight_view().to_multiset())
                        =~= old(self).pending_view().to_multiset().add(old(self).in_flight_view().to_multiset()));
                }
                Some(u)
            },
        }
    }

    /// Reports the record of a URL that is in flight: one copy of the URL leaves the
    /// in-flight list and the record is appended to the results. A record whose URL is
    /// not in flight is refused (`false`) and the board is unchanged.
    pub fn complete(&mut self, result: WebsiteStatus) -> (accepted: bool)
        requires
            old(self).wf(),
        ensures
            final(self).wf(),
            final(self).input_view() == old(self).input_view(),
            final(self).pending_view() == old(self).pending_view(),
            accepted <==> old(self).in_flight_view().contains(result@.url),
            !accepted ==> *final(self) == *old(self),
            accepted ==> final(self).remaining_steps() + 1 == old(self).remaining_steps(),
            accepted ==> {
                &&& final(self).results_view() == old(self).results_view().push(result@)
                &&& final(self).in_flight_view().to_multiset()
                    == old(self).in_flight_view().to_multiset().remove(result@.url)
                &&& final(self).in_flight_view().len() + 1 == old(self).in_flight_view().len()
            },
    {
        let n = self.in_flight.len();
        let mut i: usize = 0;
        while i < n
            invariant
                *self == *old(self),
                self.wf(),
                n == self.in_flight.len(),
                i <= n,
                forall|j: int| 0 <= j < i ==> #[trigger] self.in_flight@[j]@ != result.url@,
            decreases n - i,
        {
            if self.in_flight[i] == result.url {
                let ghost before = *self;
                self.in_flight.remove(i);
                self.done.push(result);
                proof {
                    broadcast use group_to_multiset_ensures;
                    let f0 = texts(before.in_flight@);
                    assert(texts(self.in_flight@) =~= f0.remove(i as int));
                    assert(f0[i as int] == result@.url);
                    assert(self.results_view() =~= before.results_view().push(result@));
                    assert(urls_of(self.results_view()) =~= urls_of(before.results_view()).push(result@.url));
                    assert(f0.to_multiset().count(result@.url) > 0) by {
                        assert(f0.contains(result@.url));
                    }
                    let fm0 = f0.to_multiset();
                    let dm0 = urls_of(before.results_view()).to_multiset();
                    assert(self.in_flight_view().to_multiset() == fm0.remove(result@.url));
                    assert(urls_of(self.results_view()).to_multiset() == dm0.insert(result@.url));
                    assert(self.pending_view().to_multiset().add(self.in_flight_view().to_multiset()).add(
                        urls_of(self.results_view()).to_multiset()) =~= before.pending_view().to_multiset().add(
                        before.in_flight_view().to_multiset()).add(urls_of(before.results_view()).to_multiset()));
                }
                return true;
            }
            i += 1;
        }
        proof {
            assert forall|j: int| 0 <= j < self.in_flight_view().len() implies self.in_flight_view()[j] != result@.url by {
                assert(self.in_flight@[j]@ != result.url@);
            }
        }
        false
    }

    /// Whether the run is over: nothing pending, nothing in flight.
    pub fn is_finished(&self) -> (r: bool)
        ensures
            r == self.finished_spec(),
            r <==> self.remaining_steps() == 0,
    {
        self.pending.len() == 0 && self.in_flight.len() == 0
    }

    /// The number of finished records.
    pub fn result_count(&self) -> (r: usize)
        ensures
            r == self.results_view().len(),
    {
        self.done.len()
    }

    /// The finished records, in the order they came back; only once the run is over.
    pub fn into_results(self) -> (r: Vec<WebsiteStatus>)
        requires
            self.wf(),
            self.finished_spec(),
        ensures
            views(r@) == self.results_view(),
            r.len() == self.input_view().len(),
            urls_of(views(r@)).to_multiset() == self.input_view().to_multiset(),
    {
        proof {
            lemma_finished_board_has_one_result_per_url(&self);
        }
        self.done
    }
}

/// Once a run is over, the results hold exactly one record per input URL: as many
/// records as URLs, and each URL as many times as it was given.
pub proof fn lemma_finished_board_has_one_result_per_url(b: &WorkBoard)
    requires
        b.wf(),
        b.finished_spec(),
    ensures
        b.results_view().len() == b.input_view().len(),
        urls_of(b.results_view()).to_multiset() == b.input_view().to_multiset(),
{
    broadcast use group_to_multiset_ensures, vstd::multiset::lemma_multiset_empty_len;
    assert(b.pending_view() =~= Seq::<Seq<char>>::empty());
    assert(b.in_flight_view() =~= Seq::<Seq<char>>::empty());
    assert(urls_of(b.results_view()).to_multiset() =~= b.input_view().to_multiset());
    assert(urls_of(b.results_view()).len() == b.results_view().len());
    assert(urls_of(b.results_view()).to_multiset().len() == urls_of(b.results_view()).len());
    assert(b.input_view().to_multiset().len() == b.input_view().len());
}

/// Mapping two sequences with the same elements (counted with multiplicity) gives two
/// sequences with the same elements.
pub proof fn lemma_map_keeps_same_elements<A, B>(s1: Seq<A>, s2: Seq<A>, f: spec_fn(A) -> B)
    requires
        s1.to_multiset() == s2.to_multiset(),
    ensures
        s1.map_values(f).to_multiset() == s2.map_values(f).to_multiset(),
    decreases s1.len(),
{
    broadcast use group_to_multiset_ensures;
    if s1.len() == 0 {
        assert(s1.to_multiset().len() == 0);
        assert(s2.len() == 0);
        assert(s1.map_values(f) =~= s2.map_values(f));
    } else {
        let x = s1.last();
        let t1 = s1.drop_last();
        assert(s1 =~= t1.push(x));
        assert(s2.to_multiset().count(x) > 0);
        assert(s2.contains(x));
        let j = choose|j: int| 0 <= j < s2.len() && s2[j] == x;
        let t2 = s2.remove(j);
        assert(t1.to_multiset() =~= t2.to_multiset());
        lemma_map_keeps_same_elements(t1, t2, f);
        assert(s1.map_values(f) =~= t1.map_values(f).push(f(x)));
        let m2 = s2.map_values(f);
        assert(m2.remove(j) =~= t2.map_values(f));
        assert(m2[j] == f(x));
        assert(m2.to_multiset().count(f(x)) > 0) by {
            assert(m2.contains(f(x)));
        }
        assert(m2.to_multiset() =~= m2.remove(j).to_multiset().insert(f(x)));
    }
}

/// Two finished runs over the same URLs (counted with multiplicity), however the work was
/// split among workers, hold the same (url, outcome) pairs, provided each URL's check ends
/// with the same outcome in both runs.
pub proof fn lemma_same_pairs_for_any_schedule(
    a: &WorkBoard,
    b: &WorkBoard,
    outcome_of: spec_fn(Seq<char>) -> Result<u16, Seq<char>>,
)
    requires
        a.wf(),
        b.wf(),
        a.finished_spec(),
        b.finished_spec(),
        a.input_view().to_multiset() == b.input_view().to_multiset(),
        forall|i: int| 0 <= i < a.results_view().len() ==>
            (#[trigger] a.results_view()[i]).action_status == outcome_of(a.results_view()[i].url),
        forall|i: int| 0 <= i < b.results_view().len() ==>
            (#[trigger] b.results_view()[i]).action_status == outcome_of(b.results_view()[i].url),
    ensures
        pairs_of(a.results_view()).to_multiset() == pairs_of(b.results_view()).to_multiset(),
{
    lemma_finished_board_has_one_result_per_url(a);
    lemma_finished_board_has_one_result_per_url(b);
    let g = |u: Seq<char>| (u, outcome_of(u));
    assert(pairs_of(a.results_view()) =~= urls_of(a.results_view()).map_values(g));
    assert(pairs_of(b.results_view()) =~= urls_of(b.results_view()).map_values(g));
    lemma_map_keeps_same_elements(urls_of(a.results_view()), urls_of(b.results_view()), g);
}

} // verus!
