use vstd::prelude::*;

use crate::checker::{parse_ok_spec, parse_url, parsed_text_spec};
use crate::text::str_eq_str;
use crate::urls::CrawlUrl;

verus! {

/// Mathematical state of a crawl frontier: the URLs (as canonical texts)
/// waiting for a fetch, the URLs ever admitted, the URLs handed out for a
/// fetch, and how many fetches are still in flight.
#[verifier::ext_equal]
pub struct FrontierModel {
    pub pending: Seq<Seq<char>>,
    pub visited: Set<Seq<char>>,
    pub fetched: Set<Seq<char>>,
    pub in_flight: int,
}

/// One admission: if the URL was never seen, it enters Visited and Pending
/// and the step reports true; otherwise nothing changes and it reports false.
pub open spec fn admit_model(m: FrontierModel, t: Seq<char>) -> (FrontierModel, bool) {
    if m.visited.contains(t) {
        (m, false)
    } else {
        (FrontierModel { pending: m.pending.push(t), visited: m.visited.insert(t), ..m }, true)
    }
}

/// One draw: the most recently pended URL leaves Pending, is marked fetched,
/// and one more fetch is in flight; on an empty frontier nothing changes.
pub open spec fn take_model(m: FrontierModel) -> (FrontierModel, Option<Seq<char>>) {
    if m.pending.len() == 0 {
        (m, None)
    } else {
        let t = m.pending.last();
        (
            FrontierModel {
                pending: m.pending.drop_last(),
                fetched: m.fetched.insert(t),
                in_flight: m.in_flight + 1,
                ..m
            },
            Some(t),
        )
    }
}

/// Admitting the first `n` of a page's candidate links, in order: a link
/// that parses is admitted under its canonical text, a malformed one is
/// dropped.
pub open spec fn admit_all_model(m: FrontierModel, links: Seq<Seq<char>>, n: int) -> FrontierModel
    decreases n,
{
    if n <= 0 {
        m
    } else {
        let m1 = admit_all_model(m, links, n - 1);
        if parse_ok_spec(links[n - 1]) {
            admit_model(m1, parsed_text_spec(links[n - 1])).0
        } else {
            m1
        }
    }
}

/// A worker finishing one fetched page: its links are admitted and its fetch
/// is no longer in flight.
pub open spec fn finish_model(m: FrontierModel, links: Seq<Seq<char>>) -> FrontierModel {
    let m1 = admit_all_model(m, links, links.len() as int);
    FrontierModel { in_flight: m1.in_flight - 1, ..m1 }
}

/// A frontier as created for a crawl: one seed, already admitted.
pub open spec fn seed_model(t: Seq<char>) -> FrontierModel {
    FrontierModel {
        pending: seq![t],
        visited: Set::empty().insert(t),
        fetched: Set::empty(),
        in_flight: 0,
    }
}

/// The frontier's governing invariant: Pending never holds a URL twice,
/// Visited is exactly what was fetched or is still pending, and no pending
/// URL was already fetched.
pub open spec fn wf_model(m: FrontierModel) -> bool {
    &&& m.pending.no_duplicates()
    &&& m.visited == m.fetched + m.pending.to_set()
    &&& m.fetched.disjoint(m.pending.to_set())
    &&& m.fetched.finite()
    &&& m.in_flight >= 0
}

/// A sequence with no duplicates stays duplicate-free when a fresh element
/// is pushed.
proof fn lemma_push_keeps_no_duplicates(s: Seq<Seq<char>>, t: Seq<char>)
    requires
        s.no_duplicates(),
        !s.contains(t),
    ensures
        s.push(t).no_duplicates(),
{
    let p = s.push(t);
    assert forall|i: int, j: int|
        0 <= i < p.len() && 0 <= j < p.len() && i != j implies p[i] != p[j] by {
        if i < s.len() && j < s.len() {
            assert(p[i] == s[i] && p[j] == s[j]);
        } else if i < s.len() {
            if p[i] == t {
                assert(s[i] == t);
                assert(s.contains(t));
            }
        } else {
            if p[j] == t {
                assert(s[j] == t);
                assert(s.contains(t));
            }
        }
    }
}

/// Dropping the last element of a duplicate-free sequence removes exactly
/// that element from its set of values.
proof fn lemma_drop_last_to_set(s: Seq<Seq<char>>)
    requires
        s.len() > 0,
        s.no_duplicates(),
    ensures
        !s.drop_last().contains(s.last()),
        s.drop_last().to_set() =~= s.to_set().remove(s.last()),
{
    let d = s.drop_last();
    let t = s.last();
    assert(!d.contains(t)) by {
        if d.contains(t) {
            let i = choose|i: int| 0 <= i < d.len() && d[i] == t;
            assert(s[i] == t && s[s.len() - 1] == t);
        }
    }
    assert forall|x: Seq<char>| d.to_set().contains(x) implies s.to_set().remove(t).contains(
        x,
    ) by {
        let i = choose|i: int| 0 <= i < d.len() && d[i] == x;
        assert(s[i] == x);
        assert(s.contains(x));
    }
    assert forall|x: Seq<char>| s.to_set().remove(t).contains(x) implies d.to_set().contains(
        x,
    ) by {
        let i = choose|i: int| 0 <= i < s.len() && s[i] == x;
        assert(i < s.len() - 1);
        assert(d[i] == x);
        assert(d.contains(x));
    }
}

/// The shared crawl frontier: the pair (Pending, Visited) with an in-flight
/// fetch counter. The one atomic admission step is `try_admit`; callers that
/// share a frontier across workers guard it with one lock so that each
/// operation here is indivisible.
pub struct Frontier {
    pending: Vec<CrawlUrl>,
    visited: Vec<String>,
    in_flight: usize,
    fetched: Ghost<Set<Seq<char>>>,
}

impl Frontier {
    /// Canonical texts of the pending URLs, oldest first.
    pub closed spec fn pending_texts(self) -> Seq<Seq<char>> {
        Seq::new(self.pending@.len(), |i: int| self.pending@[i]@.text)
    }

    /// Canonical texts of the admitted URLs, in admission order.
    pub closed spec fn visited_texts(self) -> Seq<Seq<char>> {
        Seq::new(self.visited@.len(), |i: int| self.visited@[i]@)
    }

    /// The frontier's mathematical state.
    pub closed spec fn model(self) -> FrontierModel {
        FrontierModel {
            pending: self.pending_texts(),
            visited: self.visited_texts().to_set(),
            fetched: self.fetched@,
            in_flight: self.in_flight as int,
        }
    }

    /// Well-formedness: the model invariant, plus the admission order being
    /// duplicate-free, which bounds the in-flight counter.
    pub closed spec fn wf(self) -> bool {
        &&& wf_model(self.model())
        &&& self.visited_texts().no_duplicates()
        &&& self.in_flight + self.pending@.len() <= self.visited@.len()
    }

    /// A frontier for a fresh crawl, seeded with the start URL; the seed
    /// counts as admitted from the start.
    pub fn new(seed: CrawlUrl) -> (f: Frontier)
        ensures
            f.wf(),
            f.model() == seed_model(seed@.text),
    {
        let text = seed.text.clone();
        let mut pending: Vec<CrawlUrl> = Vec::new();
        pending.push(seed);
        let mut visited: Vec<String> = Vec::new();
        visited.push(text);
        let f = Frontier { pending, visited, in_flight: 0, fetched: Ghost(Set::empty()) };
        proof {
            let t = seed@.text;
            assert(f.pending_texts() =~= seq![t]);
            assert(f.visited_texts() =~= seq![t]);
            assert(seq![t][0] == t);
            assert(seq![t].contains(t));
            assert forall|x: Seq<char>| seq![t].to_set().contains(x) implies x == t by {
                let i = choose|i: int| 0 <= i < seq![t].len() && seq![t][i] == x;
            }
            assert(seq![t].to_set() =~= Set::empty().insert(t));
            assert(f.model() =~= seed_model(t));
            assert(f.model().visited =~= f.model().fetched + f.model().pending.to_set());
            assert(seq![t].no_duplicates());
        }
        f
    }

    /// Whether a canonical text was ever admitted.
    fn contains_visited(&self, text: &str) -> (r: bool)
        ensures
            r == self.visited_texts().contains(text@),
    {
        let n = self.visited.len();
        let mut i: usize = 0;
        while i < n
            invariant
                n == self.visited@.len(),
                0 <= i <= n,
                forall|k: int| 0 <= k < i ==> self.visited_texts()[k] != text@,
            decreases n - i,
        {
            if str_eq_str(self.visited[i].as_str(), text) {
                proof {
                    assert(self.visited_texts()[i as int] == text@);
                }
                return true;
            }
            i += 1;
        }
        proof {
            assert(forall|k: int|
                0 <= k < self.visited_texts().len() ==> self.visited_texts()[k] != text@);
        }
        false
    }

    /// Atomically check and admit one URL: true exactly when it was never
    /// seen before, in which case it is marked visited and enqueued.
    pub fn try_admit(&mut self, url: CrawlUrl) -> (admitted: bool)
        requires
            old(self).wf(),
        ensures
            final(self).wf(),
            ({
                let (m2, b) = admit_model(old(self).model(), url@.text);
                final(self).model() == m2 && admitted == b
            }),
    {
        if self.contains_visited(url.as_str()) {
            proof {
                assert(old(self).model().visited.contains(url@.text));
            }
            return false;
        }
        let ghost m0 = old(self).model();
        let ghost t = url@.text;
        let ghost vt0 = old(self).visited_texts();
        let text = url.text.clone();
        self.visited.push(text);
        self.pending.push(url);
        proof {
            assert(!vt0.contains(t));
            assert(!m0.visited.contains(t));
            assert(self.visited_texts() =~= vt0.push(t));
            assert(self.pending_texts() =~= m0.pending.push(t));
            vt0.lemma_push_to_set_commute(t);
            m0.pending.lemma_push_to_set_commute(t);
            assert(self.visited_texts().to_set() =~= m0.visited.insert(t));
            assert(self.pending_texts().to_set() =~= m0.pending.to_set().insert(t));
            assert(self.model() =~= admit_model(m0, t).0);
            assert(!m0.pending.contains(t)) by {
                if m0.pending.contains(t) {
                    assert(m0.pending.to_set().contains(t));
                    assert(m0.visited.contains(t));
                }
            }
            assert(!m0.fetched.contains(t)) by {
                if m0.fetched.contains(t) {
                    assert(m0.visited.contains(t));
                }
            }
            lemma_push_keeps_no_duplicates(vt0, t);
            lemma_push_keeps_no_duplicates(m0.pending, t);
            assert(self.model().visited =~= self.model().fetched + self.model().pending.to_set());
            assert(self.model().fetched.disjoint(self.model().pending.to_set()));
        }
        true
    }

    /// Atomically draw one pending URL, marking it as handed out for a
    /// fetch; the drawn URL was never fetched before.
    pub fn take_next(&mut self) -> (r: Option<CrawlUrl>)
        requires
            old(self).wf(),
        ensures
            final(self).wf(),
            ({
                let (m2, o) = take_model(old(self).model());
                &&& final(self).model() == m2
                &&& (r is Some <==> o is Some)
                &&& (r matches Some(u) ==> o == Some(u@.text) && !old(
                    self,
                ).model().fetched.contains(u@.text))
            }),
    {
        let cap = self.visited.len();
        match self.pending.pop() {
            None => {
                proof {
                    assert(self.model() =~= take_model(old(self).model()).0);
                }
                None
            },
            Some(u) => {
                let ghost m0 = old(self).model();
                let ghost t = u@.text;
                proof {
                    assert(m0.pending.len() > 0);
                    assert(m0.pending[m0.pending.len() - 1] == t);
                    assert(m0.pending.last() == t);
                    assert(m0.pending.contains(t));
                    assert(m0.pending.to_set().contains(t));
                    assert(!m0.fetched.contains(t));
                    assert(self.in_flight < cap);
                }
                self.in_flight = self.in_flight + 1;
                proof {
                    self.fetched@ = self.fetched@.insert(t);
                }
                proof {
                    lemma_drop_last_to_set(m0.pending);
                    assert(self.pending_texts() =~= m0.pending.drop_last());
                    let m2 = take_model(m0).0;
                    assert(self.model() =~= m2);
                    assert(m2.pending.no_duplicates()) by {
                        let p2 = m2.pending;
                        assert forall|i: int, j: int|
                            0 <= i < p2.len() && 0 <= j < p2.len() && i != j implies p2[i]
                            != p2[j] by {
                            assert(p2[i] == m0.pending[i] && p2[j] == m0.pending[j]);
                        }
                    }
                    assert(m2.pending.to_set() =~= m0.pending.to_set().remove(t));
                    assert(m2.visited =~= m2.fetched + m2.pending.to_set());
                    assert(m2.fetched.disjoint(m2.pending.to_set())) by {
                        assert(!m2.pending.to_set().contains(t));
                    }
                }
                Some(u)
            },
        }
    }

    /// A worker reporting the outcome of one fetch: every well-formed
    /// candidate link is admitted (deduplicated), malformed candidates are
    /// dropped, and the fetch leaves flight. A failed fetch reports an empty
    /// candidate list, so the URL stays visited and contributes nothing.
    pub fn admit_links(&mut self, links: &Vec<String>)
        requires
            old(self).wf(),
            old(self).model().in_flight >= 1,
        ensures
            final(self).wf(),
            final(self).model() == finish_model(old(self).model(), links.deep_view()),
    {
        let ghost m0 = old(self).model();
        let ghost lv = links.deep_view();
        let n = links.len();
        let mut i: usize = 0;
        while i < n
            invariant
                n == links@.len(),
                lv == links.deep_view(),
                0 <= i <= n,
                self.wf(),
                self.model() == admit_all_model(m0, lv, i as int),
            decreases n - i,
        {
            proof {
                assert(lv[i as int] == links@[i as int]@);
            }
            match parse_url(links[i].as_str()) {
                Ok(u) => {
                    let _ = self.try_admit(u);
                    proof {
                        assert(self.model() == admit_all_model(m0, lv, i as int + 1));
                    }
                },
                Err(_) => {
                    proof {
                        assert(self.model() == admit_all_model(m0, lv, i as int + 1));
                    }
                },
            }
            i += 1;
        }
        proof {
            lemma_admit_all_counters(m0, lv, n as int);
            assert(self.model().in_flight == m0.in_flight);
        }
        self.in_flight = self.in_flight - 1;
        proof {
            assert(self.model() =~= finish_model(m0, lv));
        }
    }

    /// Whether no work remains: nothing pending and no fetch in flight. Only
    /// then may every worker stop — pending emptiness alone is not enough,
    /// since an in-flight fetch may still admit new URLs.
    pub fn is_quiescent(&self) -> (r: bool)
        ensures
            r == (self.model().pending.len() == 0 && self.model().in_flight == 0),
    {
        self.pending.len() == 0 && self.in_flight == 0
    }

    /// How many fetches are in flight.
    pub fn in_flight_count(&self) -> (r: usize)
        ensures
            r as int == self.model().in_flight,
    {
        self.in_flight
    }

    /// How many URLs were ever admitted.
    pub fn visited_count(&self) -> (r: usize)
        ensures
            r as int == self.visited_texts().len(),
    {
        self.visited.len()
    }

    /// How many URLs await a fetch.
    pub fn pending_count(&self) -> (r: usize)
        ensures
            r as int == self.model().pending.len(),
    {
        self.pending.len()
    }
}

/// A well-formed frontier's mathematical state satisfies the model
/// invariant; this is what ties the executable type to the laws below.
pub proof fn lemma_wf_model(f: Frontier)
    requires
        f.wf(),
    ensures
        wf_model(f.model()),
{
}

/// Admissions touch neither the fetched set nor the in-flight counter.
pub proof fn lemma_admit_all_counters(m: FrontierModel, links: Seq<Seq<char>>, n: int)
    ensures
        admit_all_model(m, links, n).fetched == m.fetched,
        admit_all_model(m, links, n).in_flight == m.in_flight,
    decreases n,
{
    if n > 0 {
        lemma_admit_all_counters(m, links, n - 1);
    }
}

/// LAW: a URL is admitted at most once. The first admission of a never-seen
/// URL reports true; any repeated admission of the same URL reports false
/// and leaves the frontier unchanged.
pub proof fn lemma_admit_at_most_once(m: FrontierModel, t: Seq<char>)
    ensures
        admit_model(m, t).1 == !m.visited.contains(t),
        !admit_model(admit_model(m, t).0, t).1,
        admit_model(admit_model(m, t).0, t).0 == admit_model(m, t).0,
{
}

/// LAW: admission never forgets. A URL is visited after an admission step
/// exactly when it was visited before or is the URL just admitted.
pub proof fn lemma_admit_monotone(m: FrontierModel, t: Seq<char>, x: Seq<char>)
    ensures
        admit_model(m, t).0.visited.contains(x) <==> (m.visited.contains(x) || x == t),
{
}

/// LAW: when the frontier has drained, the URLs ever fetched are exactly the
/// URLs ever admitted — no URL was fetched twice, and no admitted URL was
/// left undrawn.
pub proof fn lemma_drained_fetched_is_visited(m: FrontierModel)
    requires
        wf_model(m),
        m.pending.len() == 0,
    ensures
        m.fetched =~= m.visited,
{
    assert(m.pending.to_set() =~= Set::empty());
    assert(m.fetched =~= m.fetched + Set::empty());
}

/// LAW: a drawn URL was never drawn before, and afterwards counts as
/// fetched; the visited set does not change at a draw.
pub proof fn lemma_take_is_fresh(m: FrontierModel)
    requires
        wf_model(m),
        m.pending.len() > 0,
    ensures
        !m.fetched.contains(take_model(m).1->Some_0),
        take_model(m).0.fetched.contains(take_model(m).1->Some_0),
        take_model(m).0.visited == m.visited,
{
    let t = m.pending.last();
    assert(m.pending.contains(t));
    assert(m.pending.to_set().contains(t));
}

} // verus!
