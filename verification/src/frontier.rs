//! The frontier controller: the visited set, the bounded pending queue,
//! batch draining, result merging, and link enqueueing — the state machine
//! that drives one crawl from its start URL to termination.

use vstd::prelude::*;
use crate::batch::PageResult;
use crate::origin::{host_of, is_same_domain, parse_host};
use crate::QUEUE_CAP;

verus! {

/// The one fatal error of a crawl: a start URL that does not parse as an
/// absolute URL with a host.
#[derive(Debug, PartialEq, Eq, Structural)]
pub enum CrawlError {
    InvalidStartUrl,
}

/// The URL keys of a sequence of page results, in order.
pub open spec fn result_urls(s: Seq<PageResult>) -> Seq<Seq<char>> {
    Seq::new(s.len(), |i: int| s[i].url@)
}

/// Merging a batch's results into the output, keyed by URL, first success
/// wins: a result whose URL is already recorded is dropped, every other
/// result is appended in order.
pub open spec fn spec_merge(out: Seq<PageResult>, results: Seq<PageResult>) -> Seq<PageResult>
    decreases results.len(),
{
    if results.len() == 0 {
        out
    } else {
        let out1 = if result_urls(out).contains(results.first().url@) {
            out
        } else {
            out.push(results.first())
        };
        spec_merge(out1, results.drop_first())
    }
}

/// Enqueueing discovered links at the back of the queue, in order: a link
/// is appended only when its host is exactly `base_domain`, it has not been
/// visited, and it is not already pending.
pub open spec fn spec_enqueue(
    q: Seq<Seq<char>>,
    visited: Seq<Seq<char>>,
    links: Seq<Seq<char>>,
    base_domain: Seq<char>,
) -> Seq<Seq<char>>
    decreases links.len(),
{
    if links.len() == 0 {
        q
    } else {
        let l = links.first();
        let q1 = if host_of(l) == Some(base_domain) && !visited.contains(l) && !q.contains(l) {
            q.push(l)
        } else {
            q
        };
        spec_enqueue(q1, visited, links.drop_first(), base_domain)
    }
}

/// How many URLs one drain takes from the front of the queue: up to the
/// batch size, up to what the queue holds, and never past the page budget.
pub open spec fn spec_drain_len(c: Crawler) -> int {
    vstd::math::min(
        vstd::math::min(c.queue@.len() as int, c.batch_size as int),
        c.max_pages - c.visited@.len(),
    )
}

/// The state of one crawl. The visited set is append-only; the queue is
/// FIFO and bounded; the output holds one entry per URL ever successfully
/// fetched.
pub struct Crawler {
    /// The start URL; every relative link is resolved against it.
    pub base_url: String,
    /// The origin host; only URLs on this host are ever enqueued.
    pub base_domain: String,
    /// How many URLs one batch drains at most.
    pub batch_size: usize,
    /// The crawl stops once this many URLs have been drained.
    pub max_pages: usize,
    /// URLs already drained for processing, in drain order, no duplicates.
    pub visited: Vec<String>,
    /// URLs discovered and still awaiting processing, in discovery order.
    pub queue: Vec<String>,
    /// One result per successfully fetched URL, in completion order.
    pub output: Vec<PageResult>,
}

impl Crawler {
    /// The URLs already drained for processing.
    pub open spec fn visited_urls(self) -> Seq<Seq<char>> {
        self.visited.deep_view()
    }

    /// The pending frontier, front first.
    pub open spec fn frontier(self) -> Seq<Seq<char>> {
        self.queue.deep_view()
    }

    /// The URL keys of the output, in order.
    pub open spec fn output_urls(self) -> Seq<Seq<char>> {
        result_urls(self.output@)
    }

    /// The crawl state's invariant: the origin host is the start URL's
    /// host; visited URLs are distinct, same-origin, and within the page
    /// budget; pending URLs are distinct, same-origin, unvisited, and at
    /// most `QUEUE_CAP` many; output keys are distinct.
    pub open spec fn wf(self) -> bool {
        &&& host_of(self.base_url@) == Some(self.base_domain@)
        &&& self.visited_urls().no_duplicates()
        &&& self.visited@.len() <= self.max_pages
        &&& forall|i: int|
            0 <= i < self.visited_urls().len() ==> host_of(#[trigger] self.visited_urls()[i])
                == Some(self.base_domain@)
        &&& self.frontier().no_duplicates()
        &&& self.queue@.len() <= QUEUE_CAP
        &&& forall|i: int|
            0 <= i < self.frontier().len() ==> !self.visited_urls().contains(
                #[trigger] self.frontier()[i],
            )
        &&& forall|i: int|
            0 <= i < self.frontier().len() ==> host_of(#[trigger] self.frontier()[i]) == Some(
                self.base_domain@,
            )
        &&& self.output_urls().no_duplicates()
    }

    /// Opens a crawl at `start_url`: the queue holds the start URL alone,
    /// nothing is visited, the output is empty. Rejected when the start URL
    /// does not parse to a URL with a host.
    pub fn new(start_url: &str, batch_size: usize, max_pages: usize) -> (r: Result<
        Crawler,
        CrawlError,
    >)
        ensures
            r is Ok <==> host_of(start_url@) is Some,
            match r {
                Ok(c) => {
                    &&& c.wf()
                    &&& c.base_url@ == start_url@
                    &&& Some(c.base_domain@) == host_of(start_url@)
                    &&& c.batch_size == batch_size
                    &&& c.max_pages == max_pages
                    &&& c.visited_urls() == Seq::<Seq<char>>::empty()
                    &&& c.frontier() == seq![start_url@]
                    &&& c.output@ == Seq::<PageResult>::empty()
                },
                Err(e) => e == CrawlError::InvalidStartUrl,
            },
    {
        match parse_host(start_url) {
            Some(h) => {
                let mut queue: Vec<String> = Vec::new();
                queue.push(start_url.to_owned());
                let c = Crawler {
                    base_url: start_url.to_owned(),
                    base_domain: h,
                    batch_size,
                    max_pages,
                    visited: Vec::new(),
                    queue,
                    output: Vec::new(),
                };
                proof {
                    assert(c.visited_urls() =~= Seq::<Seq<char>>::empty());
                    assert(c.frontier() =~= seq![start_url@]);
                }
                Ok(c)
            },
            None => Err(CrawlError::InvalidStartUrl),
        }
    }

    /// Drains the next batch from the queue's front: up to `batch_size`
    /// URLs, never past the page budget, each added to the visited set the
    /// moment it is drained. An empty batch means the crawl can make no
    /// further progress.
    pub fn next_batch(&mut self) -> (drained: Vec<String>)
        requires
            old(self).wf(),
        ensures
            final(self).wf(),
            final(self).base_url == old(self).base_url,
            final(self).base_domain == old(self).base_domain,
            final(self).batch_size == old(self).batch_size,
            final(self).max_pages == old(self).max_pages,
            final(self).output == old(self).output,
            drained.deep_view() == old(self).frontier().take(spec_drain_len(*old(self))),
            final(self).frontier() == old(self).frontier().skip(spec_drain_len(*old(self))),
            final(self).visited_urls() == old(self).visited_urls() + drained.deep_view(),
            forall|i: int|
                0 <= i < drained.deep_view().len() ==> !old(self).visited_urls().contains(
                    #[trigger] drained.deep_view()[i],
                ),
            forall|i: int|
                0 <= i < drained.deep_view().len() ==> final(self).visited_urls().contains(
                    #[trigger] drained.deep_view()[i],
                ),
            drained.deep_view().no_duplicates(),
            drained@.len() <= old(self).batch_size,
            final(self).visited@.len() <= final(self).max_pages,
            drained@.len() == 0 <==> (old(self).queue@.len() == 0 || old(self).visited@.len()
                >= old(self).max_pages || old(self).batch_size == 0),
    {
        let remaining = self.max_pages - self.visited.len();
        let limit = if self.batch_size < remaining {
            self.batch_size
        } else {
            remaining
        };
        let ghost me0 = *self;
        let ghost q0 = self.queue.deep_view();
        let ghost v0 = self.visited.deep_view();
        let mut drained: Vec<String> = Vec::new();
        proof {
            assert(drained.deep_view() =~= q0.take(0));
            assert(self.queue.deep_view() =~= q0.skip(0));
            assert(self.visited.deep_view() =~= v0 + drained.deep_view());
        }
        while drained.len() < limit && self.queue.len() > 0
            invariant
                self.base_url == me0.base_url,
                self.base_domain == me0.base_domain,
                self.batch_size == me0.batch_size,
                self.max_pages == me0.max_pages,
                self.output == me0.output,
                me0.wf(),
                q0 == me0.frontier(),
                v0 == me0.visited_urls(),
                limit as int == vstd::math::min(
                    me0.batch_size as int,
                    me0.max_pages - v0.len(),
                ),
                drained@.len() <= limit,
                drained@.len() <= q0.len(),
                drained.deep_view() == q0.take(drained@.len() as int),
                self.queue.deep_view() == q0.skip(drained@.len() as int),
                self.visited.deep_view() == v0 + drained.deep_view(),
            decreases self.queue.len(),
        {
            let ghost k = drained@.len() as int;
            let ghost qv_pre = self.queue@;
            proof {
                assert(q0.skip(k).len() == q0.len() - k);
                assert(k < q0.len());
                assert(q0.skip(k)[0] == q0[0 + k]);
                assert(self.queue.deep_view()[0] == qv_pre[0]@);
            }
            let url = self.queue.remove(0);
            proof {
                assert(url@ == q0[k]);
                assert forall|j: int| 0 <= j < self.queue@.len() implies self.queue.deep_view()[j]
                    == q0.skip(k + 1)[j] by {
                    assert(self.queue@[j] == qv_pre[j + 1]);
                    assert(self.queue.deep_view()[j] == qv_pre[j + 1]@);
                    assert(q0.skip(k)[j + 1] == q0[j + 1 + k]);
                    assert(q0.skip(k + 1)[j] == q0[j + k + 1]);
                }
                assert(self.queue.deep_view() =~= q0.skip(k + 1));
            }
            if !contains_url(&self.visited, &url) {
                let ghost vv_pre = self.visited@;
                let ghost vdv_pre = self.visited.deep_view();
                let ghost dv_pre = drained@;
                let ghost ddv_pre = drained.deep_view();
                self.visited.push(url.clone());
                drained.push(url);
                proof {
                    assert forall|j: int| 0 <= j < drained@.len() implies drained.deep_view()[j]
                        == q0.take(k + 1)[j] by {
                        if j < k {
                            assert(drained@[j] == dv_pre[j]);
                            assert(drained.deep_view()[j] == dv_pre[j]@);
                            assert(q0.take(k)[j] == q0[j]);
                        } else {
                            assert(drained@[j] == drained@.last());
                            assert(drained.deep_view()[j] == q0[k]);
                        }
                    }
                    assert(drained.deep_view() =~= q0.take(k + 1));
                    assert(vdv_pre.len() == vv_pre.len());
                    assert(ddv_pre.len() == k);
                    assert(vv_pre.len() == v0.len() + k);
                    assert(self.visited@.len() == vv_pre.len() + 1);
                    assert(drained.deep_view().len() == k + 1);
                    assert forall|j: int| 0 <= j < self.visited@.len() implies self
                        .visited
                        .deep_view()[j] == (v0 + drained.deep_view())[j] by {
                        if j < vv_pre.len() {
                            assert(self.visited@[j] == vv_pre[j]);
                            assert(self.visited.deep_view()[j] == vv_pre[j]@);
                            assert(vdv_pre[j] == vv_pre[j]@);
                            assert(vdv_pre[j] == (v0 + ddv_pre)[j]);
                            if j < v0.len() {
                                assert((v0 + ddv_pre)[j] == v0[j]);
                                assert((v0 + drained.deep_view())[j] == v0[j]);
                            } else {
                                assert((v0 + ddv_pre)[j] == ddv_pre[j - v0.len()]);
                                assert(ddv_pre[j - v0.len()] == q0.take(k)[j - v0.len()]);
                                assert(q0.take(k)[j - v0.len()] == q0[j - v0.len()]);
                                assert((v0 + drained.deep_view())[j] == drained.deep_view()[j
                                    - v0.len()]);
                                assert(drained.deep_view()[j - v0.len()] == q0.take(k + 1)[j
                                    - v0.len()]);
                                assert(q0.take(k + 1)[j - v0.len()] == q0[j - v0.len()]);
                            }
                        } else {
                            assert(self.visited@[j] == self.visited@.last());
                            assert(self.visited.deep_view()[j] == q0[k]);
                            assert((v0 + drained.deep_view())[j] == drained.deep_view()[j
                                - v0.len()]);
                            assert(drained.deep_view()[j - v0.len()] == q0.take(k + 1)[k]);
                            assert(q0.take(k + 1)[k] == q0[k]);
                        }
                    }
                    assert(self.visited.deep_view() =~= v0 + drained.deep_view());
                }
            } else {
                proof {
                    let vis = v0 + q0.take(k);
                    assert(vis.contains(q0[k]));
                    let idx = choose|idx: int| 0 <= idx < vis.len() && vis[idx] == q0[k];
                    assert(!me0.visited_urls().contains(me0.frontier()[k]));
                    if idx < v0.len() {
                        assert(v0[idx] == q0[k]);
                        assert(v0.contains(q0[k]));
                        assert(false);
                    } else {
                        assert(q0.take(k)[idx - v0.len()] == q0[k]);
                        assert(q0[idx - v0.len()] == q0[k]);
                        assert(false);
                    }
                }
            }
        }
        proof {
            let k = drained@.len() as int;
            assert(k == spec_drain_len(me0)) by {
                if k == limit {
                } else {
                    assert(self.queue@.len() == 0);
                    assert(q0.skip(k).len() == 0);
                }
            }
            assert(drained.deep_view().no_duplicates()) by {
                assert(forall|a: int, b: int|
                    0 <= a < q0.len() && 0 <= b < q0.len() && a != b ==> q0[a] != q0[b]);
            }
            assert forall|i: int| 0 <= i < k implies !v0.contains(
                #[trigger] drained.deep_view()[i],
            ) by {
                assert(drained.deep_view()[i] == me0.frontier()[i]);
                assert(!me0.visited_urls().contains(me0.frontier()[i]));
            }
            assert forall|i: int| 0 <= i < k implies self.visited.deep_view().contains(
                #[trigger] drained.deep_view()[i],
            ) by {
                assert(self.visited.deep_view()[v0.len() + i] == drained.deep_view()[i]);
            }
            assert(self.wf()) by {
                vstd::seq_lib::lemma_no_dup_in_concat(v0, drained.deep_view());
                assert forall|i: int|
                    0 <= i < self.visited_urls().len() implies host_of(
                    #[trigger] self.visited_urls()[i],
                ) == Some(self.base_domain@) by {
                    if i >= v0.len() {
                        assert(self.visited_urls()[i] == me0.frontier()[i - v0.len()]);
                        assert(host_of(me0.frontier()[i - v0.len()]) == Some(me0.base_domain@));
                    }
                }
                assert forall|i: int| 0 <= i < self.frontier().len() implies !self
                    .visited_urls()
                    .contains(#[trigger] self.frontier()[i]) by {
                    assert(self.frontier()[i] == me0.frontier()[k + i]);
                    assert(!me0.visited_urls().contains(me0.frontier()[k + i]));
                    if self.visited_urls().contains(me0.frontier()[k + i]) {
                        let idx = choose|idx: int|
                            0 <= idx < self.visited_urls().len() && self.visited_urls()[idx]
                                == me0.frontier()[k + i];
                        if idx < v0.len() {
                            assert(v0.contains(me0.frontier()[k + i]));
                        } else {
                            assert(q0[idx - v0.len()] == q0[k + i]);
                        }
                    }
                }
                assert forall|i: int| 0 <= i < self.frontier().len() implies host_of(
                    #[trigger] self.frontier()[i],
                ) == Some(self.base_domain@) by {
                    assert(self.frontier()[i] == me0.frontier()[k + i]);
                    assert(host_of(me0.frontier()[k + i]) == Some(me0.base_domain@));
                }
            }
        }
        drained
    }

    /// Folds one finished batch back into the state: results are merged
    /// into the output keyed by URL (first success wins), each discovered
    /// link is appended to the queue's back when it is same-origin, not
    /// visited and not already pending, and the queue is then truncated
    /// from the back to at most `QUEUE_CAP` pending entries. The visited
    /// set does not change.
    pub fn record_batch(&mut self, results: Vec<PageResult>, links: Vec<String>)
        requires
            old(self).wf(),
        ensures
            final(self).wf(),
            final(self).base_url == old(self).base_url,
            final(self).base_domain == old(self).base_domain,
            final(self).batch_size == old(self).batch_size,
            final(self).max_pages == old(self).max_pages,
            final(self).visited == old(self).visited,
            final(self).output@ == spec_merge(old(self).output@, results@),
            ({
                let full = spec_enqueue(
                    old(self).frontier(),
                    old(self).visited_urls(),
                    links.deep_view(),
                    old(self).base_domain@,
                );
                final(self).frontier() == full.take(
                    vstd::math::min(QUEUE_CAP as int, full.len() as int),
                )
            }),
            final(self).queue@.len() <= QUEUE_CAP,
            forall|i: int|
                0 <= i < final(self).frontier().len() ==> old(self).frontier().contains(
                    #[trigger] final(self).frontier()[i],
                ) || links.deep_view().contains(final(self).frontier()[i]),
    {
        let ghost me0 = *self;
        let ghost r0 = results@;
        let ghost l0 = links.deep_view();
        let mut results = results;
        while results.len() > 0
            invariant
                self.base_url == me0.base_url,
                self.base_domain == me0.base_domain,
                self.batch_size == me0.batch_size,
                self.max_pages == me0.max_pages,
                self.visited == me0.visited,
                self.queue == me0.queue,
                me0.wf(),
                spec_merge(self.output@, results@) == spec_merge(me0.output@, r0),
                self.output_urls().no_duplicates(),
                forall|j: int| 0 <= j < results@.len() ==> r0.contains(#[trigger] results@[j]),
            decreases results@.len(),
        {
            let ghost res_pre = results@;
            let ghost out_pre = self.output@;
            let r = results.remove(0);
            proof {
                assert(r == res_pre.first());
                assert(results@ =~= res_pre.drop_first());
            }
            let dup = contains_result_url(&self.output, &r.url);
            if !dup {
                self.output.push(r);
                proof {
                    assert(self.output@ =~= out_pre.push(res_pre.first()));
                    assert(self.output_urls().no_duplicates()) by {
                        assert forall|a: int, b: int|
                            0 <= a < self.output_urls().len() && 0 <= b
                                < self.output_urls().len() && a != b implies self
                            .output_urls()[a] != self.output_urls()[b] by {
                            assert(result_urls(out_pre).no_duplicates());
                            if a < out_pre.len() && b < out_pre.len() {
                                assert(self.output_urls()[a] == result_urls(out_pre)[a]);
                                assert(self.output_urls()[b] == result_urls(out_pre)[b]);
                            } else if a < out_pre.len() {
                                assert(self.output_urls()[b] == res_pre.first().url@);
                                assert(self.output_urls()[a] == result_urls(out_pre)[a]);
                                assert(!result_urls(out_pre).contains(res_pre.first().url@));
                            } else {
                                assert(self.output_urls()[a] == res_pre.first().url@);
                                assert(self.output_urls()[b] == result_urls(out_pre)[b]);
                                assert(!result_urls(out_pre).contains(res_pre.first().url@));
                            }
                        }
                    }
                }
            }
        }
        let ghost merged = self.output@;
        let mut links = links;
        while links.len() > 0
            invariant
                self.base_url == me0.base_url,
                self.base_domain == me0.base_domain,
                self.batch_size == me0.batch_size,
                self.max_pages == me0.max_pages,
                self.visited == me0.visited,
                self.output@ == merged,
                merged == spec_merge(me0.output@, r0),
                self.output_urls().no_duplicates(),
                me0.wf(),
                spec_enqueue(
                    self.queue.deep_view(),
                    me0.visited_urls(),
                    links.deep_view(),
                    me0.base_domain@,
                ) == spec_enqueue(me0.frontier(), me0.visited_urls(), l0, me0.base_domain@),
                self.frontier().no_duplicates(),
                forall|i: int|
                    0 <= i < self.frontier().len() ==> !me0.visited_urls().contains(
                        #[trigger] self.frontier()[i],
                    ),
                forall|i: int|
                    0 <= i < self.frontier().len() ==> host_of(#[trigger] self.frontier()[i])
                        == Some(me0.base_domain@),
                forall|i: int|
                    0 <= i < self.frontier().len() ==> me0.frontier().contains(
                        #[trigger] self.frontier()[i],
                    ) || l0.contains(self.frontier()[i]),
                forall|j: int|
                    0 <= j < links@.len() ==> l0.contains(#[trigger] links.deep_view()[j]),
            decreases links@.len(),
        {
            let ghost lv_pre = links.deep_view();
            let ghost lraw_pre = links@;
            let ghost q_pre = self.queue.deep_view();
            let l = links.remove(0);
            proof {
                assert(l@ == lraw_pre[0]@);
                assert(lv_pre[0] == lraw_pre[0]@);
                assert forall|j: int| 0 <= j < links@.len() implies links.deep_view()[j]
                    == lv_pre.drop_first()[j] by {
                    assert(links@[j] == lraw_pre[j + 1]);
                    assert(links.deep_view()[j] == lraw_pre[j + 1]@);
                    assert(lv_pre[j + 1] == lraw_pre[j + 1]@);
                }
                assert(links.deep_view() =~= lv_pre.drop_first());
            }
            let same = is_same_domain(l.as_str(), self.base_domain.as_str());
            let vis = contains_url(&self.visited, &l);
            let pend = contains_url(&self.queue, &l);
            if same && !vis && !pend {
                let ghost qraw_pre = self.queue@;
                self.queue.push(l);
                proof {
                    assert forall|j: int| 0 <= j < self.queue@.len() implies self
                        .queue
                        .deep_view()[j] == q_pre.push(lv_pre[0])[j] by {
                        if j < qraw_pre.len() {
                            assert(self.queue@[j] == qraw_pre[j]);
                            assert(self.queue.deep_view()[j] == qraw_pre[j]@);
                            assert(q_pre[j] == qraw_pre[j]@);
                        } else {
                            assert(self.queue@[j] == self.queue@.last());
                            assert(self.queue.deep_view()[j] == lv_pre[0]);
                        }
                    }
                    assert(self.queue.deep_view() =~= q_pre.push(lv_pre[0]));
                    assert(self.frontier().no_duplicates()) by {
                        assert forall|a: int, b: int|
                            0 <= a < self.frontier().len() && 0 <= b < self.frontier().len()
                                && a != b implies self.frontier()[a] != self.frontier()[b] by {
                            if a < q_pre.len() && b < q_pre.len() {
                            } else if a < q_pre.len() {
                                assert(!q_pre.contains(lv_pre[0]));
                            } else if b < q_pre.len() {
                                assert(!q_pre.contains(lv_pre[0]));
                            }
                        }
                    }
                }
            }
        }
        let ghost full = spec_enqueue(me0.frontier(), me0.visited_urls(), l0, me0.base_domain@);
        proof {
            assert(self.queue.deep_view() == full);
        }
        if self.queue.len() > QUEUE_CAP {
            let ghost qraw_pre = self.queue@;
            self.queue.truncate(QUEUE_CAP);
            proof {
                assert forall|j: int| 0 <= j < self.queue@.len() implies self.queue.deep_view()[j]
                    == full.take(QUEUE_CAP as int)[j] by {
                    assert(self.queue@[j] == qraw_pre[j]);
                    assert(self.queue.deep_view()[j] == qraw_pre[j]@);
                }
                assert(self.queue.deep_view() =~= full.take(QUEUE_CAP as int));
                assert(full.take(QUEUE_CAP as int) =~= full.take(
                    vstd::math::min(QUEUE_CAP as int, full.len() as int),
                ));
                assert forall|i: int| 0 <= i < self.frontier().len() implies full.contains(
                    #[trigger] self.frontier()[i],
                ) by {
                    assert(self.frontier()[i] == full[i]);
                }
            }
        } else {
            proof {
                assert(full.take(vstd::math::min(QUEUE_CAP as int, full.len() as int)) =~= full);
            }
        }
        proof {
            assert(self.wf()) by {
                assert forall|i: int| 0 <= i < self.frontier().len() implies !self
                    .visited_urls()
                    .contains(#[trigger] self.frontier()[i]) by {
                    assert(self.frontier()[i] == full[i]);
                }
                assert forall|i: int| 0 <= i < self.frontier().len() implies host_of(
                    #[trigger] self.frontier()[i],
                ) == Some(self.base_domain@) by {
                    assert(self.frontier()[i] == full[i]);
                }
                assert(self.frontier().no_duplicates()) by {
                    assert forall|a: int, b: int|
                        0 <= a < self.frontier().len() && 0 <= b < self.frontier().len() && a != b
                            implies self.frontier()[a] != self.frontier()[b] by {
                        assert(self.frontier()[a] == full[a]);
                        assert(self.frontier()[b] == full[b]);
                        assert(full.no_duplicates());
                    }
                }
            }
            assert forall|i: int| 0 <= i < self.frontier().len() implies me0.frontier().contains(
                #[trigger] self.frontier()[i],
            ) || l0.contains(self.frontier()[i]) by {
                assert(self.frontier()[i] == full[i]);
                assert(full.contains(full[i]));
            }
        }
    }

    /// Whether the crawl has terminated: nothing pending, or the page
    /// budget exhausted.
    pub fn is_done(&self) -> (r: bool)
        ensures
            r == (self.queue@.len() == 0 || self.visited@.len() >= self.max_pages),
    {
        self.queue.len() == 0 || self.visited.len() >= self.max_pages
    }

    /// Hands the accumulated output to the caller, ending the crawl.
    pub fn into_output(self) -> (r: Vec<PageResult>)
        ensures
            r == self.output,
    {
        self.output
    }
}

/// A URL is never dispatched twice in one crawl: a batch is drawn only from
/// URLs outside the visited set, every drained URL lands in the visited set
/// at once, and the visited set only grows; so a batch drained earlier and a
/// batch drained later share no URL.
pub proof fn lemma_no_refetch(
    earlier_visited: Seq<Seq<char>>,
    batch1: Seq<Seq<char>>,
    later_visited: Seq<Seq<char>>,
    batch2: Seq<Seq<char>>,
)
    requires
        forall|i: int| 0 <= i < batch1.len() ==> earlier_visited.contains(#[trigger] batch1[i]),
        forall|x: Seq<char>| earlier_visited.contains(x) ==> later_visited.contains(x),
        forall|i: int| 0 <= i < batch2.len() ==> !later_visited.contains(#[trigger] batch2[i]),
    ensures
        forall|i: int, j: int|
            0 <= i < batch1.len() && 0 <= j < batch2.len() ==> #[trigger] batch1[i]
                != #[trigger] batch2[j],
{
    assert forall|i: int, j: int|
        0 <= i < batch1.len() && 0 <= j < batch2.len() implies #[trigger] batch1[i]
        != #[trigger] batch2[j] by {
        assert(earlier_visited.contains(batch1[i]));
        assert(later_visited.contains(batch1[i]));
        assert(!later_visited.contains(batch2[j]));
    }
}

/// Every entry of a merged output was already recorded before the merge or
/// came from the merged batch's results.
pub proof fn lemma_merge_membership(out: Seq<PageResult>, results: Seq<PageResult>)
    ensures
        forall|i: int|
            0 <= i < spec_merge(out, results).len() ==> out.contains(
                #[trigger] spec_merge(out, results)[i],
            ) || results.contains(spec_merge(out, results)[i]),
    decreases results.len(),
{
    if results.len() == 0 {
    } else {
        let out1 = if result_urls(out).contains(results.first().url@) {
            out
        } else {
            out.push(results.first())
        };
        lemma_merge_membership(out1, results.drop_first());
        assert forall|i: int| 0 <= i < spec_merge(out, results).len() implies out.contains(
            #[trigger] spec_merge(out, results)[i],
        ) || results.contains(spec_merge(out, results)[i]) by {
            let e = spec_merge(out, results)[i];
            assert(spec_merge(out, results) == spec_merge(out1, results.drop_first()));
            if out1.contains(e) {
                if !out.contains(e) {
                    let idx = choose|idx: int| 0 <= idx < out1.len() && out1[idx] == e;
                    if idx < out.len() {
                        assert(out.contains(e));
                    } else {
                        assert(e == results.first());
                        assert(results[0] == e);
                    }
                }
            } else {
                let idx = choose|idx: int|
                    0 <= idx < results.drop_first().len() && results.drop_first()[idx] == e;
                assert(results[idx + 1] == e);
            }
        }
    }
}

/// Merging never loses a recorded URL, and records every URL a result was
/// produced for: a key of the old output or of the batch's results is a key
/// of the merged output.
pub proof fn lemma_merge_keys(out: Seq<PageResult>, results: Seq<PageResult>, key: Seq<char>)
    requires
        result_urls(out).contains(key) || result_urls(results).contains(key),
    ensures
        result_urls(spec_merge(out, results)).contains(key),
    decreases results.len(),
{
    if results.len() == 0 {
        assert(result_urls(out).contains(key));
    } else {
        let out1 = if result_urls(out).contains(results.first().url@) {
            out
        } else {
            out.push(results.first())
        };
        assert(spec_merge(out, results) == spec_merge(out1, results.drop_first()));
        if result_urls(out).contains(key) {
            let idx = choose|idx: int|
                0 <= idx < result_urls(out).len() && result_urls(out)[idx] == key;
            assert(result_urls(out1)[idx] == out1[idx].url@);
            assert(out1[idx] == out[idx]);
            assert(result_urls(out1).contains(key));
            lemma_merge_keys(out1, results.drop_first(), key);
        } else {
            let idx = choose|idx: int|
                0 <= idx < result_urls(results).len() && result_urls(results)[idx] == key;
            if idx == 0 {
                assert(key == results.first().url@);
                if result_urls(out).contains(results.first().url@) {
                    assert(result_urls(out1).contains(key));
                } else {
                    assert(out1[out.len() as int] == results.first());
                    assert(result_urls(out1)[out.len() as int] == key);
                    assert(result_urls(out1).contains(key));
                }
                lemma_merge_keys(out1, results.drop_first(), key);
            } else {
                assert(results.drop_first()[idx - 1] == results[idx]);
                assert(result_urls(results.drop_first())[idx - 1] == results[idx].url@);
                assert(result_urls(results.drop_first()).contains(key));
                lemma_merge_keys(out1, results.drop_first(), key);
            }
        }
    }
}

/// A sequence of distinct values all drawn from a pool is no longer than
/// the pool.
proof fn lemma_distinct_in_pool(keys: Seq<Seq<char>>, pool: Seq<Seq<char>>)
    requires
        keys.no_duplicates(),
        forall|i: int| 0 <= i < keys.len() ==> pool.contains(#[trigger] keys[i]),
    ensures
        keys.len() <= pool.len(),
{
    keys.unique_seq_to_set();
    pool.lemma_cardinality_of_set();
    vstd::seq_lib::seq_to_set_is_finite(keys);
    vstd::seq_lib::seq_to_set_is_finite(pool);
    assert(keys.to_set().subset_of(pool.to_set())) by {
        assert forall|x: Seq<char>| keys.to_set().contains(x) implies pool.to_set().contains(
            x,
        ) by {
            assert(keys.contains(x));
        }
    }
    vstd::set_lib::lemma_len_subset(keys.to_set(), pool.to_set());
}

/// Whether `v` holds a string equal to `s`.
pub(crate) fn contains_url(v: &Vec<String>, s: &String) -> (r: bool)
    ensures
        r == v.deep_view().contains(s@),
{
    let mut i: usize = 0;
    while i < v.len()
        invariant
            i <= v.len(),
            forall|j: int| 0 <= j < i ==> v.deep_view()[j] != s@,
        decreases v.len() - i,
    {
        if v[i] == *s {
            proof {
                assert(v.deep_view()[i as int] == s@);
            }
            return true;
        }
        i += 1;
    }
    false
}

/// Whether `v` holds a result whose URL equals `url`.
pub(crate) fn contains_result_url(v: &Vec<PageResult>, url: &String) -> (r: bool)
    ensures
        r == result_urls(v@).contains(url@),
{
    let mut i: usize = 0;
    while i < v.len()
        invariant
            i <= v.len(),
            forall|j: int| 0 <= j < i ==> result_urls(v@)[j] != url@,
        decreases v.len() - i,
    {
        if v[i].url == *url {
            proof {
                assert(result_urls(v@)[i as int] == url@);
            }
            return true;
        }
        i += 1;
    }
    false
}

/// The first value in `table` whose key equals `key`, `None` when no key
/// matches.
pub open spec fn spec_lookup(table: Seq<(Seq<char>, Seq<char>)>, key: Seq<char>) -> Option<
    Seq<char>,
>
    decreases table.len(),
{
    if table.len() == 0 {
        None
    } else if table.first().0 == key {
        Some(table.first().1)
    } else {
        spec_lookup(table.drop_first(), key)
    }
}

/// What one recorded page must look like after a crawl against a fixed
/// page table: its URL has a page in the table, its title is that page's
/// title (or the URL itself when the page has none), and its content is
/// that page's cleaned body.
pub open spec fn entry_matches_table(table: Seq<(Seq<char>, Seq<char>)>, e: PageResult) -> bool {
    match spec_lookup(table, e.url@) {
        Some(raw) => e.title@ == crate::content::spec_title(e.url@, raw) && e.content@
            == crate::content::cleaned_body(raw),
        None => false,
    }
}

/// The first page in `table` stored under the URL `key`.
fn lookup_page<'a>(table: &'a Vec<(String, String)>, key: &String) -> (r: Option<&'a String>)
    ensures
        match r {
            Some(v) => spec_lookup(table.deep_view(), key@) == Some(v@),
            None => spec_lookup(table.deep_view(), key@) is None,
        },
{
    let ghost t0 = table.deep_view();
    proof {
        assert(t0.skip(0) =~= t0);
    }
    let mut i: usize = 0;
    while i < table.len()
        invariant
            i <= table@.len(),
            t0 == table.deep_view(),
            t0.len() == table@.len(),
            spec_lookup(t0, key@) == spec_lookup(t0.skip(i as int), key@),
        decreases table@.len() - i,
    {
        proof {
            assert(t0.skip(i as int)[0] == t0[0 + i]);
            assert(t0[i as int] == table@[i as int].deep_view());
            assert(t0.skip(i as int).drop_first() =~= t0.skip(i + 1));
        }
        if table[i].0 == *key {
            return Some(&table[i].1);
        }
        i += 1;
    }
    None
}

/// Runs one whole crawl against a fixed table of pages, with no network:
/// each table entry maps a URL to the raw HTML a successful fetch of that
/// URL returns, and a URL absent from the table behaves as a failed fetch,
/// yielding no result and halting nothing else. The output holds at most
/// `max_pages` entries, with distinct same-origin URLs, each entry produced
/// from the table page stored under its URL.
pub fn crawl_pages(
    start_url: &str,
    pages: &Vec<(String, String)>,
    batch_size: usize,
    max_pages: usize,
) -> (r: Result<Vec<PageResult>, CrawlError>)
    ensures
        r is Ok <==> host_of(start_url@) is Some,
        match r {
            Ok(out) => {
                &&& result_urls(out@).no_duplicates()
                &&& out@.len() <= max_pages
                &&& forall|i: int|
                    0 <= i < out@.len() ==> host_of((#[trigger] out@[i]).url@) == host_of(
                        start_url@,
                    )
                &&& forall|i: int|
                    0 <= i < out@.len() ==> entry_matches_table(
                        pages.deep_view(),
                        #[trigger] out@[i],
                    )
                &&& (batch_size >= 1 && max_pages >= 1 && spec_lookup(
                    pages.deep_view(),
                    start_url@,
                ) is Some) ==> result_urls(out@).contains(start_url@)
            },
            Err(e) => e == CrawlError::InvalidStartUrl,
        },
{
    let mut crawler = match Crawler::new(start_url, batch_size, max_pages) {
        Ok(c) => c,
        Err(e) => {
            return Err(e);
        },
    };
    let base = crawler.base_url.clone();
    let domain = crawler.base_domain.clone();
    loop
        invariant
            crawler.wf(),
            crawler.max_pages == max_pages,
            crawler.batch_size == batch_size,
            base@ == crawler.base_url@,
            domain@ == crawler.base_domain@,
            Some(crawler.base_domain@) == host_of(start_url@),
            forall|i: int|
                0 <= i < crawler.output@.len() ==> crawler.visited_urls().contains(
                    (#[trigger] crawler.output@[i]).url@,
                ),
            forall|i: int|
                0 <= i < crawler.output@.len() ==> entry_matches_table(
                    pages.deep_view(),
                    #[trigger] crawler.output@[i],
                ),
            (batch_size >= 1 && max_pages >= 1) ==> (crawler.visited_urls().contains(start_url@)
                || (crawler.frontier().len() > 0 && crawler.frontier()[0] == start_url@
                && crawler.visited@.len() < max_pages)),
            (crawler.visited_urls().contains(start_url@) && spec_lookup(
                pages.deep_view(),
                start_url@,
            ) is Some) ==> crawler.output_urls().contains(start_url@),
        ensures
            (batch_size >= 1 && max_pages >= 1) ==> crawler.visited_urls().contains(start_url@),
        decreases crawler.max_pages - crawler.visited@.len(),
    {
        let ghost pre = crawler;
        let batch = crawler.next_batch();
        if batch.len() == 0 {
            proof {
                assert(crawler.visited_urls() =~= pre.visited_urls() + batch.deep_view());
                assert(crawler.visited_urls() =~= pre.visited_urls());
                if batch_size >= 1 && max_pages >= 1 {
                    if !pre.visited_urls().contains(start_url@) {
                        assert(pre.frontier().len() > 0 && pre.visited@.len() < max_pages);
                        assert(false);
                    }
                    assert(crawler.visited_urls().contains(start_url@)) by {
                        let idx = choose|idx: int|
                            0 <= idx < pre.visited_urls().len() && pre.visited_urls()[idx]
                                == start_url@;
                        assert(crawler.visited_urls()[idx] == start_url@);
                    }
                }
            }
            break;
        }
        proof {
            if batch_size >= 1 && max_pages >= 1 && !pre.visited_urls().contains(start_url@) {
                assert(spec_drain_len(pre) >= 1);
                assert(batch.deep_view()[0] == pre.frontier().take(spec_drain_len(pre))[0]);
                assert(batch.deep_view()[0] == start_url@);
                assert(crawler.visited_urls().contains(start_url@));
            }
        }
        let ghost vis_after = crawler.visited_urls();
        let ghost out_pre = crawler.output@;
        proof {
            assert forall|i: int| 0 <= i < out_pre.len() implies vis_after.contains(
                (#[trigger] out_pre[i]).url@,
            ) by {
                assert(pre.visited_urls().contains(out_pre[i].url@));
                let idx = choose|idx: int|
                    0 <= idx < pre.visited_urls().len() && pre.visited_urls()[idx]
                        == out_pre[i].url@;
                assert(vis_after[idx] == out_pre[i].url@);
            }
        }
        let mut results: Vec<PageResult> = Vec::new();
        let mut links: Vec<String> = Vec::new();
        let mut i: usize = 0;
        while i < batch.len()
            invariant
                i <= batch@.len(),
                base@ == crawler.base_url@,
                domain@ == crawler.base_domain@,
                forall|j: int|
                    0 <= j < batch@.len() ==> vis_after.contains(#[trigger] batch.deep_view()[j]),
                forall|j: int|
                    0 <= j < results@.len() ==> vis_after.contains(
                        (#[trigger] results@[j]).url@,
                    ),
                forall|j: int|
                    0 <= j < results@.len() ==> entry_matches_table(
                        pages.deep_view(),
                        #[trigger] results@[j],
                    ),
                forall|t: int|
                    0 <= t < i ==> (spec_lookup(
                        pages.deep_view(),
                        #[trigger] batch.deep_view()[t],
                    ) is Some ==> result_urls(results@).contains(batch.deep_view()[t])),
            decreases batch@.len() - i,
        {
            let url = &batch[i];
            proof {
                assert(url@ == batch.deep_view()[i as int]);
            }
            match lookup_page(pages, url) {
                Some(raw) => {
                    let (res, mut newlinks) = crate::batch::process_page(
                        url.as_str(),
                        200,
                        raw.as_str(),
                        base.as_str(),
                        domain.as_str(),
                    );
                    if let Some(p) = res {
                        proof {
                            assert(p.url@ == batch.deep_view()[i as int]);
                            assert(entry_matches_table(pages.deep_view(), p));
                        }
                        let ghost pold = p;
                        let ghost rs_pre = results@;
                        results.push(p);
                        proof {
                            assert forall|t: int| 0 <= t < i + 1 implies (spec_lookup(
                                pages.deep_view(),
                                #[trigger] batch.deep_view()[t],
                            ) is Some ==> result_urls(results@).contains(
                                batch.deep_view()[t],
                            )) by {
                                if t == i {
                                    assert(result_urls(results@)[results@.len() - 1]
                                        == pold.url@);
                                } else if spec_lookup(
                                    pages.deep_view(),
                                    batch.deep_view()[t],
                                ) is Some {
                                    assert(result_urls(rs_pre).contains(batch.deep_view()[t]));
                                    let idx = choose|idx: int|
                                        0 <= idx < result_urls(rs_pre).len() && result_urls(
                                            rs_pre,
                                        )[idx] == batch.deep_view()[t];
                                    assert(results@[idx] == rs_pre[idx]);
                                    assert(result_urls(results@)[idx] == batch.deep_view()[t]);
                                }
                            }
                        }
                    }
                    links.append(&mut newlinks);
                },
                None => {},
            }
            i += 1;
        }
        let ghost rs = results@;
        crawler.record_batch(results, links);
        proof {
            assert(crawler.visited_urls() == vis_after);
            if batch_size >= 1 && max_pages >= 1 {
                if pre.visited_urls().contains(start_url@) {
                    let idx = choose|idx: int|
                        0 <= idx < pre.visited_urls().len() && pre.visited_urls()[idx]
                            == start_url@;
                    assert(vis_after[idx] == start_url@);
                }
                assert(crawler.visited_urls().contains(start_url@));
            }
            if crawler.visited_urls().contains(start_url@) && spec_lookup(
                pages.deep_view(),
                start_url@,
            ) is Some {
                if pre.visited_urls().contains(start_url@) {
                    assert(pre.output_urls().contains(start_url@));
                    lemma_merge_keys(out_pre, rs, start_url@);
                } else {
                    let idx = choose|idx: int|
                        0 <= idx < vis_after.len() && vis_after[idx] == start_url@;
                    if idx < pre.visited_urls().len() {
                        assert(pre.visited_urls().contains(start_url@));
                        assert(false);
                    }
                    assert(batch.deep_view()[idx - pre.visited_urls().len()] == start_url@);
                    assert(result_urls(rs).contains(start_url@));
                    lemma_merge_keys(out_pre, rs, start_url@);
                }
                assert(crawler.output_urls().contains(start_url@));
            }
            lemma_merge_membership(out_pre, rs);
            assert forall|i: int| 0 <= i < crawler.output@.len() implies crawler
                .visited_urls()
                .contains((#[trigger] crawler.output@[i]).url@) && entry_matches_table(
                pages.deep_view(),
                crawler.output@[i],
            ) by {
                assert(crawler.output@ == spec_merge(out_pre, rs));
                assert(out_pre.contains(crawler.output@[i]) || rs.contains(crawler.output@[i]));
                if out_pre.contains(crawler.output@[i]) {
                    let idx = choose|idx: int|
                        0 <= idx < out_pre.len() && out_pre[idx] == crawler.output@[i];
                    assert(vis_after.contains(out_pre[idx].url@));
                    assert(entry_matches_table(pages.deep_view(), out_pre[idx]));
                } else {
                    let idx = choose|idx: int| 0 <= idx < rs.len() && rs[idx] == crawler.output@[i];
                    assert(vis_after.contains(rs[idx].url@));
                    assert(entry_matches_table(pages.deep_view(), rs[idx]));
                }
            }
        }
    }
    proof {
        assert forall|i: int| 0 <= i < result_urls(crawler.output@).len() implies crawler
            .visited_urls()
            .contains(#[trigger] result_urls(crawler.output@)[i]) by {
            assert(result_urls(crawler.output@)[i] == crawler.output@[i].url@);
        }
        lemma_distinct_in_pool(result_urls(crawler.output@), crawler.visited_urls());
        assert forall|i: int| 0 <= i < crawler.output@.len() implies host_of(
            (#[trigger] crawler.output@[i]).url@,
        ) == host_of(start_url@) by {
            let u = crawler.output@[i].url@;
            assert(crawler.visited_urls().contains(u));
            let idx = choose|idx: int|
                0 <= idx < crawler.visited_urls().len() && crawler.visited_urls()[idx] == u;
            assert(host_of(crawler.visited_urls()[idx]) == Some(crawler.base_domain@));
        }
        assert(crawler.output@.len() == result_urls(crawler.output@).len());
    }
    Ok(crawler.into_output())
}

} // verus!
