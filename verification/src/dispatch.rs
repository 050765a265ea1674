//! Claim arbitration for concurrent task execution: every resource carries a
//! reader count and a writer flag, claims are granted all-or-nothing, a
//! writer claim strictly excludes any concurrent reader or writer claim on
//! the same resource, and reader claims on one resource may coexist. A
//! critical-section claim takes the whole resource map at once, for bulk
//! world mutation that must not interleave with any per-resource task.

use vstd::prelude::*;

use crate::resource::ResourceId;

verus! {

/// One task's claim request: the resources it needs for shared reading and
/// those it needs exclusively.
pub struct ClaimRequest {
    /// Resources claimed for shared reading.
    pub reads: Vec<ResourceId>,
    /// Resources claimed exclusively.
    pub writes: Vec<ResourceId>,
}

/// Whether the request claims `id` for shared reading.
pub open spec fn req_reads(rq: ClaimRequest, id: int) -> bool {
    exists|k: int| 0 <= k < rq.reads@.len() && (#[trigger] rq.reads@[k]) as int == id
}

/// Whether the request claims `id` exclusively.
pub open spec fn req_writes(rq: ClaimRequest, id: int) -> bool {
    exists|k: int| 0 <= k < rq.writes@.len() && (#[trigger] rq.writes@[k]) as int == id
}

/// A request is well-formed for an arbiter of `n` resources when every
/// claimed id exists, no id is claimed twice, and no id is claimed both ways.
pub open spec fn request_wf(rq: ClaimRequest, n: int) -> bool {
    &&& rq.reads@.no_duplicates()
    &&& rq.writes@.no_duplicates()
    &&& forall|k: int| 0 <= k < rq.reads@.len() ==> ((#[trigger] rq.reads@[k]) as int) < n
    &&& forall|k: int| 0 <= k < rq.writes@.len() ==> ((#[trigger] rq.writes@[k]) as int) < n
    &&& forall|k1: int, k2: int|
        0 <= k1 < rq.reads@.len() && 0 <= k2 < rq.writes@.len() ==> (#[trigger] rq.reads@[k1]) != (
        #[trigger] rq.writes@[k2])
}

/// The claims currently held against each resource: how many readers hold it
/// and whether a writer holds it. The arbiter grants a request only when
/// every claim in it can be granted at once.
pub struct ResourceClaims {
    /// Number of reader claims held per resource id.
    pub readers: Vec<usize>,
    /// Whether a writer claim is held per resource id.
    pub writers: Vec<bool>,
}

impl ResourceClaims {
    /// A writer claim on a resource excludes every reader claim on it.
    pub open spec fn wf(&self) -> bool {
        &&& self.readers@.len() == self.writers@.len()
        &&& forall|i: int|
            0 <= i < self.writers@.len() && self.writers@[i] ==> (#[trigger] self.readers@[i])
                == 0
    }

    /// Number of resources under arbitration.
    pub open spec fn n_resources(&self) -> int {
        self.readers@.len() as int
    }

    /// Whether any reader claim is held on `id`.
    pub open spec fn read_held(&self, id: int) -> bool {
        self.readers@[id] > 0
    }

    /// Whether a writer claim is held on `id`.
    pub open spec fn write_held(&self, id: int) -> bool {
        self.writers@[id]
    }

    /// Whether every claim of `rq` can be granted at once: a requested read
    /// must not meet a held writer claim, and a requested write must not meet
    /// any held claim.
    pub open spec fn spec_can_grant(&self, rq: ClaimRequest) -> bool {
        &&& forall|id: int| 0 <= id < self.n_resources() && req_reads(rq, id) ==> !(
        #[trigger] self.write_held(id))
        &&& forall|id: int|
            0 <= id < self.n_resources() && req_writes(rq, id) ==> !(#[trigger] self.write_held(
                id,
            )) && !self.read_held(id)
    }

    /// An arbiter over `n_resources` resources with no claims held.
    pub fn new(n_resources: usize) -> (r: Self)
        ensures
            r.wf(),
            r.n_resources() == n_resources as int,
            forall|id: int| 0 <= id < n_resources as int ==> !(#[trigger] r.read_held(id)),
            forall|id: int| 0 <= id < n_resources as int ==> !(#[trigger] r.write_held(id)),
    {
        let mut readers: Vec<usize> = Vec::new();
        let mut writers: Vec<bool> = Vec::new();
        let mut i: usize = 0;
        while i < n_resources
            invariant
                i <= n_resources,
                readers@.len() == i as int,
                writers@.len() == i as int,
                forall|j: int| 0 <= j < i as int ==> (#[trigger] readers@[j]) == 0,
                forall|j: int| 0 <= j < i as int ==> !(#[trigger] writers@[j]),
            decreases n_resources - i,
        {
            readers.push(0);
            writers.push(false);
            i = i + 1;
        }
        ResourceClaims { readers, writers }
    }

    /// Whether every claim of `rq` can be granted at once, without granting
    /// anything.
    pub fn can_grant(&self, rq: &ClaimRequest) -> (r: bool)
        requires
            self.wf(),
            request_wf(*rq, self.n_resources()),
        ensures
            r == self.spec_can_grant(*rq),
    {
        let mut k: usize = 0;
        while k < rq.reads.len()
            invariant
                self.wf(),
                request_wf(*rq, self.n_resources()),
                k <= rq.reads@.len(),
                forall|m: int|
                    0 <= m < k as int ==> !self.write_held((#[trigger] rq.reads@[m]) as int),
            decreases rq.reads@.len() - k,
        {
            let id = rq.reads[k];
            if self.writers[id] {
                proof {
                    assert(req_reads(*rq, id as int)) by {
                        assert((rq.reads@[k as int]) as int == id as int);
                    }
                    assert((rq.reads@[k as int] as int) < self.n_resources());
                    assert(self.write_held(id as int));
                    lemma_claim_blocked(*self, *rq, id as int);
                }
                return false;
            }
            k = k + 1;
        }
        let mut k: usize = 0;
        while k < rq.writes.len()
            invariant
                self.wf(),
                request_wf(*rq, self.n_resources()),
                k <= rq.writes@.len(),
                forall|m: int|
                    0 <= m < k as int ==> !self.write_held((#[trigger] rq.writes@[m]) as int)
                        && !self.read_held((rq.writes@[m]) as int),
            decreases rq.writes@.len() - k,
        {
            let id = rq.writes[k];
            if self.writers[id] || self.readers[id] > 0 {
                proof {
                    assert(req_writes(*rq, id as int)) by {
                        assert((rq.writes@[k as int]) as int == id as int);
                    }
                    assert((rq.writes@[k as int] as int) < self.n_resources());
                    assert(self.write_held(id as int) || self.read_held(id as int));
                    lemma_claim_blocked(*self, *rq, id as int);
                }
                return false;
            }
            k = k + 1;
        }
        proof {
            assert forall|id: int|
                0 <= id < self.n_resources() && req_reads(*rq, id) implies !(
            #[trigger] self.write_held(id)) by {
                let m = choose|m: int|
                    0 <= m < rq.reads@.len() && (#[trigger] rq.reads@[m]) as int == id;
            }
            assert forall|id: int|
                0 <= id < self.n_resources() && req_writes(*rq, id) implies !(
            #[trigger] self.write_held(id)) && !self.read_held(id) by {
                let m = choose|m: int|
                    0 <= m < rq.writes@.len() && (#[trigger] rq.writes@[m]) as int == id;
            }
        }
        true
    }
}

/// `post` holds exactly the claims of `pre` plus those of `rq`: one more
/// reader claim on every requested read, a writer claim on every requested
/// write, and nothing else changed.
pub open spec fn granted_from(pre: ResourceClaims, post: ResourceClaims, rq: ClaimRequest) -> bool {
    &&& post.readers@.len() == pre.readers@.len()
    &&& post.writers@.len() == pre.writers@.len()
    &&& forall|id: int|
        0 <= id < pre.n_resources() ==> (#[trigger] post.readers@[id]) as int == if req_reads(
            rq,
            id,
        ) {
            pre.readers@[id] + 1
        } else {
            pre.readers@[id] as int
        }
    &&& forall|id: int|
        0 <= id < pre.n_resources() ==> (#[trigger] post.writers@[id]) == (pre.writers@[id]
            || req_writes(rq, id))
}

/// `post` holds exactly the claims of `pre` minus those of `rq`.
pub open spec fn released_from(pre: ResourceClaims, post: ResourceClaims, rq: ClaimRequest) -> bool {
    &&& post.readers@.len() == pre.readers@.len()
    &&& post.writers@.len() == pre.writers@.len()
    &&& forall|id: int|
        0 <= id < pre.n_resources() ==> (#[trigger] post.readers@[id]) as int == if req_reads(
            rq,
            id,
        ) {
            pre.readers@[id] - 1
        } else {
            pre.readers@[id] as int
        }
    &&& forall|id: int|
        0 <= id < pre.n_resources() ==> (#[trigger] post.writers@[id]) == (pre.writers@[id]
            && !req_writes(rq, id))
}

impl ResourceClaims {
    /// Grants every claim of `rq` atomically. Only a grantable request may be
    /// acquired: the caller decides readiness with `can_grant` first, and a
    /// task becomes runnable only when all of its claims are granted at once.
    pub fn acquire_all(&mut self, rq: &ClaimRequest)
        requires
            old(self).wf(),
            request_wf(*rq, old(self).n_resources()),
            old(self).spec_can_grant(*rq),
            forall|id: int|
                0 <= id < old(self).n_resources() ==> (#[trigger] old(self).readers@[id])
                    < usize::MAX,
        ensures
            final(self).wf(),
            granted_from(*old(self), *final(self), *rq),
    {
        let ghost pre = *self;
        let mut k: usize = 0;
        while k < rq.reads.len()
            invariant
                pre.wf(),
                request_wf(*rq, pre.n_resources()),
                k <= rq.reads@.len(),
                self.readers@.len() == pre.readers@.len(),
                self.writers@ == pre.writers@,
                forall|id: int|
                    0 <= id < pre.n_resources() ==> (#[trigger] pre.readers@[id]) < usize::MAX,
                forall|id: int|
                    0 <= id < pre.n_resources() ==> (#[trigger] self.readers@[id]) as int == if (
                    exists|m: int|
                        0 <= m < k as int && (#[trigger] rq.reads@[m]) as int == id) {
                        pre.readers@[id] + 1
                    } else {
                        pre.readers@[id] as int
                    },
            decreases rq.reads@.len() - k,
        {
            let id = rq.reads[k];
            let count = self.readers[id];
            proof {
                assert((rq.reads@[k as int]) as int == id as int);
                assert(!(exists|m: int|
                    0 <= m < k as int && (#[trigger] rq.reads@[m]) as int == id as int)) by {
                    if exists|m: int|
                        0 <= m < k as int && (#[trigger] rq.reads@[m]) as int == id as int {
                        let m = choose|m: int|
                            0 <= m < k as int && (#[trigger] rq.reads@[m]) as int == id as int;
                        assert(rq.reads@[m] != rq.reads@[k as int]);
                    }
                }
            }
            self.readers.set(id, count + 1);
            proof {
                assert forall|id2: int|
                    0 <= id2 < pre.n_resources() implies (#[trigger] self.readers@[id2]) as int
                    == if (exists|m: int|
                    0 <= m < (k as int) + 1 && (#[trigger] rq.reads@[m]) as int == id2) {
                    pre.readers@[id2] + 1
                } else {
                    pre.readers@[id2] as int
                } by {
                    if id2 == id as int {
                        assert(rq.reads@[k as int] as int == id2);
                    } else {
                        if exists|m: int|
                            0 <= m < (k as int) + 1 && (#[trigger] rq.reads@[m]) as int == id2 {
                            let m = choose|m: int|
                                0 <= m < (k as int) + 1 && (#[trigger] rq.reads@[m]) as int == id2;
                            assert(m < k as int);
                        }
                    }
                }
            }
            k = k + 1;
        }
        proof {
            assert forall|id: int|
                0 <= id < pre.n_resources() implies (#[trigger] self.readers@[id]) as int
                == if req_reads(*rq, id) {
                pre.readers@[id] + 1
            } else {
                pre.readers@[id] as int
            } by {}
        }
        let mut k: usize = 0;
        while k < rq.writes.len()
            invariant
                pre.wf(),
                request_wf(*rq, pre.n_resources()),
                k <= rq.writes@.len(),
                self.readers@.len() == pre.readers@.len(),
                self.writers@.len() == pre.writers@.len(),
                forall|id: int|
                    0 <= id < pre.n_resources() ==> (#[trigger] self.readers@[id]) as int
                        == if req_reads(*rq, id) {
                        pre.readers@[id] + 1
                    } else {
                        pre.readers@[id] as int
                    },
                forall|id: int|
                    0 <= id < pre.n_resources() ==> (#[trigger] self.writers@[id]) == (
                    pre.writers@[id] || exists|m: int|
                        0 <= m < k as int && (#[trigger] rq.writes@[m]) as int == id),
            decreases rq.writes@.len() - k,
        {
            let id = rq.writes[k];
            self.writers.set(id, true);
            proof {
                assert((rq.writes@[k as int]) as int == id as int);
                assert forall|id2: int|
                    0 <= id2 < pre.n_resources() implies (#[trigger] self.writers@[id2]) == (
                pre.writers@[id2] || exists|m: int|
                    0 <= m < (k as int) + 1 && (#[trigger] rq.writes@[m]) as int == id2) by {
                    if id2 != id as int {
                        if exists|m: int|
                            0 <= m < (k as int) + 1 && (#[trigger] rq.writes@[m]) as int == id2 {
                            let m = choose|m: int|
                                0 <= m < (k as int) + 1 && (#[trigger] rq.writes@[m]) as int == id2;
                            assert(m < k as int);
                        }
                    }
                }
            }
            k = k + 1;
        }
        proof {
            assert(granted_from(pre, *self, *rq)) by {
                assert forall|id: int|
                    0 <= id < pre.n_resources() implies (#[trigger] self.readers@[id]) as int
                    == if req_reads(*rq, id) {
                    pre.readers@[id] + 1
                } else {
                    pre.readers@[id] as int
                } by {}
                assert forall|id: int|
                    0 <= id < pre.n_resources() implies (#[trigger] self.writers@[id]) == (
                pre.writers@[id] || req_writes(*rq, id)) by {}
            }
            assert(self.wf()) by {
                assert forall|i: int|
                    0 <= i < self.writers@.len() && self.writers@[i] implies (
                #[trigger] self.readers@[i]) == 0 by {
                    if req_writes(*rq, i) {
                        assert(!pre.write_held(i));
                        assert(!pre.read_held(i));
                        assert(!req_reads(*rq, i)) by {
                            if req_reads(*rq, i) {
                                let k1 = choose|k1: int|
                                    0 <= k1 < rq.reads@.len() && (#[trigger] rq.reads@[k1]) as int
                                        == i;
                                let k2 = choose|k2: int|
                                    0 <= k2 < rq.writes@.len() && (#[trigger] rq.writes@[k2]) as int
                                        == i;
                                assert(rq.reads@[k1] == rq.writes@[k2]);
                            }
                        }
                    } else {
                        assert(pre.writers@[i]);
                        assert(pre.readers@[i] == 0);
                        assert(!req_reads(*rq, i)) by {
                            if req_reads(*rq, i) {
                                assert(!pre.write_held(i));
                            }
                        }
                    }
                }
            }
        }
    }

    /// Releases every claim of `rq` when its task body has completed; other
    /// requests blocked on these resources become grantable again.
    pub fn release_all(&mut self, rq: &ClaimRequest)
        requires
            old(self).wf(),
            request_wf(*rq, old(self).n_resources()),
            forall|id: int|
                0 <= id < old(self).n_resources() && req_reads(*rq, id) ==> #[trigger] old(
                    self,
                ).read_held(id),
            forall|id: int|
                0 <= id < old(self).n_resources() && req_writes(*rq, id) ==> #[trigger] old(
                    self,
                ).write_held(id),
        ensures
            final(self).wf(),
            released_from(*old(self), *final(self), *rq),
    {
        let ghost pre = *self;
        let mut k: usize = 0;
        while k < rq.reads.len()
            invariant
                pre.wf(),
                request_wf(*rq, pre.n_resources()),
                k <= rq.reads@.len(),
                self.readers@.len() == pre.readers@.len(),
                self.writers@ == pre.writers@,
                forall|id: int|
                    0 <= id < pre.n_resources() && req_reads(*rq, id) ==> #[trigger] pre.read_held(
                        id,
                    ),
                forall|id: int|
                    0 <= id < pre.n_resources() ==> (#[trigger] self.readers@[id]) as int == if (
                    exists|m: int|
                        0 <= m < k as int && (#[trigger] rq.reads@[m]) as int == id) {
                        pre.readers@[id] - 1
                    } else {
                        pre.readers@[id] as int
                    },
            decreases rq.reads@.len() - k,
        {
            let id = rq.reads[k];
            proof {
                assert((rq.reads@[k as int]) as int == id as int);
                assert(req_reads(*rq, id as int));
                assert(pre.read_held(id as int));
                assert(!(exists|m: int|
                    0 <= m < k as int && (#[trigger] rq.reads@[m]) as int == id as int)) by {
                    if exists|m: int|
                        0 <= m < k as int && (#[trigger] rq.reads@[m]) as int == id as int {
                        let m = choose|m: int|
                            0 <= m < k as int && (#[trigger] rq.reads@[m]) as int == id as int;
                        assert(rq.reads@[m] != rq.reads@[k as int]);
                    }
                }
            }
            let count = self.readers[id];
            self.readers.set(id, count - 1);
            proof {
                assert forall|id2: int|
                    0 <= id2 < pre.n_resources() implies (#[trigger] self.readers@[id2]) as int
                    == if (exists|m: int|
                    0 <= m < (k as int) + 1 && (#[trigger] rq.reads@[m]) as int == id2) {
                    pre.readers@[id2] - 1
                } else {
                    pre.readers@[id2] as int
                } by {
                    if id2 == id as int {
                        assert(rq.reads@[k as int] as int == id2);
                    } else {
                        if exists|m: int|
                            0 <= m < (k as int) + 1 && (#[trigger] rq.reads@[m]) as int == id2 {
                            let m = choose|m: int|
                                0 <= m < (k as int) + 1 && (#[trigger] rq.reads@[m]) as int == id2;
                            assert(m < k as int);
                        }
                    }
                }
            }
            k = k + 1;
        }
        proof {
            assert forall|id: int|
                0 <= id < pre.n_resources() implies (#[trigger] self.readers@[id]) as int
                == if req_reads(*rq, id) {
                pre.readers@[id] - 1
            } else {
                pre.readers@[id] as int
            } by {}
        }
        let mut k: usize = 0;
        while k < rq.writes.len()
            invariant
                pre.wf(),
                request_wf(*rq, pre.n_resources()),
                k <= rq.writes@.len(),
                self.readers@.len() == pre.readers@.len(),
                self.writers@.len() == pre.writers@.len(),
                forall|id: int|
                    0 <= id < pre.n_resources() && req_reads(*rq, id) ==> #[trigger] pre.read_held(
                        id,
                    ),
                forall|id: int|
                    0 <= id < pre.n_resources() ==> (#[trigger] self.readers@[id]) as int
                        == if req_reads(*rq, id) {
                        pre.readers@[id] - 1
                    } else {
                        pre.readers@[id] as int
                    },
                forall|id: int|
                    0 <= id < pre.n_resources() ==> (#[trigger] self.writers@[id]) == (
                    pre.writers@[id] && !(exists|m: int|
                        0 <= m < k as int && (#[trigger] rq.writes@[m]) as int == id)),
            decreases rq.writes@.len() - k,
        {
            let id = rq.writes[k];
            self.writers.set(id, false);
            proof {
                assert((rq.writes@[k as int]) as int == id as int);
                assert forall|id2: int|
                    0 <= id2 < pre.n_resources() implies (#[trigger] self.writers@[id2]) == (
                pre.writers@[id2] && !(exists|m: int|
                    0 <= m < (k as int) + 1 && (#[trigger] rq.writes@[m]) as int == id2)) by {
                    if id2 != id as int {
                        if exists|m: int|
                            0 <= m < (k as int) + 1 && (#[trigger] rq.writes@[m]) as int == id2 {
                            let m = choose|m: int|
                                0 <= m < (k as int) + 1 && (#[trigger] rq.writes@[m]) as int == id2;
                            assert(m < k as int);
                        }
                    }
                }
            }
            k = k + 1;
        }
        proof {
            assert(released_from(pre, *self, *rq)) by {
                assert forall|id: int|
                    0 <= id < pre.n_resources() implies (#[trigger] self.readers@[id]) as int
                    == if req_reads(*rq, id) {
                    pre.readers@[id] - 1
                } else {
                    pre.readers@[id] as int
                } by {}
                assert forall|id: int|
                    0 <= id < pre.n_resources() implies (#[trigger] self.writers@[id]) == (
                pre.writers@[id] && !req_writes(*rq, id)) by {}
            }
            assert(self.wf()) by {
                assert forall|i: int|
                    0 <= i < self.writers@.len() && self.writers@[i] implies (
                #[trigger] self.readers@[i]) == 0 by {
                    assert(pre.writers@[i] && !req_writes(*rq, i));
                    assert(pre.readers@[i] == 0);
                    assert(!req_reads(*rq, i)) by {
                        if req_reads(*rq, i) {
                            assert(pre.read_held(i));
                        }
                    }
                }
            }
        }
    }
}

/// A held claim blocks every overlapping request: a writer claim on a
/// resource excludes any further reader or writer claim on it, and any held
/// claim excludes a further writer claim.
pub proof fn lemma_claim_blocked(c: ResourceClaims, rq: ClaimRequest, id: int)
    requires
        0 <= id < c.n_resources(),
        (req_writes(rq, id) && (c.write_held(id) || c.read_held(id))) || (req_reads(rq, id)
            && c.write_held(id)),
    ensures
        !c.spec_can_grant(rq),
{
    if c.spec_can_grant(rq) {
        if req_writes(rq, id) && (c.write_held(id) || c.read_held(id)) {
            assert(!c.write_held(id) && !c.read_held(id));
        } else {
            assert(!c.write_held(id));
        }
    }
}

/// Whether the request claims `id` at all.
pub open spec fn req_uses(rq: ClaimRequest, id: int) -> bool {
    req_reads(rq, id) || req_writes(rq, id)
}

/// Granting one request never blocks a grantable request for disjoint
/// resources: two tasks with disjoint declared sets are eligible to hold
/// their claims — and so to run — concurrently.
pub proof fn lemma_disjoint_requests_remain_grantable(
    pre: ResourceClaims,
    post: ResourceClaims,
    a: ClaimRequest,
    b: ClaimRequest,
)
    requires
        pre.wf(),
        request_wf(a, pre.n_resources()),
        request_wf(b, pre.n_resources()),
        granted_from(pre, post, a),
        pre.spec_can_grant(b),
        forall|id: int| 0 <= id < pre.n_resources() ==> !(#[trigger] req_uses(a, id) && req_uses(
            b,
            id,
        )),
    ensures
        post.spec_can_grant(b),
{
    assert forall|id: int|
        0 <= id < post.n_resources() && req_reads(b, id) implies !(#[trigger] post.write_held(
        id,
    )) by {
        assert(!pre.write_held(id));
        assert(!(req_uses(a, id) && req_uses(b, id)));
        assert(!req_writes(a, id));
    }
    assert forall|id: int|
        0 <= id < post.n_resources() && req_writes(b, id) implies !(#[trigger] post.write_held(
        id,
    )) && !post.read_held(id) by {
        assert(!pre.write_held(id) && !pre.read_held(id));
        assert(!(req_uses(a, id) && req_uses(b, id)));
        assert(!req_writes(a, id) && !req_reads(a, id));
    }
}

/// While one request's claims are held, a conflicting request — one that
/// uses a resource the first writes, or writes a resource the first reads —
/// cannot be granted: conflicting tasks execute serialized, never
/// concurrently, so no task observes another's partial writes.
pub proof fn lemma_conflicting_request_blocked(
    pre: ResourceClaims,
    post: ResourceClaims,
    a: ClaimRequest,
    b: ClaimRequest,
    id: int,
)
    requires
        pre.wf(),
        request_wf(a, pre.n_resources()),
        granted_from(pre, post, a),
        0 <= id < pre.n_resources(),
        (req_writes(a, id) && req_uses(b, id)) || (req_reads(a, id) && req_writes(b, id)),
    ensures
        !post.spec_can_grant(b),
{
    if req_writes(a, id) {
        assert(post.write_held(id));
        if req_reads(b, id) {
            lemma_claim_blocked(post, b, id);
        } else {
            lemma_claim_blocked(post, b, id);
        }
    } else {
        assert(post.read_held(id)) by {
            assert((post.readers@[id]) as int == pre.readers@[id] + 1);
        }
        lemma_claim_blocked(post, b, id);
    }
}

/// Reader claims coexist: granting a read-only request never blocks another
/// grantable read-only request, even on the same resources.
pub proof fn lemma_readers_coexist(
    pre: ResourceClaims,
    post: ResourceClaims,
    a: ClaimRequest,
    b: ClaimRequest,
)
    requires
        pre.wf(),
        request_wf(a, pre.n_resources()),
        request_wf(b, pre.n_resources()),
        granted_from(pre, post, a),
        pre.spec_can_grant(b),
        a.writes@.len() == 0,
        b.writes@.len() == 0,
    ensures
        post.spec_can_grant(b),
{
    assert forall|id: int|
        0 <= id < post.n_resources() && req_reads(b, id) implies !(#[trigger] post.write_held(
        id,
    )) by {
        assert(!pre.write_held(id));
        assert(!req_writes(a, id));
    }
    assert forall|id: int|
        0 <= id < post.n_resources() && req_writes(b, id) implies !(#[trigger] post.write_held(
        id,
    )) && !post.read_held(id) by {
    }
}

/// The claim set of a critical section: shared access to the entire resource
/// map at once, coarser than per-resource claims, for bulk operations that
/// must not interleave with writers.
pub fn critical_section_read_request(n_resources: usize) -> (rq: ClaimRequest)
    ensures
        request_wf(rq, n_resources as int),
        forall|id: int| 0 <= id < n_resources as int ==> #[trigger] req_reads(rq, id),
        rq.writes@.len() == 0,
    {
    let mut reads: Vec<ResourceId> = Vec::new();
    let mut i: usize = 0;
    while i < n_resources
        invariant
            i <= n_resources,
            reads@.len() == i as int,
            forall|k: int| 0 <= k < i as int ==> (#[trigger] reads@[k]) == k,
        decreases n_resources - i,
    {
        reads.push(i);
        i = i + 1;
    }
    let rq = ClaimRequest { reads, writes: Vec::new() };
    proof {
        assert(rq.reads@.no_duplicates()) by {
            assert forall|k1: int, k2: int|
                0 <= k1 < rq.reads@.len() && 0 <= k2 < rq.reads@.len() && k1 != k2
                    implies rq.reads@[k1] != rq.reads@[k2] by {}
        }
        assert forall|id: int| 0 <= id < n_resources as int implies #[trigger] req_reads(
            rq,
            id,
        ) by {
            assert((rq.reads@[id]) as int == id);
        }
    }
    rq
}

/// The claim set of an exclusive critical section: exclusive access to the
/// entire resource map at once.
pub fn critical_section_write_request(n_resources: usize) -> (rq: ClaimRequest)
    ensures
        request_wf(rq, n_resources as int),
        forall|id: int| 0 <= id < n_resources as int ==> #[trigger] req_writes(rq, id),
        rq.reads@.len() == 0,
    {
    let mut writes: Vec<ResourceId> = Vec::new();
    let mut i: usize = 0;
    while i < n_resources
        invariant
            i <= n_resources,
            writes@.len() == i as int,
            forall|k: int| 0 <= k < i as int ==> (#[trigger] writes@[k]) == k,
        decreases n_resources - i,
    {
        writes.push(i);
        i = i + 1;
    }
    let rq = ClaimRequest { reads: Vec::new(), writes };
    proof {
        assert(rq.writes@.no_duplicates()) by {
            assert forall|k1: int, k2: int|
                0 <= k1 < rq.writes@.len() && 0 <= k2 < rq.writes@.len() && k1 != k2
                    implies rq.writes@[k1] != rq.writes@[k2] by {}
        }
        assert forall|id: int| 0 <= id < n_resources as int implies #[trigger] req_writes(
            rq,
            id,
        ) by {
            assert((rq.writes@[id]) as int == id);
        }
    }
    rq
}

/// Shared cancellation and per-tick context flags for the running dispatcher.
/// The termination flag is checked once per full tick, never mid-task.
pub struct DispatchControl {
    /// Set when the game loop should stop after the current tick.
    pub should_terminate: bool,
    /// The context flags the next tick will run under.
    pub next_frame_context_flags: usize,
}

impl DispatchControl {
    pub fn new(context_flags: usize) -> (r: Self)
        ensures
            !r.should_terminate,
            r.next_frame_context_flags == context_flags,
    {
        DispatchControl { should_terminate: false, next_frame_context_flags: context_flags }
    }

    /// Asks the dispatcher to stop after the current tick.
    pub fn end_game_loop(&mut self)
        ensures
            final(self).should_terminate,
            final(self).next_frame_context_flags == old(self).next_frame_context_flags,
    {
        self.should_terminate = true;
    }

    /// Sets the context flags the next tick will run under.
    pub fn set_next_frame_context_flags(&mut self, context_flags: usize)
        ensures
            final(self).should_terminate == old(self).should_terminate,
            final(self).next_frame_context_flags == context_flags,
    {
        self.next_frame_context_flags = context_flags;
    }
}

} // verus!
