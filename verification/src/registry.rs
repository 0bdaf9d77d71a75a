//! The page registry: an in-memory mapping from recipient-page identifier to
//! that page's credentials and handler, built once at startup and read-only
//! while serving. Registering an id again replaces the earlier binding.

use vstd::prelude::*;
use crate::dispatch::HandlerKind;
use crate::dispatch::HandlerKindV;

verus! {

broadcast use crate::views::lemma_bytes_deep_view;

/// Per-page configuration: the page's outbound credential and its handler.
pub struct PageConfig {
    pub access_token: Vec<u8>,
    pub handler: HandlerKind,
}

/// Spec-level mirror of `PageConfig`.
pub struct PageConfigV {
    pub access_token: Seq<u8>,
    pub handler: HandlerKindV,
}

impl DeepView for PageConfig {
    type V = PageConfigV;

    open spec fn deep_view(&self) -> PageConfigV {
        PageConfigV { access_token: self.access_token@, handler: self.handler.deep_view() }
    }
}

/// The configuration a page id resolves to in a sequence of bindings: that
/// of the first binding whose key matches, if any.
pub open spec fn lookup_spec(bindings: Seq<(Seq<u8>, PageConfigV)>, key: Seq<u8>) -> Option<
    PageConfigV,
>
    decreases bindings.len(),
{
    if bindings.len() == 0 {
        None
    } else if bindings[0].0 == key {
        Some(bindings[0].1)
    } else {
        lookup_spec(bindings.drop_first(), key)
    }
}

/// Page ids occur at most once.
pub open spec fn unique_keys(bindings: Seq<(Seq<u8>, PageConfigV)>) -> bool {
    forall|i: int, j: int| 0 <= i < j < bindings.len() ==> bindings[i].0 != bindings[j].0
}

/// In-memory mapping from page id to its configuration.
pub struct PageRegistry {
    bindings: Vec<(Vec<u8>, PageConfig)>,
}

impl DeepView for PageRegistry {
    type V = Seq<(Seq<u8>, PageConfigV)>;

    closed spec fn deep_view(&self) -> Seq<(Seq<u8>, PageConfigV)> {
        self.bindings.deep_view()
    }
}

/// Looking up any key in bindings extended by one new binding: the new key
/// resolves to the new configuration if it was absent before; other keys
/// resolve as before.
pub proof fn lemma_lookup_push(
    bindings: Seq<(Seq<u8>, PageConfigV)>,
    key: Seq<u8>,
    cfg: PageConfigV,
    probe: Seq<u8>,
)
    requires
        lookup_spec(bindings, key) is None,
    ensures
        lookup_spec(bindings.push((key, cfg)), probe) == if probe == key {
            Some(cfg)
        } else {
            lookup_spec(bindings, probe)
        },
    decreases bindings.len(),
{
    if bindings.len() == 0 {
        assert(bindings.push((key, cfg)).drop_first() =~= bindings);
    } else {
        lemma_lookup_push(bindings.drop_first(), key, cfg, probe);
        assert(bindings.push((key, cfg)).drop_first() =~= bindings.drop_first().push((key, cfg)));
    }
}

/// Replacing the binding at the first index whose key matches: that key now
/// resolves to the new configuration; every other key resolves as before.
pub proof fn lemma_lookup_update(
    bindings: Seq<(Seq<u8>, PageConfigV)>,
    m: int,
    cfg: PageConfigV,
    probe: Seq<u8>,
)
    requires
        0 <= m < bindings.len(),
        forall|i: int| 0 <= i < m ==> bindings[i].0 != bindings[m].0,
    ensures
        lookup_spec(bindings.update(m, (bindings[m].0, cfg)), probe) == if probe == bindings[m].0 {
            Some(cfg)
        } else {
            lookup_spec(bindings, probe)
        },
    decreases bindings.len(),
{
    let updated = bindings.update(m, (bindings[m].0, cfg));
    if m == 0 {
        if probe != bindings[0].0 {
            assert(updated.drop_first() =~= bindings.drop_first());
        }
    } else {
        lemma_lookup_update(bindings.drop_first(), m - 1, cfg, probe);
        assert(updated.drop_first() =~= bindings.drop_first().update(m - 1, (bindings[m].0, cfg)));
    }
}

impl PageRegistry {
    /// Well-formed: page ids are unique.
    pub open spec fn wf(&self) -> bool {
        unique_keys(self.deep_view())
    }

    /// An empty registry.
    pub fn new() -> (r: PageRegistry)
        ensures
            r.wf(),
            r.deep_view() == Seq::<(Seq<u8>, PageConfigV)>::empty(),
    {
        let r = PageRegistry { bindings: Vec::new() };
        proof {
            assert(r.deep_view() =~= Seq::<(Seq<u8>, PageConfigV)>::empty());
        }
        r
    }

    /// Insert or replace the configuration for `page_id` (last write wins):
    /// afterwards `page_id` resolves to exactly the given configuration and
    /// every other id resolves as it did before.
    #[verifier::loop_isolation(false)]
    pub fn register(&mut self, page_id: Vec<u8>, access_token: Vec<u8>, handler: HandlerKind)
        requires
            old(self).wf(),
        ensures
            final(self).wf(),
            lookup_spec(final(self).deep_view(), page_id@) == Some(
                PageConfigV { access_token: access_token@, handler: handler.deep_view() },
            ),
            forall|probe: Seq<u8>|
                probe != page_id@ ==> lookup_spec(final(self).deep_view(), probe) == lookup_spec(
                    old(self).deep_view(),
                    probe,
                ),
    {
        let ghost gcfg = PageConfigV {
            access_token: access_token@,
            handler: handler.deep_view(),
        };
        let cfg = PageConfig { access_token, handler };
        let mut i: usize = 0;
        while i < self.bindings.len()
            invariant
                i <= self.bindings@.len(),
                self == old(self),
                forall|j: int| 0 <= j < i ==> self.deep_view()[j].0 != page_id@,
            decreases self.bindings@.len() - i,
        {
            if bytes_eq(self.bindings[i].0.as_slice(), page_id.as_slice()) {
                let ghost pre = self.deep_view();
                proof {
                    assert(pre[i as int].0 == self.bindings@[i as int].0.deep_view());
                    assert(pre[i as int].0 == page_id@);
                    assert(unique_keys(pre));
                }
                self.bindings.set(i, (page_id, cfg));
                proof {
                    let updated = pre.update(i as int, (pre[i as int].0, gcfg));
                    assert forall|k: int| 0 <= k < self.deep_view().len() implies self.deep_view()[k]
                        == updated[k] by {
                        if k == i as int {
                            assert(self.bindings@[k].0.deep_view() == page_id@);
                            assert(self.bindings@[k].1.deep_view() == gcfg);
                        } else {
                            assert(self.bindings@[k] == old(self).bindings@[k]);
                        }
                    }
                    assert(self.deep_view() =~= updated);
                    lemma_lookup_update(pre, i as int, gcfg, page_id@);
                    assert forall|probe: Seq<u8>| probe != page_id@ implies lookup_spec(
                        self.deep_view(),
                        probe,
                    ) == lookup_spec(pre, probe) by {
                        lemma_lookup_update(pre, i as int, gcfg, probe);
                    }
                    assert forall|a: int, b: int|
                        0 <= a < b < self.deep_view().len() implies self.deep_view()[a].0
                        != self.deep_view()[b].0 by {
                        assert(pre[a].0 != pre[b].0);
                        assert(self.deep_view()[a].0 == pre[a].0);
                        assert(self.deep_view()[b].0 == pre[b].0);
                    }
                }
                return ;
            }
            proof {
                assert(self.deep_view()[i as int].0 == self.bindings@[i as int].0.deep_view());
            }
            i += 1;
        }
        let ghost pre = self.deep_view();
        proof {
            lemma_lookup_none_when_absent(pre, page_id@);
        }
        self.bindings.push((page_id, cfg));
        proof {
            let extended = pre.push((page_id@, gcfg));
            assert forall|k: int| 0 <= k < self.deep_view().len() implies self.deep_view()[k]
                == extended[k] by {
                if k < pre.len() {
                    assert(self.bindings@[k] == old(self).bindings@[k]);
                } else {
                    assert(self.bindings@[k].0.deep_view() == page_id@);
                    assert(self.bindings@[k].1.deep_view() == gcfg);
                }
            }
            assert(self.deep_view() =~= extended);
            assert forall|a: int, b: int|
                0 <= a < b < self.deep_view().len() implies self.deep_view()[a].0
                != self.deep_view()[b].0 by {
                if b < pre.len() {
                    assert(pre[a].0 != pre[b].0);
                } else {
                    assert(pre[a].0 != page_id@);
                }
            }
            lemma_lookup_push(pre, page_id@, gcfg, page_id@);
            assert forall|probe: Seq<u8>| probe != page_id@ implies lookup_spec(
                self.deep_view(),
                probe,
            ) == lookup_spec(pre, probe) by {
                lemma_lookup_push(pre, page_id@, gcfg, probe);
            }
        }
    }

    /// The configuration bound to `page_id`, or `None` when the id is not
    /// registered.
    pub fn lookup(&self, page_id: &[u8]) -> (r: Option<&PageConfig>)
        ensures
            match r {
                Some(cfg) => lookup_spec(self.deep_view(), page_id@) == Some(cfg.deep_view()),
                None => lookup_spec(self.deep_view(), page_id@) is None,
            },
    {
        let mut i: usize = 0;
        while i < self.bindings.len()
            invariant
                i <= self.bindings@.len(),
                forall|j: int| 0 <= j < i ==> self.deep_view()[j].0 != page_id@,
            decreases self.bindings@.len() - i,
        {
            if bytes_eq(self.bindings[i].0.as_slice(), page_id) {
                proof {
                    lemma_lookup_first_hit(self.deep_view(), i as int, page_id@);
                }
                return Some(&self.bindings[i].1);
            }
            i += 1;
        }
        proof {
            lemma_lookup_none_when_absent(self.deep_view(), page_id@);
        }
        None
    }
}

/// A key that matches no binding resolves to `None`.
pub proof fn lemma_lookup_none_when_absent(bindings: Seq<(Seq<u8>, PageConfigV)>, key: Seq<u8>)
    requires
        forall|j: int| 0 <= j < bindings.len() ==> bindings[j].0 != key,
    ensures
        lookup_spec(bindings, key) is None,
    decreases bindings.len(),
{
    if bindings.len() > 0 {
        lemma_lookup_none_when_absent(bindings.drop_first(), key);
    }
}

/// A key whose first match is at index `m` resolves to that binding.
pub proof fn lemma_lookup_first_hit(bindings: Seq<(Seq<u8>, PageConfigV)>, m: int, key: Seq<u8>)
    requires
        0 <= m < bindings.len(),
        bindings[m].0 == key,
        forall|j: int| 0 <= j < m ==> bindings[j].0 != key,
    ensures
        lookup_spec(bindings, key) == Some(bindings[m].1),
    decreases bindings.len(),
{
    if m > 0 {
        lemma_lookup_first_hit(bindings.drop_first(), m - 1, key);
    }
}

/// Plain byte-string equality.
pub fn bytes_eq(a: &[u8], b: &[u8]) -> (r: bool)
    ensures
        r == (a@ == b@),
{
    if a.len() != b.len() {
        return false;
    }
    let mut i: usize = 0;
    while i < a.len()
        invariant
            a@.len() == b@.len(),
            i <= a@.len(),
            forall|j: int| 0 <= j < i ==> a@[j] == b@[j],
        decreases a@.len() - i,
    {
        if a[i] != b[i] {
            return false;
        }
        i += 1;
    }
    proof {
        assert(a@ =~= b@);
    }
    true
}

} // verus!
