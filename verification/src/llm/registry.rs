//! The providers that are available, by their identifiers.
use vstd::prelude::*;

use crate::llm::provider::LlmProvider;
use crate::text::same;

verus! {

/// A lookup table of providers, keyed by provider id.
pub struct ProviderRegistry<P> {
    ids: Vec<String>,
    providers: Vec<P>,
}

impl<P: LlmProvider> ProviderRegistry<P> {
    /// Each provider stands under its id, and no id occurs twice.
    pub closed spec fn wf(self) -> bool {
        &&& self.ids@.len() == self.providers@.len()
        &&& forall|i: int, j: int|
            0 <= i < j < self.ids@.len() ==> (#[trigger] self.ids@[i])@ != (#[trigger] self.ids@[j])@
        &&& forall|i: int|
            0 <= i < self.ids@.len() ==> (#[trigger] self.ids@[i])@ == self.providers@[i].id_view()
    }

    /// The registered providers by their ids.
    pub closed spec fn view(&self) -> Map<Seq<char>, P> {
        Map::new(
            |id: Seq<char>| exists|i: int| 0 <= i < self.ids@.len() && (#[trigger] self.ids@[i])@ == id,
            |id: Seq<char>| self.providers@[choose|i: int| 0 <= i < self.ids@.len() && (#[trigger] self.ids@[i])@ == id],
        )
    }

    proof fn lemma_at(self, i: int)
        requires
            self.wf(),
            0 <= i < self.ids@.len(),
        ensures
            self@.dom().contains(self.ids@[i]@),
            self@[self.ids@[i]@] == self.providers@[i],
    {
        let id = self.ids@[i]@;
        assert(self.ids@[i]@ == id);
        let k = choose|k: int| 0 <= k < self.ids@.len() && (#[trigger] self.ids@[k])@ == id;
        assert(k == i);
    }

    /// A registry without providers.
    pub fn new() -> (r: Self)
        ensures
            r.wf(),
            r@ == Map::<Seq<char>, P>::empty(),
    {
        let r = ProviderRegistry { ids: Vec::new(), providers: Vec::new() };
        proof {
            assert(r@ =~= Map::<Seq<char>, P>::empty());
        }
        r
    }

    /// The position of an id.
    fn position(&self, id: &str) -> (r: Option<usize>)
        requires
            self.wf(),
        ensures
            match r {
                Some(i) => i < self.ids@.len() && self.ids@[i as int]@ == id@,
                None => !self@.dom().contains(id@),
            },
    {
        let mut i: usize = 0;
        while i < self.ids.len()
            invariant
                i <= self.ids@.len(),
                forall|j: int| 0 <= j < i ==> (#[trigger] self.ids@[j])@ != id@,
            decreases self.ids@.len() - i,
        {
            if same(self.ids[i].as_str(), id) {
                return Some(i);
            }
            i += 1;
        }
        None
    }

    /// Registers a provider under its own id; one that was there under that id
    /// is replaced.
    pub fn register(&mut self, provider: P)
        requires
            old(self).wf(),
        ensures
            final(self).wf(),
            final(self)@ == old(self)@.insert(provider.id_view(), provider),
    {
        let id = provider.provider_id().to_owned();
        let ghost before = *self;
        let ghost p = provider;
        match self.position(id.as_str()) {
            Some(i) => {
                self.providers.set(i, provider);
            },
            None => {
                self.ids.push(id);
                self.providers.push(provider);
            },
        }
        proof {
            let after = *self;
            let key = p.id_view();
            assert forall|k: Seq<char>| after@.dom().contains(k) == before@.insert(key, p).dom().contains(k) by {
                if after@.dom().contains(k) {
                    let i = choose|i: int| 0 <= i < after.ids@.len() && (#[trigger] after.ids@[i])@ == k;
                    if i < before.ids@.len() {
                        assert(before.ids@[i]@ == k);
                    }
                }
                if before@.dom().contains(k) {
                    let i = choose|i: int| 0 <= i < before.ids@.len() && (#[trigger] before.ids@[i])@ == k;
                    assert(after.ids@[i]@ == k);
                }
                if k == key {
                    if !before@.dom().contains(key) {
                        assert(after.ids@[before.ids@.len() as int]@ == key);
                    }
                }
            }
            assert forall|k: Seq<char>| after@.dom().contains(k) implies after@[k] == before@.insert(key, p)[k] by {
                let i = choose|i: int| 0 <= i < after.ids@.len() && (#[trigger] after.ids@[i])@ == k;
                after.lemma_at(i);
                if i < before.ids@.len() {
                    before.lemma_at(i);
                }
            }
            assert(after@ =~= before@.insert(key, p));
        }
    }

    /// The provider under an id.
    pub fn get(&self, provider_id: &str) -> (r: Option<&P>)
        requires
            self.wf(),
        ensures
            match r {
                Some(p) => self@.dom().contains(provider_id@) && *p == self@[provider_id@],
                None => !self@.dom().contains(provider_id@),
            },
    {
        match self.position(provider_id) {
            Some(i) => {
                proof {
                    self.lemma_at(i as int);
                }
                Some(&self.providers[i])
            },
            None => None,
        }
    }

    /// The ids of all registered providers, each once.
    pub fn provider_ids(&self) -> (r: Vec<String>)
        requires
            self.wf(),
        ensures
            forall|id: Seq<char>|
                self@.dom().contains(id) <==> exists|i: int| 0 <= i < r@.len() && (#[trigger] r@[i])@ == id,
            forall|i: int, j: int| 0 <= i < j < r@.len() ==> (#[trigger] r@[i])@ != (#[trigger] r@[j])@,
    {
        let mut out: Vec<String> = Vec::new();
        let mut i: usize = 0;
        while i < self.ids.len()
            invariant
                i <= self.ids@.len(),
                out@ == self.ids@.take(i as int),
            decreases self.ids@.len() - i,
        {
            out.push(self.ids[i].clone());
            i += 1;
            proof {
                assert(self.ids@.take(i as int) =~= self.ids@.take(i - 1).push(self.ids@[i - 1]));
            }
        }
        proof {
            assert(out@ =~= self.ids@);
        }
        out
    }
}

/// Registering again under the same id leaves only the later provider there.
pub proof fn law_register_twice<P: LlmProvider>(m: Map<Seq<char>, P>, a: P, b: P)
    requires
        a.id_view() == b.id_view(),
    ensures
        m.insert(a.id_view(), a).insert(b.id_view(), b) == m.insert(b.id_view(), b),
{
    assert(m.insert(a.id_view(), a).insert(b.id_view(), b) =~= m.insert(b.id_view(), b));
}

} // verus!
