//! Memories that are found by similarity.
//!
//! Where no model is at hand, texts are compared by their features: their words
//! and the trigrams of these, each hashed to a signed dimension.
use vstd::prelude::*;

use crate::json::Json;
use crate::outside::{now_unix, unix_nanos};
use crate::table::{Ranked, lemma_permuted, sort};
use crate::text::{chars_of, concat, decimal, lowercase, text_between, to_lower};

verus! {

/// The number of dimensions.
pub const EMBED_DIM: usize = 512;

/// The name under which these features are known in a store.
pub const HASHED_ID: &'static str = "hashed-v1";

/// Whether a character is a letter or a number.
pub uninterp spec fn is_alphanumeric(c: char) -> bool;

/// `char::is_alphanumeric` depends on the character alone.
#[verifier::external_body]
fn char_is_alphanumeric(c: char) -> (r: bool)
    ensures
        r == is_alphanumeric(c),
{
    c.is_alphanumeric()
}

/// The FNV-1a hash of some bytes.
pub open spec fn fnv(bytes: Seq<u8>) -> u64
    decreases bytes.len(),
{
    if bytes.len() == 0 {
        0xcbf29ce484222325
    } else {
        (fnv(bytes.drop_last()) ^ (bytes.last() as u64)).wrapping_mul(0x100000001b3)
    }
}

/// The FNV-1a hash of some bytes.
pub fn fnv1a(bytes: &[u8]) -> (r: u64)
    ensures
        r == fnv(bytes@),
{
    let mut h: u64 = 0xcbf29ce484222325;
    let mut i: usize = 0;
    proof {
        assert(bytes@.take(0).len() == 0);
    }
    while i < bytes.len()
        invariant
            i <= bytes@.len(),
            h == fnv(bytes@.take(i as int)),
        decreases bytes@.len() - i,
    {
        proof {
            assert(bytes@.take(i + 1).drop_last() =~= bytes@.take(i as int));
        }
        h = (h ^ (bytes[i] as u64)).wrapping_mul(0x100000001b3);
        i += 1;
    }
    proof {
        assert(bytes@.take(bytes@.len() as int) =~= bytes@);
    }
    h
}

/// A dimension and whether it counts up.
pub open spec fn feature(token: Seq<char>) -> (usize, bool) {
    let h = fnv(vstd::utf8::encode_utf8(token));
    ((h % 512) as usize, h >= 0x8000_0000_0000_0000)
}

/// The features of the trigrams of a word, up to the one that ends at `n`.
pub open spec fn trigrams(word: Seq<char>, n: int) -> Seq<(usize, bool)>
    decreases n,
{
    if n < 3 || n > word.len() {
        Seq::empty()
    } else {
        trigrams(word, n - 1).push(feature(word.subrange(n - 3, n)))
    }
}

/// The features of a word: its own and those of its trigrams.
pub open spec fn word_features(word: Seq<char>) -> Seq<(usize, bool)> {
    seq![feature(word)] + trigrams(word, word.len() as int)
}

/// The end of the word that begins at `i`.
pub open spec fn word_end(s: Seq<char>, i: int) -> int
    decreases s.len() - i,
{
    if 0 <= i < s.len() && is_alphanumeric(s[i]) {
        word_end(s, i + 1)
    } else {
        i
    }
}

proof fn lemma_word_end(s: Seq<char>, i: int)
    requires
        0 <= i <= s.len(),
    ensures
        i <= word_end(s, i) <= s.len(),
        i < s.len() && is_alphanumeric(s[i]) ==> i < word_end(s, i),
    decreases s.len() - i,
{
    if i < s.len() && is_alphanumeric(s[i]) {
        lemma_word_end(s, i + 1);
    }
}

/// The features of the words from `i` on.
pub open spec fn features_from(s: Seq<char>, i: int) -> Seq<(usize, bool)>
    decreases s.len() - i,
{
    if i < 0 || i >= s.len() {
        Seq::empty()
    } else {
        let e = word_end(s, i);
        if i < e && e <= s.len() {
            word_features(s.subrange(i, e)) + features_from(s, e)
        } else {
            features_from(s, i + 1)
        }
    }
}

/// The features of a text, whatever its case.
pub open spec fn features(text: Seq<char>) -> Seq<(usize, bool)> {
    features_from(lowercase(text), 0)
}

fn make_feature(token: &str) -> (r: (usize, bool))
    ensures
        r == feature(token@),
{
    let h: u64 = fnv1a(token.as_bytes());
    ((h % 512) as usize, h >= 0x8000_0000_0000_0000)
}

/// The features of a text: each a dimension, and whether it counts up or down.
pub fn embed_hashed(text: &str) -> (r: Vec<(usize, bool)>)
    ensures
        r@ == features(text@),
        forall|i: int| 0 <= i < r@.len() ==> (#[trigger] r@[i]).0 < EMBED_DIM,
{
    let lower = to_lower(text);
    let v = chars_of(lower.as_str());
    let ghost s = lowercase(text@);
    let mut out: Vec<(usize, bool)> = Vec::new();
    let mut i: usize = 0;
    proof {
        assert(out@ + features_from(s, 0) =~= features_from(s, 0));
    }
    while i < v.len()
        invariant
            i <= v@.len(),
            v@ == s,
            s == lowercase(text@),
            out@ + features_from(s, i as int) == features(text@),
            forall|k: int| 0 <= k < out@.len() ==> (#[trigger] out@[k]).0 < EMBED_DIM,
        decreases v@.len() - i,
    {
        proof {
            lemma_word_end(s, i as int);
        }
        let mut e: usize = i;
        while e < v.len() && char_is_alphanumeric(v[e])
            invariant
                i <= e <= v@.len(),
                v@ == s,
                word_end(s, i as int) == word_end(s, e as int),
            decreases v@.len() - e,
        {
            e += 1;
        }
        if e == i {
            i += 1;
            continue;
        }
        let ghost word = s.subrange(i as int, e as int);
        let ghost before = out@;
        out.push(make_feature(text_between(&v, i, e).as_str()));
        let n: usize = e - i;
        let mut k: usize = 2;
        proof {
            assert(trigrams(word, 2) =~= Seq::<(usize, bool)>::empty());
            assert(out@ =~= before + (seq![feature(word)] + trigrams(word, 2)));
        }
        while k < n
            invariant
                2 <= k,
                k <= n || k == 2,
                n == e - i,
                i <= e <= v@.len(),
                v@ == s,
                word == s.subrange(i as int, e as int),
                out@ == before + (seq![feature(word)] + trigrams(word, k as int)),
                forall|x: int| 0 <= x < out@.len() ==> (#[trigger] out@[x]).0 < EMBED_DIM,
            decreases n - k,
        {
            let t = text_between(&v, i + k - 2, i + k + 1);
            proof {
                assert(t@ =~= word.subrange(k - 2, k + 1));
                assert(trigrams(word, k + 1) == trigrams(word, k as int).push(
                    feature(word.subrange(k - 2, k + 1)),
                ));
            }
            out.push(make_feature(t.as_str()));
            k += 1;
            proof {
                assert(out@ =~= before + (seq![feature(word)] + trigrams(word, k as int)));
            }
        }
        proof {
            if n < 3 {
                assert(trigrams(word, n as int) =~= Seq::<(usize, bool)>::empty());
            }
            assert(out@ == before + word_features(word));
            assert(out@ + features_from(s, e as int) =~= before + features_from(s, i as int));
        }
        i = e;
    }
    proof {
        assert(features_from(s, i as int) =~= Seq::<(usize, bool)>::empty());
        assert(out@ =~= out@ + features_from(s, i as int));
    }
    out
}

/// What becomes of the memories that a store held.
#[derive(Debug, Clone, Copy, PartialEq, Eq, Structural)]
pub enum Reopening {
    /// There are none, or they cannot be read.
    Fresh,
    /// They are taken as they are.
    Kept,
    /// Their features are made anew.
    Reembedded,
}

/// What becomes of a store in which the memories were made by `found`, where
/// that could be read, when `current` makes them now.
pub open spec fn reopened(found: Option<Seq<char>>, current: Seq<char>) -> Reopening {
    match found {
        None => Reopening::Fresh,
        Some(id) => if id == current {
            Reopening::Kept
        } else {
            Reopening::Reembedded
        },
    }
}

/// What becomes of a store when it is opened.
pub fn reopen(found: Option<&str>, current: &str) -> (r: Reopening)
    ensures
        r == reopened(
            match found {
                Some(f) => Some(f@),
                None => None,
            },
            current@,
        ),
{
    match found {
        None => Reopening::Fresh,
        Some(id) => if crate::text::same(id, current) {
            Reopening::Kept
        } else {
            Reopening::Reembedded
        },
    }
}

/// The name of an agent's store.
pub fn store_file(agent_id: &str) -> (r: String)
    ensures
        r@ == "agent_"@ + agent_id@ + "_semantic.json"@,
{
    let head = concat("agent_", agent_id);
    concat(head.as_str(), "_semantic.json")
}

/// The id of a memory that was stored at a time, in nanoseconds.
pub fn memory_id_at(nanos: u128) -> (r: String)
    ensures
        r@ == "mem-"@ + decimal(nanos as nat),
{
    concat("mem-", crate::text::long_decimal_text(nanos).as_str())
}

// ---------------------------------------------------------------------------
// The memories
// ---------------------------------------------------------------------------

/// A memory. Its vector is kept as the bits of its numbers.
#[derive(Debug)]
pub struct MemoryRecord {
    pub id: String,
    pub text: String,
    pub vector: Vec<u32>,
    pub metadata: Json,
    pub ts: u64,
}

/// The memories of an agent, in the order in which they came.
#[derive(Debug)]
pub struct SemanticMemory {
    pub embedder: String,
    pub records: Vec<MemoryRecord>,
}

/// Where a memory stands and how similar it is; a higher rank is more similar.
#[derive(Debug, Clone, Copy)]
pub struct Scored {
    pub rank: u32,
    pub index: usize,
}

impl Ranked for Scored {
    open spec fn comes_before(a: Scored, b: Scored) -> bool {
        a.rank > b.rank || (a.rank == b.rank && a.index < b.index)
    }

    proof fn order_is_strict(a: Scored, b: Scored, c: Scored) {
    }

    fn ranks_before(&self, other: &Scored) -> (r: bool) {
        self.rank > other.rank || (self.rank == other.rank && self.index < other.index)
    }
}

/// The first of two memories is found before the second: it is more similar, or
/// as similar and older.
pub open spec fn found_before(ranks: Seq<u32>, i: int, j: int) -> bool {
    ranks[i] > ranks[j] || (ranks[i] == ranks[j] && i < j)
}

/// The `k` most similar memories, in order: each is one of them, each is found
/// before the next ones, and before all that are left out.
pub open spec fn is_best(found: Seq<usize>, ranks: Seq<u32>, k: nat) -> bool {
    &&& found.len() == if k < ranks.len() {
        k
    } else {
        ranks.len()
    }
    &&& forall|i: int| 0 <= i < found.len() ==> #[trigger] found[i] < ranks.len()
    &&& forall|i: int, j: int|
        0 <= i < j < found.len() ==> found_before(ranks, #[trigger] found[i] as int, #[trigger] found[j] as int)
    &&& forall|i: int, x: usize|
        0 <= i < found.len() && x < ranks.len() && !found.contains(x) ==> #[trigger] found_before(
            ranks,
            found[i] as int,
            x as int,
        )
}

/// Finds the `k` most similar memories by their ranks.
pub fn best(ranks: &Vec<u32>, k: usize) -> (r: Vec<usize>)
    ensures
        is_best(r@, ranks@, k as nat),
{
    let mut all: Vec<Scored> = Vec::new();
    let mut i: usize = 0;
    while i < ranks.len()
        invariant
            i <= ranks@.len(),
            all@.len() == i,
            forall|j: int| 0 <= j < i ==> (#[trigger] all@[j]).index == j && all@[j].rank == ranks@[j],
        decreases ranks@.len() - i,
    {
        all.push(Scored { rank: ranks[i], index: i });
        i += 1;
    }
    let ghost u = all@;
    let ordered = sort(all);
    let ghost o = ordered@;
    proof {
        assert(u.no_duplicates());
        lemma_permuted(u, o);
        assert forall|j: int| 0 <= j < o.len() implies (#[trigger] o[j]).index < ranks@.len() && o[j].rank
            == ranks@[o[j].index as int] by {
            assert(o.contains(o[j]));
            assert(u.contains(o[j]));
        }
        assert forall|a: int, b: int| 0 <= a < b < o.len() implies found_before(
            ranks@,
            #[trigger] o[a].index as int,
            #[trigger] o[b].index as int,
        ) by {
            assert(!Scored::comes_before(o[b], o[a]));
            assert(o[a] != o[b]);
        }
    }
    let n: usize = if k < ordered.len() {
        k
    } else {
        ordered.len()
    };
    let mut out: Vec<usize> = Vec::new();
    let mut m: usize = 0;
    while m < n
        invariant
            m <= n <= ordered@.len(),
            o == ordered@,
            out@.len() == m,
            forall|j: int| 0 <= j < m ==> #[trigger] out@[j] == o[j].index,
        decreases n - m,
    {
        out.push(ordered[m].index);
        m += 1;
    }
    proof {
        assert forall|a: int, b: int| 0 <= a < b < out@.len() implies found_before(
            ranks@,
            #[trigger] out@[a] as int,
            #[trigger] out@[b] as int,
        ) by {
            assert(found_before(ranks@, o[a].index as int, o[b].index as int));
        }
        assert forall|a: int, x: usize|
            0 <= a < out@.len() && x < ranks@.len() && !out@.contains(x) implies #[trigger] found_before(
            ranks@,
            out@[a] as int,
            x as int,
        ) by {
            let s = u[x as int];
            assert(u.contains(s));
            assert(o.contains(s));
            let b = choose|b: int| 0 <= b < o.len() && o[b] == s;
            if b < n {
                assert(out@[b] == x);
            }
            assert(found_before(ranks@, o[a].index as int, o[b].index as int));
        }
    }
    out
}

impl SemanticMemory {
    /// The memories that a store held, if it could be read.
    pub fn with_embedder(embedder: &str, records: Vec<MemoryRecord>) -> (r: SemanticMemory)
        ensures
            r.embedder@ == embedder@,
            r.records == records,
    {
        SemanticMemory { embedder: embedder.to_owned(), records }
    }

    /// Gives every memory the vector that another maker gives its text.
    pub fn reembed(&mut self, embedder: &str, vectors: Vec<Vec<u32>>)
        requires
            vectors@.len() == old(self).records@.len(),
        ensures
            final(self).embedder@ == embedder@,
            final(self).records@.len() == old(self).records@.len(),
            forall|i: int|
                0 <= i < vectors@.len() ==> #[trigger] final(self).records@[i] == (MemoryRecord {
                    vector: vectors@[i],
                    ..old(self).records@[i]
                }),
    {
        let ghost before = self.records@;
        let ghost all = vectors@;
        let mut rest = vectors;
        let mut i: usize = 0;
        proof {
            assert(rest@ =~= all.skip(0));
        }
        while i < self.records.len()
            invariant
                i <= self.records@.len(),
                self.records@.len() == before.len(),
                all.len() == before.len(),
                rest@ == all.skip(i as int),
                forall|k: int|
                    0 <= k < i ==> #[trigger] self.records@[k] == (MemoryRecord { vector: all[k], ..before[k] }),
                forall|k: int| i <= k < before.len() ==> #[trigger] self.records@[k] == before[k],
            decreases self.records@.len() - i,
        {
            let vector = rest.remove(0);
            self.records[i].vector = vector;
            proof {
                assert(rest@ =~= all.skip(i + 1));
            }
            i += 1;
        }
        self.embedder = embedder.to_owned();
    }

    /// Keeps a text that is stored at a time.
    pub fn store_at(&mut self, text: &str, vector: Vec<u32>, metadata: Json, nanos: u128, now: u64) -> (r: String)
        ensures
            r@ == "mem-"@ + decimal(nanos as nat),
            final(self).embedder == old(self).embedder,
            final(self).records@.len() == old(self).records@.len() + 1,
            final(self).records@.drop_last() == old(self).records@,
            final(self).records@.last().id@ == r@,
            final(self).records@.last().text@ == text@,
            final(self).records@.last().vector == vector,
            final(self).records@.last().metadata == metadata,
            final(self).records@.last().ts == now,
    {
        let id = memory_id_at(nanos);
        self.records.push(MemoryRecord { id: id.clone(), text: text.to_owned(), vector, metadata, ts: now });
        proof {
            assert(self.records@.drop_last() =~= old(self).records@);
        }
        id
    }

    /// Keeps a text now.
    pub fn store(&mut self, text: &str, vector: Vec<u32>, metadata: Json) -> (r: String)
        ensures
            exists|nanos: u128| r@ == "mem-"@ + #[trigger] decimal(nanos as nat),
            final(self).embedder == old(self).embedder,
            final(self).records@.len() == old(self).records@.len() + 1,
            final(self).records@.drop_last() == old(self).records@,
            final(self).records@.last().id@ == r@,
            final(self).records@.last().text@ == text@,
            final(self).records@.last().vector == vector,
            final(self).records@.last().metadata == metadata,
    {
        self.store_at(text, vector, metadata, unix_nanos(), now_unix())
    }

    /// Finds the `k` memories that are most similar, where it is given how
    /// similar each is.
    pub fn search(&self, ranks: &Vec<u32>, k: usize) -> (r: Vec<&MemoryRecord>)
        requires
            ranks@.len() == self.records@.len(),
        ensures
            exists|found: Seq<usize>| #[trigger]
                is_best(found, ranks@, k as nat) && r@.len() == found.len() && forall|i: int|
                    0 <= i < found.len() ==> *(#[trigger] r@[i]) == self.records@[found[i] as int],
    {
        let found = best(ranks, k);
        let mut out: Vec<&MemoryRecord> = Vec::new();
        let mut i: usize = 0;
        while i < found.len()
            invariant
                i <= found@.len(),
                out@.len() == i,
                ranks@.len() == self.records@.len(),
                is_best(found@, ranks@, k as nat),
                forall|j: int| 0 <= j < i ==> *(#[trigger] out@[j]) == self.records@[found@[j] as int],
            decreases found@.len() - i,
        {
            out.push(&self.records[found[i]]);
            i += 1;
        }
        out
    }

    /// The number of memories.
    pub fn len(&self) -> (r: usize)
        ensures
            r == self.records@.len(),
    {
        self.records.len()
    }

    /// Whether there is no memory.
    pub fn is_empty(&self) -> (r: bool)
        ensures
            r == (self.records@.len() == 0),
    {
        self.records.len() == 0
    }
}

/// A search gives one result only.
pub proof fn law_searches_agree(a: Seq<usize>, b: Seq<usize>, ranks: Seq<u32>, k: nat)
    requires
        is_best(a, ranks, k),
        is_best(b, ranks, k),
    ensures
        a == b,
{
    assert forall|i: int| 0 <= i < a.len() implies a[i] == b[i] by {
        lemma_same_prefix(a, b, ranks, k, i + 1);
        assert(a.take(i + 1)[i] == b.take(i + 1)[i]);
    }
    assert(a =~= b);
}

proof fn lemma_same_prefix(a: Seq<usize>, b: Seq<usize>, ranks: Seq<u32>, k: nat, n: int)
    requires
        is_best(a, ranks, k),
        is_best(b, ranks, k),
        0 <= n <= a.len(),
    ensures
        a.take(n) == b.take(n),
    decreases n,
{
    if n > 0 {
        lemma_same_prefix(a, b, ranks, k, n - 1);
        let x = a[n - 1];
        let y = b[n - 1];
        if x != y {
            lemma_precedes(a, b, ranks, k, n - 1);
            lemma_precedes(b, a, ranks, k, n - 1);
        }
        assert(a.take(n) =~= a.take(n - 1).push(x));
        assert(b.take(n) =~= b.take(n - 1).push(y));
    }
}

proof fn lemma_precedes(a: Seq<usize>, b: Seq<usize>, ranks: Seq<u32>, k: nat, n: int)
    requires
        is_best(a, ranks, k),
        is_best(b, ranks, k),
        0 <= n < a.len(),
        a.take(n) == b.take(n),
        a[n] != b[n],
    ensures
        found_before(ranks, a[n] as int, b[n] as int),
{
    let y = b[n];
    if a.contains(y) {
        let j = choose|j: int| 0 <= j < a.len() && a[j] == y;
        if j < n {
            assert(a.take(n)[j] == a[j]);
            assert(b.take(n)[j] == b[j]);
            assert(found_before(ranks, b[j] as int, b[n] as int));
        } else {
            assert(found_before(ranks, a[n] as int, a[j] as int));
        }
    } else {
        assert(found_before(ranks, a[n] as int, y as int));
    }
}

/// What is asked for in greater number begins with what is asked for in smaller
/// number.
pub proof fn law_searches_extend(a: Seq<usize>, b: Seq<usize>, ranks: Seq<u32>, k: nat, m: nat)
    requires
        is_best(a, ranks, k),
        is_best(b, ranks, m),
        k <= m,
    ensures
        a == b.take(a.len() as int),
{
    let c = b.take(a.len() as int);
    assert forall|i: int, x: usize| 0 <= i < c.len() && x < ranks.len() && !c.contains(x) implies #[trigger] found_before(
        ranks,
        c[i] as int,
        x as int,
    ) by {
        if b.contains(x) {
            let j = choose|j: int| 0 <= j < b.len() && b[j] == x;
            if j < c.len() {
                assert(c[j] == x);
            }
            assert(found_before(ranks, b[i] as int, b[j] as int));
        } else {
            assert(found_before(ranks, b[i] as int, x as int));
        }
    }
    assert forall|i: int, j: int| 0 <= i < j < c.len() implies found_before(
        ranks,
        #[trigger] c[i] as int,
        #[trigger] c[j] as int,
    ) by {
        assert(found_before(ranks, b[i] as int, b[j] as int));
    }
    law_searches_agree(a, c, ranks, k);
}

} // verus!
