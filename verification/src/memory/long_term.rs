//! Curated facts that agents keep across sessions.
//!
//! There are never more than `MAX_ENTRIES`: the least used ones leave first, and
//! among those the ones that were used longest ago.
use vstd::prelude::*;

use crate::outside::now_unix;
use crate::table::{Ranked, Table, lemma_permuted, sort};
use crate::text::{chars_of, concat, decimal, decimal_text, join, join_texts, lemma_next_char, lines, lines_of,
    next_char, same, seek_char, trim, trimmed, trimmed_between, views};

verus! {

/// The most entries that are kept.
pub const MAX_ENTRIES: usize = 200;

/// Full confidence, as the bits of a 32-bit float.
pub const FULL_CONFIDENCE: u32 = 0x3f80_0000;

/// What an entry is about.
#[derive(Debug, Clone, Copy, PartialEq, Eq, Structural)]
pub enum MemoryCategory {
    UserPreference,
    ProjectContext,
    Decision,
    Fact,
    Relationship,
    Skill,
}

impl MemoryCategory {
    /// The name of the category.
    pub open spec fn named(self) -> Seq<char> {
        match self {
            MemoryCategory::UserPreference => "UserPreference"@,
            MemoryCategory::ProjectContext => "ProjectContext"@,
            MemoryCategory::Decision => "Decision"@,
            MemoryCategory::Fact => "Fact"@,
            MemoryCategory::Relationship => "Relationship"@,
            MemoryCategory::Skill => "Skill"@,
        }
    }

    /// The name of the category.
    pub fn name(&self) -> (r: &str)
        ensures
            r@ == self.named(),
    {
        match self {
            MemoryCategory::UserPreference => "UserPreference",
            MemoryCategory::ProjectContext => "ProjectContext",
            MemoryCategory::Decision => "Decision",
            MemoryCategory::Fact => "Fact",
            MemoryCategory::Relationship => "Relationship",
            MemoryCategory::Skill => "Skill",
        }
    }
}

/// A fact.
#[derive(Debug)]
pub struct MemoryEntry {
    pub key: String,
    pub value: String,
    pub category: MemoryCategory,
    /// The confidence in it, as the bits of a 32-bit float.
    pub confidence_bits: u32,
    pub created_at: u64,
    pub last_accessed: u64,
    pub access_count: u32,
}

pub struct EntryV {
    pub key: Seq<char>,
    pub value: Seq<char>,
    pub category: MemoryCategory,
    pub confidence_bits: u32,
    pub created_at: u64,
    pub last_accessed: u64,
    pub access_count: u32,
}

impl View for MemoryEntry {
    type V = EntryV;

    open spec fn view(&self) -> EntryV {
        EntryV {
            key: self.key@,
            value: self.value@,
            category: self.category,
            confidence_bits: self.confidence_bits,
            created_at: self.created_at,
            last_accessed: self.last_accessed,
            access_count: self.access_count,
        }
    }
}

impl MemoryEntry {
    /// A copy.
    pub fn copy(&self) -> (r: MemoryEntry)
        ensures
            r@ == self@,
    {
        MemoryEntry {
            key: self.key.clone(),
            value: self.value.clone(),
            category: self.category,
            confidence_bits: self.confidence_bits,
            created_at: self.created_at,
            last_accessed: self.last_accessed,
            access_count: self.access_count,
        }
    }
}

pub open spec fn entry_views(v: Seq<MemoryEntry>) -> Seq<EntryV> {
    v.map_values(|e: MemoryEntry| e@)
}

/// A fact that was set at a time.
pub open spec fn new_entry(key: Seq<char>, value: Seq<char>, category: MemoryCategory, now: u64) -> EntryV {
    EntryV {
        key,
        value,
        category,
        confidence_bits: FULL_CONFIDENCE,
        created_at: now,
        last_accessed: now,
        access_count: 0,
    }
}

/// The first entry is worth less than the second: it was used less often, or as
/// often and longer ago.
pub open spec fn weaker(a: EntryV, b: EntryV) -> bool {
    a.access_count < b.access_count || (a.access_count == b.access_count && a.last_accessed < b.last_accessed)
}

/// The second set of entries is what is left of the first: all of it where it
/// is small enough, else `MAX_ENTRIES` of which none is weaker than one that
/// left. Which of two equal ones left is open.
pub open spec fn pruned(before: Map<Seq<char>, EntryV>, after: Map<Seq<char>, EntryV>) -> bool {
    if before.dom().len() <= MAX_ENTRIES {
        after == before
    } else {
        &&& after.dom().finite()
        &&& after.dom().len() == MAX_ENTRIES
        &&& after.submap_of(before)
        &&& forall|gone: Seq<char>, kept: Seq<char>|
            before.dom().contains(gone) && !after.dom().contains(gone) && after.dom().contains(kept) ==> !weaker(
                #[trigger] before[kept],
                #[trigger] before[gone],
            )
    }
}

/// A key by the worth of its entry.
struct Worth {
    key: String,
    access_count: u32,
    last_accessed: u64,
}

/// The worth of the entry under a key.
spec fn worth_of(w: Worth, key: Seq<char>, m: Map<Seq<char>, EntryV>) -> bool {
    &&& m.dom().contains(key)
    &&& w.key@ == key
    &&& w.access_count == m[key].access_count
    &&& w.last_accessed == m[key].last_accessed
}

impl Ranked for Worth {
    closed spec fn comes_before(a: Worth, b: Worth) -> bool {
        a.access_count < b.access_count || (a.access_count == b.access_count && a.last_accessed < b.last_accessed)
    }

    proof fn order_is_strict(a: Worth, b: Worth, c: Worth) {
    }

    fn ranks_before(&self, other: &Worth) -> (r: bool) {
        self.access_count < other.access_count || (self.access_count == other.access_count && self.last_accessed
            < other.last_accessed)
    }
}

/// The facts, by their keys.
pub struct LongTermMemory {
    storage_path: String,
    entries: Table<MemoryEntry>,
}

/// The lines that show the entries of the given keys, in order.
pub open spec fn shown(order: Seq<Seq<char>>, m: Map<Seq<char>, EntryV>) -> Seq<Seq<char>> {
    order.map_values(
        |k: Seq<char>| "["@ + m[k].category.named() + "] "@ + m[k].key + ": "@ + m[k].value,
    )
}

impl LongTermMemory {
    /// The facts by their keys.
    pub closed spec fn view(&self) -> Map<Seq<char>, EntryV> {
        self.entries@.map_values(|e: MemoryEntry| e@)
    }

    /// The keys in the order in which they were set.
    pub closed spec fn order(&self) -> Seq<Seq<char>> {
        self.entries.order()
    }

    /// Where the facts are kept.
    pub closed spec fn place(&self) -> Seq<char> {
        self.storage_path@
    }

    /// Each fact stands under its own key.
    pub open spec fn wf(&self) -> bool {
        forall|k: Seq<char>| #[trigger] self@.dom().contains(k) ==> self@[k].key == k
    }

    /// No facts yet.
    pub fn new(storage_path: &str) -> (r: LongTermMemory)
        ensures
            r.wf(),
            r@ == Map::<Seq<char>, EntryV>::empty(),
            r.place() == storage_path@,
    {
        let r = LongTermMemory { storage_path: storage_path.to_owned(), entries: Table::new() };
        proof {
            assert(r@ =~= Map::<Seq<char>, EntryV>::empty());
        }
        r
    }

    /// Where the facts are kept.
    pub fn storage_path(&self) -> (r: &str)
        ensures
            r@ == self.place(),
    {
        self.storage_path.as_str()
    }

    fn put(&mut self, entry: MemoryEntry)
        requires
            old(self).wf(),
        ensures
            final(self).wf(),
            final(self)@ == old(self)@.insert(entry@.key, entry@),
            final(self).place() == old(self).place(),
    {
        let ghost before = self@;
        let key = entry.key.clone();
        self.entries.insert(key, entry);
        proof {
            assert(self@ =~= before.insert(entry@.key, entry@));
        }
    }

    /// Takes a kept fact in.
    pub fn load(&mut self, entry: MemoryEntry)
        requires
            old(self).wf(),
        ensures
            final(self).wf(),
            final(self)@ == old(self)@.insert(entry@.key, entry@),
            final(self).place() == old(self).place(),
    {
        self.put(entry);
    }

    /// The fact under a key, which counts as used at a time.
    pub fn get_at(&mut self, key: &str, now: u64) -> (r: Option<MemoryEntry>)
        requires
            old(self).wf(),
            old(self)@.dom().contains(key@) ==> old(self)@[key@].access_count < u32::MAX,
        ensures
            final(self).wf(),
            final(self).place() == old(self).place(),
            match r {
                Some(e) => {
                    &&& old(self)@.dom().contains(key@)
                    &&& e@ == (EntryV {
                        last_accessed: now,
                        access_count: (old(self)@[key@].access_count + 1) as u32,
                        ..old(self)@[key@]
                    })
                    &&& final(self)@ == old(self)@.insert(key@, e@)
                },
                None => !old(self)@.dom().contains(key@) && final(self)@ == old(self)@,
            },
    {
        let ghost before = self@;
        match self.entries.remove(key) {
            None => {
                proof {
                    assert(self@ =~= before);
                }
                None
            },
            Some(e) => {
                let mut e = e;
                proof {
                    assert(before.dom().contains(key@));
                    assert(e@ == before[key@]);
                    assert(self@ =~= before.remove(key@));
                }
                e.last_accessed = now;
                e.access_count = e.access_count + 1;
                let copy = e.copy();
                self.put(e);
                proof {
                    assert(self@ =~= before.insert(key@, e@));
                }
                Some(copy)
            },
        }
    }

    /// The fact under a key, which counts as used now.
    pub fn get(&mut self, key: &str) -> (r: Option<MemoryEntry>)
        requires
            old(self).wf(),
            old(self)@.dom().contains(key@) ==> old(self)@[key@].access_count < u32::MAX,
        ensures
            final(self).wf(),
            final(self).place() == old(self).place(),
            match r {
                Some(e) => {
                    &&& old(self)@.dom().contains(key@)
                    &&& e@ == (EntryV {
                        last_accessed: e@.last_accessed,
                        access_count: (old(self)@[key@].access_count + 1) as u32,
                        ..old(self)@[key@]
                    })
                    &&& final(self)@ == old(self)@.insert(key@, e@)
                },
                None => !old(self)@.dom().contains(key@) && final(self)@ == old(self)@,
            },
    {
        self.get_at(key, now_unix())
    }

    /// Sets a fact at a time; the weakest fact leaves where there are too many.
    pub fn set_at(&mut self, key: &str, value: &str, category: MemoryCategory, now: u64)
        requires
            old(self).wf(),
        ensures
            final(self).wf(),
            final(self).place() == old(self).place(),
            pruned(old(self)@.insert(key@, new_entry(key@, value@, category, now)), final(self)@),
    {
        self.put(
            MemoryEntry {
                key: key.to_owned(),
                value: value.to_owned(),
                category,
                confidence_bits: FULL_CONFIDENCE,
                created_at: now,
                last_accessed: now,
                access_count: 0,
            },
        );
        self.prune();
    }

    /// Sets a fact now.
    pub fn set(&mut self, key: &str, value: &str, category: MemoryCategory)
        requires
            old(self).wf(),
        ensures
            final(self).wf(),
            final(self).place() == old(self).place(),
            exists|now: u64|
                pruned(old(self)@.insert(key@, #[trigger] new_entry(key@, value@, category, now)), final(self)@),
    {
        self.set_at(key, value, category, now_unix());
    }

    /// Removes a fact.
    pub fn remove(&mut self, key: &str) -> (r: Option<MemoryEntry>)
        requires
            old(self).wf(),
        ensures
            final(self).wf(),
            final(self).place() == old(self).place(),
            final(self)@ == old(self)@.remove(key@),
            match r {
                Some(e) => old(self)@.dom().contains(key@) && e@ == old(self)@[key@],
                None => !old(self)@.dom().contains(key@),
            },
    {
        let ghost before = self@;
        let r = self.entries.remove(key);
        proof {
            assert(self@ =~= before.remove(key@));
        }
        r
    }

    /// Lets the weakest facts leave until there are no more than
    /// `MAX_ENTRIES`.
    pub fn prune(&mut self)
        requires
            old(self).wf(),
        ensures
            final(self).wf(),
            final(self).place() == old(self).place(),
            pruned(old(self)@, final(self)@),
    {
        let n: usize = self.entries.len();
        let ghost before = self@;
        let ghost order = self.entries.order();
        proof {
            assert(before.dom() =~= self.entries@.dom());
        }
        if n <= MAX_ENTRIES {
            return ;
        }
        let mut worths: Vec<Worth> = Vec::new();
        let mut i: usize = 0;
        while i < n
            invariant
                i <= n,
                n == order.len(),
                order == self.entries.order(),
                self.wf(),
                before == self@,
                worths@.len() == i,
                forall|k: int| 0 <= k < i ==> worth_of(#[trigger] worths@[k], order[k], before),
            decreases n - i,
        {
            let e = self.entries.value_at(i);
            proof {
                assert(self.entries@.dom().contains(order[i as int]));
                assert(before.dom().contains(order[i as int]));
                assert(before[order[i as int]] == e@);
                assert(self@.dom().contains(order[i as int]));
                assert(e.key@ == order[i as int]);
            }
            let w = Worth { key: e.key.clone(), access_count: e.access_count, last_accessed: e.last_accessed };
            worths.push(w);
            i += 1;
        }
        let ghost u = worths@;
        proof {
            assert forall|a: int, b: int| 0 <= a < u.len() && 0 <= b < u.len() && a != b implies u[a] != u[b] by {
                assert(order[a] != order[b]);
                assert(u[a].key@ == order[a] && u[b].key@ == order[b]);
            }
        }
        let ranked = sort(worths);
        let evict: usize = n - MAX_ENTRIES;
        proof {
            lemma_permuted(u, ranked@);
            lemma_ranked(u, ranked@, order, before);
        }
        let ghost keys = ranked@.map_values(|w: Worth| w.key@);
        let ghost start = *self;
        let mut j: usize = 0;
        proof {
            assert(before.dom().len() == n);
            assert(keys.take(0).to_set() =~= Set::<Seq<char>>::empty());
            assert(before.remove_keys(keys.take(0).to_set()) =~= before);
        }
        while j < evict
            invariant
                j <= evict <= ranked@.len(),
                evict == n - MAX_ENTRIES,
                ranked@.len() == n,
                keys == ranked@.map_values(|w: Worth| w.key@),
                keys.no_duplicates(),
                forall|k: int| 0 <= k < keys.len() ==> before.dom().contains(#[trigger] keys[k]),
                before.dom().finite(),
                before.dom().len() == n,
                self@ == before.remove_keys(keys.take(j as int).to_set()),
                self@.dom().finite(),
                self@.dom().len() == n - j,
                self.place() == start.place(),
            decreases evict - j,
        {
            let ghost mid = self@;
            let _ = self.entries.remove(ranked[j].key.as_str());
            proof {
                let k = keys[j as int];
                let now_gone = keys.take(j + 1);
                let were_gone = keys.take(j as int);
                assert(k == ranked@[j as int].key@);
                assert(self@ =~= mid.remove(k));
                assert(keys.take(j + 1) =~= keys.take(j as int).push(k));
                assert(!were_gone.contains(k)) by {
                    if were_gone.contains(k) {
                        let x = choose|x: int| 0 <= x < were_gone.len() && were_gone[x] == k;
                        assert(keys[x] == k);
                    }
                }
                assert(mid.dom().contains(k));
                assert(now_gone.to_set() =~= were_gone.to_set().insert(k)) by {
                    assert forall|q: Seq<char>| now_gone.contains(q) <==> (were_gone.contains(q)
                        || q == k) by {
                        if were_gone.contains(q) {
                            let x = choose|x: int| 0 <= x < were_gone.len() && were_gone[x] == q;
                            assert(now_gone[x] == q);
                        }
                        if q == k {
                            assert(now_gone[j as int] == q);
                        }
                        if now_gone.contains(q) && q != k {
                            let x = choose|x: int| 0 <= x < now_gone.len() && now_gone[x] == q;
                            assert(were_gone[x] == q);
                        }
                    }
                }
                assert(self@ =~= before.remove_keys(keys.take(j + 1).to_set()));
                assert(self@.dom() =~= mid.dom().remove(k));
            }
            j += 1;
        }
        proof {
            let gone_keys = keys.take(evict as int);
            assert(self@.submap_of(before));
            assert forall|gone: Seq<char>, kept: Seq<char>|
                before.dom().contains(gone) && !self@.dom().contains(gone) && self@.dom().contains(
                    kept,
                ) implies !weaker(#[trigger] before[kept], #[trigger] before[gone]) by {
                assert(gone_keys.contains(gone));
                let a = choose|a: int| 0 <= a < gone_keys.len() && gone_keys[a] == gone;
                assert(keys[a] == gone);
                assert(keys.contains(kept));
                let b = choose|b: int| 0 <= b < keys.len() && keys[b] == kept;
                assert(b >= evict) by {
                    if b < evict {
                        assert(gone_keys[b] == kept);
                        assert(gone_keys.to_set().contains(kept));
                    }
                }
                assert(!Worth::comes_before(ranked@[b], ranked@[a]));
            }
            assert forall|k: Seq<char>| #[trigger] self@.dom().contains(k) implies self@[k].key == k by {
                assert(before.dom().contains(k));
            }
        }
    }

    /// Whether merging facts is worth while.
    pub fn needs_consolidation(&self) -> (r: bool)
        ensures
            r == (self@.dom().len() >= 150),
    {
        let n: usize = self.entries.len();
        proof {
            assert(self@.dom() =~= self.entries@.dom());
        }
        n >= MAX_ENTRIES * 3 / 4
    }

    /// Copies of all facts, in the order in which they were set.
    pub fn entries(&self) -> (r: Vec<MemoryEntry>)
        ensures
            entry_views(r@) == self.order().map_values(|k: Seq<char>| self@[k]),
            self.order().no_duplicates(),
            self.order().to_set() == self@.dom(),
    {
        let n: usize = self.entries.len();
        let mut out: Vec<MemoryEntry> = Vec::new();
        let mut i: usize = 0;
        while i < n
            invariant
                i <= n,
                n == self.entries.order().len(),
                out@.len() == i,
                forall|k: int| 0 <= k < i ==> (#[trigger] out@[k])@ == self@[self.order()[k]],
            decreases n - i,
        {
            let e = self.entries.value_at(i);
            proof {
                assert(self@[self.order()[i as int]] == e@);
            }
            out.push(e.copy());
            i += 1;
        }
        proof {
            assert(entry_views(out@) =~= self.order().map_values(|k: Seq<char>| self@[k]));
            assert(self@.dom() =~= self.entries@.dom());
        }
        out
    }

    /// Puts other facts in place of all of them at a time.
    pub fn replace_all_at(&mut self, facts: &Vec<(MemoryCategory, String, String)>, now: u64)
        requires
            old(self).wf(),
        ensures
            final(self).wf(),
            final(self).place() == old(self).place(),
            holds_facts(final(self)@, facts@, now),
    {
        let _ = self.entries.take_entries();
        proof {
            assert(self@ =~= Map::<Seq<char>, EntryV>::empty());
            assert(facts@.take(0).len() == 0);
        }
        let ghost place = self.place();
        let mut i: usize = 0;
        while i < facts.len()
            invariant
                i <= facts@.len(),
                self.wf(),
                self.place() == place,
                holds_facts(self@, facts@.take(i as int), now),
            decreases facts@.len() - i,
        {
            let ghost before = self@;
            let f = &facts[i];
            self.set_at(f.1.as_str(), f.2.as_str(), f.0, now);
            proof {
                let t = facts@.take(i + 1);
                assert(t.drop_last() =~= facts@.take(i as int));
                assert(t.last() == facts@[i as int]);
                lemma_next_fact(before, self@, t, now);
            }
            i += 1;
        }
        proof {
            assert(facts@.take(facts@.len() as int) =~= facts@);
        }
    }

    /// Puts other facts in place of all of them now.
    pub fn replace_all(&mut self, facts: &Vec<(MemoryCategory, String, String)>)
        requires
            old(self).wf(),
        ensures
            final(self).wf(),
            final(self).place() == old(self).place(),
            exists|now: u64| #[trigger] holds_facts(final(self)@, facts@, now),
    {
        let now: u64 = now_unix();
        self.replace_all_at(facts, now);
    }

    /// The number of facts.
    pub fn len(&self) -> (r: usize)
        ensures
            r == self@.dom().len(),
    {
        let n: usize = self.entries.len();
        proof {
            assert(self@.dom() =~= self.entries@.dom());
        }
        n
    }

    /// Whether there is no fact.
    pub fn is_empty(&self) -> (r: bool)
        ensures
            r == (self@.dom().len() == 0),
    {
        self.len() == 0
    }

    /// The facts as the part of a prompt; nothing where there are none.
    pub fn as_context_string(&self) -> (r: String)
        ensures
            r@ == if self.order().len() == 0 {
                Seq::<char>::empty()
            } else {
                "## Agent Memory\n"@ + join(shown(self.order(), self@), "\n"@)
            },
            self.order().to_set() == self@.dom(),
    {
        let n: usize = self.entries.len();
        proof {
            assert(self@.dom() =~= self.entries@.dom());
        }
        if n == 0 {
            return String::new();
        }
        let mut out: Vec<String> = Vec::new();
        let ghost order = self.order();
        let ghost want = shown(order, self@);
        let mut i: usize = 0;
        while i < n
            invariant
                i <= n,
                n == self.entries.order().len(),
                order == self.entries.order(),
                want == shown(order, self@),
                out@.len() == i,
                forall|k: int| 0 <= k < i ==> (#[trigger] out@[k])@ == want[k],
            decreases n - i,
        {
            let e = self.entries.value_at(i);
            proof {
                assert(self@[order[i as int]] == e@);
            }
            let a = concat("[", e.category.name());
            let b = concat(a.as_str(), "] ");
            let c = concat(b.as_str(), e.key.as_str());
            let d = concat(c.as_str(), ": ");
            out.push(concat(d.as_str(), e.value.as_str()));
            i += 1;
        }
        proof {
            assert(views(out@) =~= want);
        }
        concat("## Agent Memory\n", join_texts(&out, "\n").as_str())
    }
}

proof fn lemma_ranked(u: Seq<Worth>, r: Seq<Worth>, order: Seq<Seq<char>>, before: Map<Seq<char>, EntryV>)
    requires
        u.len() == order.len(),
        r.len() == u.len(),
        order.no_duplicates(),
        before.dom() == order.to_set(),
        r.no_duplicates(),
        forall|x: Worth| u.contains(x) <==> #[trigger] r.contains(x),
        forall|k: int| 0 <= k < u.len() ==> worth_of(#[trigger] u[k], order[k], before),
    ensures
        ({
            let keys = r.map_values(|w: Worth| w.key@);
            &&& keys.no_duplicates()
            &&& forall|k: int| 0 <= k < keys.len() ==> before.dom().contains(#[trigger] keys[k])
            &&& forall|q: Seq<char>| before.dom().contains(q) ==> #[trigger] keys.contains(q)
            &&& forall|k: int|
                0 <= k < r.len() ==> (#[trigger] r[k]).access_count == before[keys[k]].access_count
                    && r[k].last_accessed == before[keys[k]].last_accessed
        }),
{
    let keys = r.map_values(|w: Worth| w.key@);
    assert forall|k: int| 0 <= k < r.len() implies before.dom().contains(#[trigger] keys[k]) && r[k].access_count
        == before[keys[k]].access_count && r[k].last_accessed == before[keys[k]].last_accessed by {
        assert(r.contains(r[k]));
        let a = choose|a: int| 0 <= a < u.len() && u[a] == r[k];
        assert(u[a].key@ == order[a]);
        assert(order.to_set().contains(order[a]));
    }
    assert forall|k: int| 0 <= k < r.len() implies (#[trigger] r[k]).access_count == before[keys[k]].access_count
        && r[k].last_accessed == before[keys[k]].last_accessed by {
        assert(before.dom().contains(keys[k]));
    }
    assert forall|q: Seq<char>| before.dom().contains(q) implies #[trigger] keys.contains(q) by {
        let a = choose|a: int| 0 <= a < order.len() && order[a] == q;
        assert(u.contains(u[a]));
        assert(r.contains(u[a]));
        let k = choose|k: int| 0 <= k < r.len() && r[k] == u[a];
        assert(keys[k] == q);
    }
    assert forall|x: int, y: int| 0 <= x < keys.len() && 0 <= y < keys.len() && x != y implies keys[x] != keys[y] by {
        assert(r.contains(r[x]) && r.contains(r[y]));
        let a = choose|a: int| 0 <= a < u.len() && u[a] == r[x];
        let b = choose|b: int| 0 <= b < u.len() && u[b] == r[y];
        assert(u[a].key@ == order[a] && u[b].key@ == order[b]);
        if keys[x] == keys[y] {
            assert(a == b);
            assert(r[x] == r[y]);
        }
    }
}

// ---------------------------------------------------------------------------
// Facts of a model
// ---------------------------------------------------------------------------

/// The entry that a fact becomes.
pub open spec fn fact_entry(f: (MemoryCategory, String, String), now: u64) -> EntryV {
    new_entry(f.1@, f.2@, f.0, now)
}

/// The facts by their keys; of those with one key the last counts.
pub open spec fn facts_map(facts: Seq<(MemoryCategory, String, String)>, now: u64) -> Map<Seq<char>, EntryV>
    decreases facts.len(),
{
    if facts.len() == 0 {
        Map::empty()
    } else {
        let e = fact_entry(facts.last(), now);
        facts_map(facts.drop_last(), now).insert(e.key, e)
    }
}

/// The entries are the facts by their keys; where these are more than
/// `MAX_ENTRIES`, so many of them.
pub open spec fn holds_facts(m: Map<Seq<char>, EntryV>, facts: Seq<(MemoryCategory, String, String)>, now: u64) -> bool {
    let all = facts_map(facts, now);
    &&& m.dom().finite()
    &&& m.submap_of(all)
    &&& m.dom().len() == if all.dom().len() <= MAX_ENTRIES {
        all.dom().len()
    } else {
        MAX_ENTRIES as nat
    }
    &&& all.dom().len() <= MAX_ENTRIES ==> m == all
}

proof fn lemma_facts_map(facts: Seq<(MemoryCategory, String, String)>, now: u64)
    ensures
        facts_map(facts, now).dom().finite(),
    decreases facts.len(),
{
    if facts.len() > 0 {
        lemma_facts_map(facts.drop_last(), now);
    }
}

/// One more fact is set.
proof fn lemma_next_fact(
    before: Map<Seq<char>, EntryV>,
    after: Map<Seq<char>, EntryV>,
    facts: Seq<(MemoryCategory, String, String)>,
    now: u64,
)
    requires
        facts.len() > 0,
        holds_facts(before, facts.drop_last(), now),
        pruned(before.insert(facts.last().1@, fact_entry(facts.last(), now)), after),
    ensures
        holds_facts(after, facts, now),
{
    let e = fact_entry(facts.last(), now);
    let were = facts_map(facts.drop_last(), now);
    let all = facts_map(facts, now);
    let grown = before.insert(e.key, e);
    lemma_facts_map(facts.drop_last(), now);
    lemma_facts_map(facts, now);
    assert(grown.dom() =~= before.dom().insert(e.key));
    assert(all.dom() =~= were.dom().insert(e.key));
    assert(grown.submap_of(all));
    if all.dom().len() <= MAX_ENTRIES {
        assert(grown =~= all);
    } else if were.dom().len() <= MAX_ENTRIES {
        assert(before == were);
        assert(grown =~= all);
    } else if before.dom().contains(e.key) {
        assert(grown.dom() =~= before.dom());
        assert(grown.dom().len() == MAX_ENTRIES);
    } else {
        assert(grown.dom().len() == MAX_ENTRIES + 1);
    }
    assert(after.submap_of(grown));
    assert forall|k: Seq<char>| #[trigger] after.dom().contains(k) implies all.dom().contains(k) && all[k] == after[k] by {
        assert(grown.dom().contains(k) && grown[k] == after[k]);
        assert(k != e.key ==> before.dom().contains(k) && were.dom().contains(k));
    }
    assert(after.submap_of(all));
}

/// What a model is told that picks facts out of a conversation.
pub const EXTRACT_SYSTEM: &'static str =
    "You are a memory extraction assistant. Your job is to identify facts, preferences, decisions, and relationships from conversations that should be remembered for future sessions.\n\nOutput one fact per line in this exact format:\nCATEGORY: key = value\n\nValid categories: UserPreference, ProjectContext, Decision, Fact, Relationship, Skill\n\nRules:\n- Only extract high-signal information worth remembering across sessions\n- Prefer concise, factual statements\n- Skip ephemeral details (greetings, debugging back-and-forth)\n- If there is nothing worth remembering, output: NONE\n\nExamples:\nUserPreference: preferred_language = Rust\nDecision: auth_approach = JWT with refresh tokens\nFact: user_name = Alice\nProjectContext: deployment_target = AWS ECS Fargate";

/// What a model is told that merges facts.
pub const CONSOLIDATE_SYSTEM: &'static str =
    "You are a memory consolidation assistant. You are given a list of remembered facts. Merge duplicates, drop superseded or contradictory entries (keep the most recent / most specific), and tighten wording. Preserve every distinct piece of high-signal information — do not lose facts.\n\nOutput the consolidated set, one fact per line:\nCATEGORY: key = value\n\nValid categories: UserPreference, ProjectContext, Decision, Fact, Relationship, Skill";

/// The system and the user prompt that ask for the facts of a conversation.
pub fn extract_facts_prompt(conversation_messages: &Vec<String>) -> (r: (String, String))
    ensures
        r.0@ == EXTRACT_SYSTEM@,
        r.1@ == "Extract memorable facts from this conversation:\n\n"@ + join(views(conversation_messages@), "\n"@)
            + "\n\nRemember: one fact per line, format: CATEGORY: key = value"@,
{
    let conversation = join_texts(conversation_messages, "\n");
    let head = concat("Extract memorable facts from this conversation:\n\n", conversation.as_str());
    (
        EXTRACT_SYSTEM.to_owned(),
        concat(head.as_str(), "\n\nRemember: one fact per line, format: CATEGORY: key = value"),
    )
}

/// The line that writes an entry.
pub open spec fn fact_line(e: EntryV) -> Seq<char> {
    e.category.named() + ": "@ + e.key + " = "@ + e.value
}

/// The system and the user prompt that ask for the facts to be merged.
pub fn consolidate_facts_prompt(entries: &Vec<MemoryEntry>) -> (r: (String, String))
    ensures
        r.0@ == CONSOLIDATE_SYSTEM@,
        r.1@ == "Consolidate these "@ + decimal(entries@.len()) + " memory entries:\n\n"@ + join(
            entry_views(entries@).map_values(|e: EntryV| fact_line(e)),
            "\n"@,
        ) + "\n\nRemember: one fact per line, format: CATEGORY: key = value"@,
{
    let mut listing: Vec<String> = Vec::new();
    let mut i: usize = 0;
    while i < entries.len()
        invariant
            i <= entries@.len(),
            listing@.len() == i,
            forall|k: int| 0 <= k < i ==> (#[trigger] listing@[k])@ == fact_line(entries@[k]@),
        decreases entries@.len() - i,
    {
        let e = &entries[i];
        let a = concat(e.category.name(), ": ");
        let b = concat(a.as_str(), e.key.as_str());
        let c = concat(b.as_str(), " = ");
        listing.push(concat(c.as_str(), e.value.as_str()));
        i += 1;
    }
    proof {
        assert(views(listing@) =~= entry_views(entries@).map_values(|e: EntryV| fact_line(e)));
    }
    let a = concat("Consolidate these ", decimal_text(entries.len() as u64).as_str());
    let b = concat(a.as_str(), " memory entries:\n\n");
    let c = concat(b.as_str(), join_texts(&listing, "\n").as_str());
    (
        CONSOLIDATE_SYSTEM.to_owned(),
        concat(c.as_str(), "\n\nRemember: one fact per line, format: CATEGORY: key = value"),
    )
}

/// The category of a name; an unknown one is a plain fact.
pub open spec fn category_of(name: Seq<char>) -> MemoryCategory {
    if name == "UserPreference"@ {
        MemoryCategory::UserPreference
    } else if name == "ProjectContext"@ {
        MemoryCategory::ProjectContext
    } else if name == "Decision"@ {
        MemoryCategory::Decision
    } else if name == "Relationship"@ {
        MemoryCategory::Relationship
    } else if name == "Skill"@ {
        MemoryCategory::Skill
    } else {
        MemoryCategory::Fact
    }
}

/// The fact that a line writes: a category, a colon, a key, an equals sign and
/// a value.
pub open spec fn fact_of(line: Seq<char>) -> Option<(MemoryCategory, Seq<char>, Seq<char>)> {
    let t = trim(line);
    let c = next_char(t, ':', 0);
    let e = next_char(t, '=', c + 1);
    if t.len() == 0 || t == "NONE"@ || c >= t.len() || e >= t.len() {
        None
    } else {
        Some(
            (
                category_of(trim(t.subrange(0, c))),
                trim(t.subrange(c + 1, e)),
                trim(t.subrange(e + 1, t.len() as int)),
            ),
        )
    }
}

/// The facts that some lines write, in order.
pub open spec fn facts_of(ls: Seq<Seq<char>>) -> Seq<(MemoryCategory, Seq<char>, Seq<char>)>
    decreases ls.len(),
{
    if ls.len() == 0 {
        Seq::empty()
    } else {
        match fact_of(ls.last()) {
            Some(f) => facts_of(ls.drop_last()).push(f),
            None => facts_of(ls.drop_last()),
        }
    }
}

pub open spec fn fact_views(v: Seq<(MemoryCategory, String, String)>) -> Seq<(MemoryCategory, Seq<char>, Seq<char>)> {
    v.map_values(|f: (MemoryCategory, String, String)| (f.0, f.1@, f.2@))
}

fn read_category(name: &str) -> (r: MemoryCategory)
    ensures
        r == category_of(name@),
{
    if same(name, "UserPreference") {
        MemoryCategory::UserPreference
    } else if same(name, "ProjectContext") {
        MemoryCategory::ProjectContext
    } else if same(name, "Decision") {
        MemoryCategory::Decision
    } else if same(name, "Relationship") {
        MemoryCategory::Relationship
    } else if same(name, "Skill") {
        MemoryCategory::Skill
    } else {
        MemoryCategory::Fact
    }
}

fn read_fact(line: &str) -> (r: Option<(MemoryCategory, String, String)>)
    ensures
        match r {
            Some(f) => fact_of(line@) == Some((f.0, f.1@, f.2@)),
            None => fact_of(line@) is None,
        },
{
    let text = trimmed(line);
    if text.as_str().unicode_len() == 0 || same(text.as_str(), "NONE") {
        return None;
    }
    let v = chars_of(text.as_str());
    proof {
        lemma_next_char(v@, ':', 0);
    }
    let c: usize = seek_char(&v, ':', 0);
    if c >= v.len() {
        return None;
    }
    proof {
        lemma_next_char(v@, '=', c + 1);
    }
    let e: usize = seek_char(&v, '=', c + 1);
    if e >= v.len() {
        return None;
    }
    let name = trimmed_between(&v, 0, c);
    Some(
        (read_category(name.as_str()), trimmed_between(&v, c + 1, e), trimmed_between(&v, e + 1, v.len())),
    )
}

/// The facts in the answer of a model.
pub fn parse_extracted_facts(response: &str) -> (r: Vec<(MemoryCategory, String, String)>)
    ensures
        fact_views(r@) == facts_of(lines(response@)),
{
    let ls = lines_of(response);
    let ghost all = lines(response@);
    let mut facts: Vec<(MemoryCategory, String, String)> = Vec::new();
    let mut i: usize = 0;
    proof {
        assert(fact_views(facts@) =~= Seq::<(MemoryCategory, Seq<char>, Seq<char>)>::empty());
        assert(all.take(0).len() == 0);
    }
    while i < ls.len()
        invariant
            i <= ls@.len(),
            all == views(ls@),
            fact_views(facts@) == facts_of(all.take(i as int)),
        decreases ls@.len() - i,
    {
        let ghost was = facts@;
        proof {
            assert(all.take(i + 1).drop_last() =~= all.take(i as int));
            assert(all.take(i + 1).last() == ls@[i as int]@);
        }
        match read_fact(ls[i].as_str()) {
            Some(f) => {
                facts.push(f);
                proof {
                    assert(fact_views(facts@) =~= fact_views(was).push((f.0, f.1@, f.2@)));
                }
            },
            None => {},
        }
        i += 1;
    }
    proof {
        assert(all.take(all.len() as int) =~= all);
    }
    facts
}

// ---------------------------------------------------------------------------
// Laws
// ---------------------------------------------------------------------------

/// However many facts are set, there are never more than `MAX_ENTRIES`.
pub proof fn law_memory_stays_bounded(before: Map<Seq<char>, EntryV>, after: Map<Seq<char>, EntryV>)
    requires
        pruned(before, after),
    ensures
        after.dom().len() <= MAX_ENTRIES,
        after.submap_of(before),
{
}

/// A fact that is worth more than some fact that stays, stays itself.
pub proof fn law_used_facts_survive(
    before: Map<Seq<char>, EntryV>,
    after: Map<Seq<char>, EntryV>,
    hot: Seq<char>,
    cold: Seq<char>,
)
    requires
        pruned(before, after),
        before.dom().contains(hot),
        after.dom().contains(cold),
        weaker(before[cold], before[hot]),
    ensures
        after.dom().contains(hot),
        after[hot] == before[hot],
{
    if !after.dom().contains(hot) {
        assert(!weaker(before[cold], before[hot]));
    }
}

} // verus!
