//! Snapshots of agents, numbered by version.
use vstd::prelude::*;

use crate::llm::provider::TokenUsageStats;
use crate::memory::files::dot_before;
use crate::memory::messages::{StoredMessage, StoredV, copy_first, stored_views};
use crate::text::{all_digits, chars_of, concat, decimal, decimal_text, is_digit, lemma_decimal, number_of, parse_number,
    read_number, same, text_between, unsigned, views};

verus! {

/// The state of an agent.
#[derive(Debug)]
pub struct AgentCheckpoint {
    /// Grows with every snapshot.
    pub version: u64,
    pub agent_id: String,
    pub checkpoint_time: u64,
    pub session_messages: Vec<StoredMessage>,
    pub cumulative_token_usage: TokenUsageStats,
    pub behavior_state: Option<String>,
}

/// When snapshots are taken.
#[derive(Debug, Clone, Copy, PartialEq, Eq, Structural)]
pub enum CheckpointPolicy {
    /// After every answer of a model.
    EveryLlmCall,
    /// Every so many messages.
    EveryNMessages(usize),
    /// On request alone.
    Manual,
    /// Never.
    Never,
}

/// Where snapshots are kept and when they are taken.
#[derive(Debug)]
pub struct CheckpointStore {
    pub base_dir: String,
    pub policy: CheckpointPolicy,
}

/// A snapshot is due.
pub open spec fn is_due(policy: CheckpointPolicy, message_count: usize) -> bool {
    match policy {
        CheckpointPolicy::EveryLlmCall => true,
        CheckpointPolicy::EveryNMessages(n) => n > 0 && message_count % n == 0,
        CheckpointPolicy::Manual => false,
        CheckpointPolicy::Never => false,
    }
}

// ---------------------------------------------------------------------------
// File names
// ---------------------------------------------------------------------------

/// So many zeros.
pub open spec fn zeros(n: nat) -> Seq<char> {
    Seq::new(n, |i: int| '0')
}

/// A number in at least sixteen digits.
pub open spec fn padded(v: u64) -> Seq<char> {
    let d = decimal(v as nat);
    if d.len() >= 16 {
        d
    } else {
        zeros((16 - d.len()) as nat) + d
    }
}

/// The name of the file of a version.
pub open spec fn file_of(v: u64) -> Seq<char> {
    padded(v) + ".ckpt"@
}

/// The version of a file with a name, if it is that of a snapshot.
pub open spec fn version_in(name: Seq<char>) -> Option<u64> {
    match dot_before(name, name.len() as int) {
        Some(d) => if d > 0 && name.subrange(d + 1, name.len() as int) == "ckpt"@ {
            parse_number(name.subrange(0, d), u64::MAX)
        } else {
            None
        },
        None => None,
    }
}

/// The version of a file that is a snapshot and decodes.
pub open spec fn valid_version(names: Seq<Seq<char>>, decodes: Seq<bool>, i: int) -> Option<u64> {
    if decodes[i] {
        version_in(names[i])
    } else {
        None
    }
}

/// The first file is a later snapshot than the second: a higher version, or the
/// same one further back in the list.
pub open spec fn later(names: Seq<Seq<char>>, j: int, i: int) -> bool {
    match (version_in(names[j]), version_in(names[i])) {
        (Some(a), Some(b)) => a > b || (a == b && j > i),
        _ => false,
    }
}

/// How many of the first `n` files are later than file `i`.
pub open spec fn later_count(names: Seq<Seq<char>>, i: int, n: int) -> nat
    decreases n,
{
    if n <= 0 {
        0
    } else {
        later_count(names, i, n - 1) + if later(names, n - 1, i) {
            1nat
        } else {
            0nat
        }
    }
}

/// The file is a snapshot that has `keep` later ones.
pub open spec fn outdated(names: Seq<Seq<char>>, i: int, keep: usize) -> bool {
    version_in(names[i]) is Some && later_count(names, i, names.len() as int) >= keep
}

proof fn lemma_padding(n: nat, d: Seq<char>)
    requires
        all_digits(d),
    ensures
        all_digits(zeros(n) + d),
        number_of(zeros(n) + d) == number_of(d),
    decreases d.len(),
{
    let s = zeros(n) + d;
    assert forall|i: int| 0 <= i < s.len() implies is_digit(#[trigger] s[i]) by {
        if i >= n {
            assert(s[i] == d[i - n]);
        }
    }
    if d.len() == 0 {
        assert(s =~= zeros(n));
        lemma_zeros(n);
    } else {
        assert forall|i: int| 0 <= i < d.drop_last().len() implies is_digit(#[trigger] d.drop_last()[i]) by {
            assert(d.drop_last()[i] == d[i]);
        }
        lemma_padding(n, d.drop_last());
        assert(s.drop_last() =~= zeros(n) + d.drop_last());
    }
}

proof fn lemma_zeros(n: nat)
    ensures
        number_of(zeros(n)) == 0,
    decreases n,
{
    if n > 0 {
        lemma_zeros((n - 1) as nat);
        assert(zeros(n).drop_last() =~= zeros((n - 1) as nat));
    }
}

proof fn lemma_dot_before(s: Seq<char>, i: int, d: int)
    requires
        0 <= d < i <= s.len(),
        s[d] == '.',
        forall|k: int| d < k < i ==> s[k] != '.',
    ensures
        dot_before(s, i) == Some(d),
    decreases i,
{
    if d < i - 1 {
        lemma_dot_before(s, i - 1, d);
    }
}

/// The file of a version is read back as that version.
pub proof fn law_versions_are_read_back(v: u64)
    ensures
        version_in(file_of(v)) == Some(v),
{
    let p = padded(v);
    let name = file_of(v);
    let d = decimal(v as nat);
    lemma_decimal(v as nat);
    if d.len() < 16 {
        lemma_padding((16 - d.len()) as nat, d);
    }
    reveal_strlit(".ckpt");
    reveal_strlit("ckpt");
    assert(name[p.len() as int] == '.');
    assert forall|k: int| p.len() < k < name.len() implies name[k] != '.' by {
        assert(name[k] == ".ckpt"@[k - p.len()]);
    }
    lemma_dot_before(name, name.len() as int, p.len() as int);
    assert(name.subrange(p.len() as int + 1, name.len() as int) =~= "ckpt"@);
    assert(name.subrange(0, p.len() as int) =~= p);
    assert(is_digit(p[0]));
    assert(unsigned(p) == p);
}

fn padded_text(v: u64) -> (r: String)
    ensures
        r@ == padded(v),
{
    let d = decimal_text(v);
    let n: usize = d.as_str().unicode_len();
    if n >= 16 {
        return d;
    }
    let mut r = String::new();
    let mut i: usize = n;
    while i < 16
        invariant
            n <= i <= 16,
            r@ == zeros((i - n) as nat),
        decreases 16 - i,
    {
        r.push('0');
        i += 1;
        proof {
            assert(zeros((i - n) as nat) =~= zeros((i - 1 - n) as nat).push('0'));
        }
    }
    concat(r.as_str(), d.as_str())
}

/// The version of a file with a name, if it is that of a snapshot.
pub fn version_of(name: &str) -> (r: Option<u64>)
    ensures
        r == version_in(name@),
{
    let v = chars_of(name);
    let mut i: usize = v.len();
    while i > 0
        invariant
            i <= v@.len(),
            v@ == name@,
            dot_before(name@, name@.len() as int) == dot_before(name@, i as int),
        decreases i,
    {
        if v[i - 1] == '.' {
            if i > 1 && same(text_between(&v, i, v.len()).as_str(), "ckpt") {
                return read_number(text_between(&v, 0, i - 1).as_str(), 0xffff_ffff_ffff_ffff);
            }
            return None;
        }
        i = i - 1;
    }
    None
}

impl CheckpointStore {
    /// A store in a directory.
    pub fn new(base_dir: &str, policy: CheckpointPolicy) -> (r: CheckpointStore)
        ensures
            r.base_dir@ == base_dir@,
            r.policy == policy,
    {
        CheckpointStore { base_dir: base_dir.to_owned(), policy }
    }

    /// Whether a snapshot is due at so many messages.
    pub fn should_checkpoint(&self, message_count: usize) -> (r: bool)
        ensures
            r == is_due(self.policy, message_count),
    {
        match self.policy {
            CheckpointPolicy::EveryLlmCall => true,
            CheckpointPolicy::EveryNMessages(n) => n > 0 && message_count % n == 0,
            CheckpointPolicy::Manual => false,
            CheckpointPolicy::Never => false,
        }
    }

    /// The name of the file of a version.
    pub fn checkpoint_path(version: u64) -> (r: String)
        ensures
            r@ == file_of(version),
    {
        concat(padded_text(version).as_str(), ".ckpt")
    }

    /// Which of the files of an agent is the latest valid snapshot, given which
    /// of them decode: the first with the highest version.
    pub fn load_latest(names: &Vec<String>, decodes: &Vec<bool>) -> (r: Option<usize>)
        requires
            names@.len() == decodes@.len(),
        ensures
            match r {
                Some(i) => {
                    &&& i < names@.len()
                    &&& valid_version(views(names@), decodes@, i as int) matches Some(v) && forall|j: int|
                        0 <= j < names@.len() ==> (#[trigger] valid_version(views(names@), decodes@, j) matches Some(w)
                            ==> w <= v && (j < i ==> w < v))
                },
                None => forall|j: int|
                    0 <= j < names@.len() ==> #[trigger] valid_version(views(names@), decodes@, j) is None,
            },
    {
        let ghost all = views(names@);
        let mut best: Option<(u64, usize)> = None;
        let mut i: usize = 0;
        while i < names.len()
            invariant
                i <= names@.len(),
                names@.len() == decodes@.len(),
                all == views(names@),
                match best {
                    Some((v, b)) => {
                        &&& b < i
                        &&& valid_version(all, decodes@, b as int) == Some(v)
                        &&& forall|j: int|
                            0 <= j < i ==> (#[trigger] valid_version(all, decodes@, j) matches Some(w) ==> w <= v && (j
                                < b ==> w < v))
                    },
                    None => forall|j: int| 0 <= j < i ==> #[trigger] valid_version(all, decodes@, j) is None,
                },
            decreases names@.len() - i,
        {
            proof {
                assert(all[i as int] == names@[i as int]@);
            }
            let version = if decodes[i] {
                version_of(names[i].as_str())
            } else {
                None
            };
            match version {
                Some(w) => {
                    match best {
                        None => {
                            best = Some((w, i));
                        },
                        Some((v, _)) => {
                            if w > v {
                                best = Some((w, i));
                            }
                        },
                    }
                },
                None => {},
            }
            i += 1;
        }
        match best {
            Some((_, b)) => Some(b),
            None => None,
        }
    }

    /// Which of the files of an agent are removed so that the latest `keep`
    /// snapshots stay.
    pub fn prune_old(names: &Vec<String>, keep: usize) -> (r: Vec<usize>)
        ensures
            forall|i: int| 0 <= i < r@.len() ==> (#[trigger] r@[i]) < names@.len() && outdated(
                views(names@),
                r@[i] as int,
                keep,
            ),
            forall|k: int| 0 <= k < names@.len() && #[trigger] outdated(views(names@), k, keep) ==> r@.contains(
                k as usize,
            ),
            forall|i: int, j: int| 0 <= i < j < r@.len() ==> #[trigger] r@[i] < #[trigger] r@[j],
    {
        let ghost all = views(names@);
        let mut out: Vec<usize> = Vec::new();
        let mut i: usize = 0;
        while i < names.len()
            invariant
                i <= names@.len(),
                all == views(names@),
                forall|k: int| 0 <= k < out@.len() ==> (#[trigger] out@[k]) < i && outdated(all, out@[k] as int, keep),
                forall|k: int| 0 <= k < i && #[trigger] outdated(all, k, keep) ==> out@.contains(k as usize),
                forall|a: int, b: int| 0 <= a < b < out@.len() ==> #[trigger] out@[a] < #[trigger] out@[b],
            decreases names@.len() - i,
        {
            let ghost were = out@;
            let mine = version_of(names[i].as_str());
            let mut count: usize = 0;
            let mut j: usize = 0;
            while j < names.len()
                invariant
                    i < names@.len(),
                    j <= names@.len(),
                    count <= j,
                    all == views(names@),
                    mine == version_in(all[i as int]),
                    count == later_count(all, i as int, j as int),
                decreases names@.len() - j,
            {
                proof {
                    assert(all[j as int] == names@[j as int]@);
                }
                match (version_of(names[j].as_str()), mine) {
                    (Some(a), Some(b)) => {
                        if a > b || (a == b && j > i) {
                            count += 1;
                        }
                    },
                    _ => {},
                }
                j += 1;
            }
            if mine.is_some() && count >= keep {
                out.push(i);
            }
            proof {
                assert forall|k: int| 0 <= k < i + 1 && #[trigger] outdated(all, k, keep) implies out@.contains(
                    k as usize,
                ) by {
                    if k < i {
                        assert(were.contains(k as usize));
                        let x = choose|x: int| 0 <= x < were.len() && were[x] == k as usize;
                        assert(out@[x] == k as usize);
                    } else {
                        assert(out@[out@.len() - 1] == i);
                    }
                }
            }
            i += 1;
        }
        out
    }
}

/// The latest snapshot is never removed where one is to be kept.
pub proof fn law_latest_snapshot_stays(names: Seq<Seq<char>>, i: int, keep: usize)
    requires
        0 <= i < names.len(),
        keep > 0,
        forall|j: int| 0 <= j < names.len() ==> !#[trigger] later(names, j, i),
    ensures
        !outdated(names, i, keep),
{
    lemma_none_later(names, i, names.len() as int);
}

proof fn lemma_none_later(names: Seq<Seq<char>>, i: int, n: int)
    requires
        0 <= n <= names.len(),
        forall|j: int| 0 <= j < names.len() ==> !#[trigger] later(names, j, i),
    ensures
        later_count(names, i, n) == 0,
    decreases n,
{
    if n > 0 {
        assert(!later(names, n - 1, i));
        lemma_none_later(names, i, n - 1);
    }
}

// ---------------------------------------------------------------------------
// Going back
// ---------------------------------------------------------------------------

/// The snapshot that follows when a conversation goes back to its first `keep`
/// messages; `None` where there is nothing to drop.
pub open spec fn goes_back(version: u64, messages: Seq<StoredV>, keep: usize) -> Option<(u64, Seq<StoredV>)> {
    if keep >= messages.len() {
        None
    } else {
        Some(((version + 1) as u64, messages.take(keep as int)))
    }
}

impl AgentCheckpoint {
    /// Goes back to the first `keep` messages at a time. Whether there was
    /// something to drop.
    pub fn rewind_at(&mut self, keep: usize, now: u64) -> (r: bool)
        requires
            keep < old(self).session_messages@.len() ==> old(self).version < u64::MAX,
        ensures
            final(self).agent_id@ == old(self).agent_id@,
            final(self).cumulative_token_usage == old(self).cumulative_token_usage,
            final(self).behavior_state == old(self).behavior_state,
            match goes_back(old(self).version, stored_views(old(self).session_messages@), keep) {
                Some(p) => r && final(self).version == p.0 && stored_views(final(self).session_messages@) == p.1
                    && final(self).checkpoint_time == now,
                None => !r && final(self).version == old(self).version && final(self).session_messages@ == old(
                    self,
                ).session_messages@ && final(self).checkpoint_time == old(self).checkpoint_time,
            },
    {
        if keep >= self.session_messages.len() {
            return false;
        }
        let kept = copy_first(&self.session_messages, keep);
        self.session_messages = kept;
        self.version = self.version + 1;
        self.checkpoint_time = now;
        true
    }
}

/// Going back twice is going back to the shorter conversation.
pub proof fn law_going_back_twice(version: u64, messages: Seq<StoredV>, a: usize, b: usize)
    requires
        b < a < messages.len(),
        version < u64::MAX - 1,
    ensures
        goes_back(version, messages, a) matches Some(p) && goes_back(p.0, p.1, b) == Some(
            ((version + 2) as u64, messages.take(b as int)),
        ),
{
    assert(messages.take(a as int).take(b as int) =~= messages.take(b as int));
}

} // verus!
